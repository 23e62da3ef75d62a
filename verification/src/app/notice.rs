//! What the user is told.

use vstd::prelude::*;
use crate::text;

verus! {

/// A notice to the user.
#[derive(Debug)]
pub enum LoadNotice {
    /// It worked.
    Done(String),
    /// It worked, but something is to be minded.
    Warn(String),
    /// It did not work.
    Failed(String),
}

/// The model of [`LoadNotice`].
pub enum NoticeView {
    Done(Seq<char>),
    Warn(Seq<char>),
    Failed(Seq<char>),
}

impl View for LoadNotice {
    type V = NoticeView;

    open spec fn view(&self) -> NoticeView {
        match *self {
            LoadNotice::Done(s) => NoticeView::Done(s@),
            LoadNotice::Warn(s) => NoticeView::Warn(s@),
            LoadNotice::Failed(s) => NoticeView::Failed(s@),
        }
    }
}

impl NoticeView {
    /// What the notice says.
    pub open spec fn words(self) -> Seq<char> {
        match self {
            NoticeView::Done(s) => s,
            NoticeView::Warn(s) => s,
            NoticeView::Failed(s) => s,
        }
    }
}

impl LoadNotice {
    /// What the notice says.
    pub fn text(&self) -> (r: &str)
        ensures
            r@ == self@.words(),
    {
        match self {
            LoadNotice::Done(s) => s.as_str(),
            LoadNotice::Warn(s) => s.as_str(),
            LoadNotice::Failed(s) => s.as_str(),
        }
    }
}

/// The models of a row of notices.
pub open spec fn notice_views(v: Seq<LoadNotice>) -> Seq<NoticeView> {
    v.map_values(|n: LoadNotice| n@)
}

/// The latest notices, the oldest first.
#[derive(Debug)]
pub struct NoticeFeed {
    pub list: Vec<LoadNotice>,
    /// How many notices are kept.
    pub limit: usize,
}

/// The model of [`NoticeFeed`].
#[verifier::ext_equal]
pub struct FeedView {
    pub list: Seq<NoticeView>,
    pub limit: usize,
}

impl View for NoticeFeed {
    type V = FeedView;

    open spec fn view(&self) -> FeedView {
        FeedView { list: notice_views(self.list@), limit: self.limit }
    }
}

/// The last `n` of a row.
pub open spec fn latest<T>(s: Seq<T>, n: nat) -> Seq<T> {
    if s.len() > n {
        s.skip(s.len() - n)
    } else {
        s
    }
}

impl FeedView {
    /// No more notices than are kept.
    pub open spec fn wf(self) -> bool {
        self.list.len() <= self.limit
    }

    /// The feed with one more notice; the oldest leaves where there are too many.
    pub open spec fn told(self, n: NoticeView) -> FeedView {
        FeedView { list: latest(self.list.push(n), self.limit as nat), ..self }
    }

    /// The feed with one more notice of something that did not work.
    pub open spec fn failed(self, s: Seq<char>) -> FeedView {
        self.told(NoticeView::Failed(s))
    }
}

impl NoticeFeed {
    /// An empty feed that keeps `limit` notices.
    pub fn new(limit: usize) -> (r: Self)
        ensures
            r@ == (FeedView { list: Seq::empty(), limit }),
            r@.wf(),
    {
        let r = NoticeFeed { list: Vec::new(), limit };
        assert(r@.list =~= Seq::empty());
        r
    }

    /// Adds a notice; the oldest leaves where there are too many.
    pub fn push(&mut self, n: LoadNotice)
        requires
            old(self)@.wf(),
        ensures
            final(self)@ == old(self)@.told(n@),
            final(self)@.wf(),
    {
        let ghost before = notice_views(self.list@);
        self.list.push(n);
        assert(notice_views(self.list@) =~= before.push(n@));
        if self.list.len() > self.limit {
            self.list.remove(0);
            assert(notice_views(self.list@) =~= before.push(n@).skip(1));
        }
    }

    /// What the notices say, the oldest first.
    pub fn texts(&self) -> (r: Vec<String>)
        ensures
            r@.len() == self@.list.len(),
            forall|i: int| 0 <= i < r@.len() ==> (#[trigger] r@[i])@ == self@.list[i].words(),
    {
        let mut out: Vec<String> = Vec::new();
        let mut i: usize = 0;
        while i < self.list.len()
            invariant
                i <= self.list@.len(),
                out@.len() == i,
                forall|k: int| 0 <= k < i ==> (#[trigger] out@[k])@ == self@.list[k].words(),
            decreases self.list@.len() - i,
        {
            assert(self@.list[i as int] == self.list@[i as int]@);
            out.push(self.list[i].text().to_owned());
            i += 1;
        }
        out
    }
}

/// A notice with something added, to be minded.
pub fn with_warning(n: &LoadNotice, more: &str) -> (r: LoadNotice)
    ensures
        r@ == NoticeView::Warn(n@.words() + more@),
{
    let mut out = n.text().to_owned();
    out.append(more);
    LoadNotice::Warn(out)
}

} // verus!
