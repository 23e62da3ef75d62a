//! The open documents: the record itself and copies of it to try things in.
//!
//! One document is active. A copy holds the moves up to the position it was made at and has a
//! number that no other document ever gets. The record has number 0.

use vstd::prelude::*;
use super::names::{self, copy_name, default_sgf_name, file_name};
use crate::board::{self, copies, Board, BoardView, Coord, IllegalReason, Stone};
use crate::play;
use crate::sgf::load::{GameMeta, MetaView};
use crate::text::{self, push_decimal};

verus! {

/// A document: a board with what is kept beside it.
pub struct Doc {
    pub board: Board,
    pub meta: Option<GameMeta>,
    /// How many moves a copy started with; `None` for the record itself.
    pub from_move: Option<usize>,
    /// The number of a copy; 0 for the record itself.
    pub number: usize,
}

/// The model of [`Doc`].
#[verifier::ext_equal]
pub struct DocView {
    pub board: BoardView,
    pub meta: Option<MetaView>,
    pub from_move: Option<usize>,
    pub number: usize,
}

/// The view of what is kept beside a board.
pub open spec fn opt_meta(m: Option<GameMeta>) -> Option<MetaView> {
    match m {
        Some(m) => Some(m@),
        None => None,
    }
}

impl View for Doc {
    type V = DocView;

    open spec fn view(&self) -> DocView {
        DocView {
            board: self.board@,
            meta: opt_meta(self.meta),
            from_move: self.from_move,
            number: self.number,
        }
    }
}

/// The models of a row of documents.
pub open spec fn doc_views(v: Seq<Doc>) -> Seq<DocView> {
    v.map_values(|d: Doc| d@)
}

impl DocView {
    /// How many moves were tried in a copy; `None` for the record itself.
    pub open spec fn research(self) -> Option<nat> {
        match self.from_move {
            Some(f) => Some(
                if self.board.nodes.len() - 1 > f {
                    (self.board.nodes.len() - 1 - f) as nat
                } else {
                    0
                },
            ),
            None => None,
        }
    }

    /// The same as a number.
    pub open spec fn tried(self) -> nat {
        match self.research() {
            Some(n) => n,
            None => 0,
        }
    }

    /// Whether this is the record itself; a copy has a number and what is kept beside the board.
    pub open spec fn wf(self) -> bool {
        &&& self.board.wf()
        &&& self.from_move is None <==> self.number == 0
        &&& self.from_move is Some ==> self.meta is Some
    }
}

impl Doc {
    /// A document that makes sense.
    pub open spec fn wf(self) -> bool {
        self.board.wf() && self@.wf()
    }

    /// How many moves were tried in a copy; `None` for the record itself.
    pub fn research(&self) -> (r: Option<usize>)
        requires
            self.wf(),
        ensures
            r is Some == self@.research() is Some,
            r matches Some(n) ==> n == self@.research()->0,
    {
        match self.from_move {
            Some(f) => Some(self.board.move_count().saturating_sub(f)),
            None => None,
        }
    }

    fn tried(&self) -> (r: usize)
        requires
            self.wf(),
        ensures
            r == self@.tried(),
    {
        match self.research() {
            Some(n) => n,
            None => 0,
        }
    }
}

/// The open documents.
pub struct Docs {
    pub active: Doc,
    pub others: Vec<Doc>,
    /// The number of the next copy.
    pub next_number: usize,
    /// Whether the active document has changed since it was saved or loaded.
    pub dirty: bool,
    /// How often the active board was replaced, as far as 64 bits hold it.
    pub epoch: u64,
}

/// The model of [`Docs`].
#[verifier::ext_equal]
pub struct DocsView {
    pub active: DocView,
    pub others: Seq<DocView>,
    pub next_number: usize,
    pub dirty: bool,
    pub epoch: u64,
}

impl View for Docs {
    type V = DocsView;

    open spec fn view(&self) -> DocsView {
        DocsView {
            active: self.active@,
            others: doc_views(self.others@),
            next_number: self.next_number,
            dirty: self.dirty,
            epoch: self.epoch,
        }
    }
}

/// How many moves were tried in documents, all told.
pub open spec fn tried_in(s: Seq<DocView>) -> nat
    decreases s.len(),
{
    if s.len() == 0 {
        0
    } else {
        tried_in(s.drop_last()) + s.last().tried()
    }
}

/// How many of the documents are copies.
pub open spec fn copies_in(s: Seq<DocView>) -> nat
    decreases s.len(),
{
    if s.len() == 0 {
        0
    } else {
        copies_in(s.drop_last()) + if s.last().from_move is Some {
            1
        } else {
            0nat
        }
    }
}

/// Where the document with a number stands.
pub open spec fn place(s: Seq<DocView>, number: usize) -> Option<int>
    decreases s.len(),
{
    if s.len() == 0 {
        None
    } else if place(s.drop_last(), number) is Some {
        place(s.drop_last(), number)
    } else if s.last().number == number {
        Some(s.len() - 1)
    } else {
        None
    }
}

/// The documents without the one that has a number.
pub open spec fn without(s: Seq<DocView>, number: usize) -> Seq<DocView>
    decreases s.len(),
{
    if s.len() == 0 {
        Seq::empty()
    } else if s.last().number == number {
        without(s.drop_last(), number)
    } else {
        without(s.drop_last(), number).push(s.last())
    }
}

/// What a count is on the machine: no more than the largest number.
pub open spec fn clipped(n: nat) -> usize {
    if n > usize::MAX {
        usize::MAX
    } else {
        n as usize
    }
}

/// One more on a counter that starts over.
pub open spec fn next_epoch(n: u64) -> u64 {
    if n == u64::MAX {
        0
    } else {
        (n + 1) as u64
    }
}

impl DocsView {
    /// All documents, the active one first.
    pub open spec fn all(self) -> Seq<DocView> {
        seq![self.active] + self.others
    }

    /// Every document makes sense, no two have the same number, the numbers still to come are
    /// larger, and the record itself is there.
    pub open spec fn wf(self) -> bool {
        &&& self.next_number > 0
        &&& forall|i: int|
            0 <= i < self.all().len() ==> (#[trigger] self.all()[i]).wf()
                && self.all()[i].number < self.next_number
        &&& forall|i: int, j: int|
            0 <= i < j < self.all().len() ==> (#[trigger] self.all()[i]).number != (
            #[trigger] self.all()[j]).number
        &&& exists|i: int| 0 <= i < self.all().len() && (#[trigger] self.all()[i]).number == 0
    }

    /// How many moves were tried in copies, all told.
    pub open spec fn research_moves(self) -> usize {
        clipped(tried_in(self.others) + self.active.tried())
    }

    /// How many copies there are.
    pub open spec fn copy_count(self) -> nat {
        copies_in(self.others) + if self.active.from_move is Some {
            1
        } else {
            0nat
        }
    }

    /// The record itself.
    pub open spec fn record(self) -> DocView {
        if self.active.number == 0 {
            self.active
        } else {
            match place(self.others, 0) {
                Some(i) => self.others[i],
                None => self.active,
            }
        }
    }

    /// How many moves were tried in the copy with a number; `None` where there is no such copy.
    pub open spec fn doc_research(self, number: usize) -> Option<nat> {
        if number == self.active.number {
            self.active.research()
        } else {
            match place(self.others, number) {
                Some(i) => self.others[i].research(),
                None => None,
            }
        }
    }

    /// The documents after the record has been replaced; the copies are gone.
    pub open spec fn replaced(self, board: BoardView, meta: Option<MetaView>) -> DocsView {
        DocsView {
            active: DocView { board, meta, from_move: None, number: 0 },
            others: Seq::empty(),
            dirty: false,
            epoch: next_epoch(self.epoch),
            ..self
        }
    }

    /// The documents with another one active.
    pub open spec fn switched(self, number: usize) -> DocsView {
        match place(self.others, number) {
            Some(i) => DocsView {
                active: self.others[i],
                others: self.others.remove(i).push(self.active),
                dirty: false,
                epoch: next_epoch(self.epoch),
                ..self
            },
            None => self,
        }
    }

    /// The documents without the copy that has a number; where that is the active one, the record
    /// becomes active.
    pub open spec fn dropped(self, number: usize) -> DocsView {
        let s = if self.active.number == number {
            self.switched(0)
        } else {
            self
        };
        DocsView { others: without(s.others, number), ..s }
    }

    /// The documents with another state of the active board; a changed number of moves is a change
    /// to be saved.
    pub open spec fn edited(self, board: BoardView) -> DocsView {
        DocsView {
            active: DocView { board, ..self.active },
            dirty: self.dirty || board.nodes.len() != self.active.board.nodes.len(),
            ..self
        }
    }

    /// The documents with something else kept beside the active board.
    pub open spec fn with_meta(self, meta: Option<MetaView>) -> DocsView {
        DocsView { active: DocView { meta, ..self.active }, ..self }
    }

    /// Whether `next` is these documents with a new copy, which is active: it holds the moves up to
    /// the cursor of the active document.
    pub open spec fn copied(self, next: DocsView) -> bool {
        let n = self.active.board.here().depth;
        &&& copies::is_prefix(next.active.board, self.active.board, n as nat)
        &&& next == DocsView {
            active: DocView {
                board: next.active.board,
                meta: self.active.meta,
                from_move: Some(n),
                number: self.next_number,
            },
            others: self.others.push(self.active),
            next_number: (self.next_number + 1) as usize,
            dirty: false,
            epoch: next_epoch(self.epoch),
        }
    }
}

// ---- about the model ----

/// What a place is.
pub proof fn lemma_place(s: Seq<DocView>, number: usize)
    ensures
        match place(s, number) {
            Some(i) => 0 <= i < s.len() && s[i].number == number,
            None => forall|i: int| 0 <= i < s.len() ==> (#[trigger] s[i]).number != number,
        },
    decreases s.len(),
{
    if s.len() > 0 {
        let t = s.drop_last();
        lemma_place(t, number);
        match place(t, number) {
            Some(i) => {
                assert(t[i] == s[i]);
            },
            None => {
                if s.last().number != number {
                    assert forall|i: int| 0 <= i < s.len() implies (#[trigger] s[i]).number
                        != number by {
                        if i < t.len() {
                            assert(t[i] == s[i]);
                        }
                    }
                }
            },
        }
    }
}

/// Whether a document stands in a row from a place on.
pub open spec fn stands_from(s: Seq<DocView>, i: int, d: DocView) -> bool {
    exists|j: int| i <= j < s.len() && #[trigger] s[j] == d
}

/// What is left without a number.
pub proof fn lemma_without(s: Seq<DocView>, number: usize)
    ensures
        forall|i: int|
            0 <= i < without(s, number).len() ==> (#[trigger] without(s, number)[i]).number
                != number && s.contains(without(s, number)[i]),
        forall|i: int|
            0 <= i < s.len() && (#[trigger] s[i]).number != number ==> without(s, number).contains(
                s[i],
            ),
        forall|i: int|
            0 <= i < without(s, number).len() ==> stands_from(
                s,
                i,
                #[trigger] without(s, number)[i],
            ),
    decreases s.len(),
{
    if s.len() > 0 {
        let t = s.drop_last();
        let (w, v) = (without(t, number), without(s, number));
        lemma_without(t, number);
        assert forall|i: int| 0 <= i < v.len() implies (#[trigger] v[i]).number != number
            && s.contains(v[i]) && stands_from(s, i, v[i]) by {
            if i < w.len() {
                assert(v[i] == w[i]);
                assert(stands_from(t, i, w[i]));
                let j = choose|j: int| i <= j < t.len() && #[trigger] t[j] == w[i];
                assert(s[j] == v[i]);
            } else {
                lemma_without_len(t, number);
                assert(s[s.len() - 1] == v[i]);
            }
        }
        assert forall|i: int| 0 <= i < s.len() && (#[trigger] s[i]).number != number implies v.contains(
            s[i],
        ) by {
            if i < t.len() {
                assert(t[i] == s[i]);
                let k = choose|k: int| 0 <= k < w.len() && w[k] == t[i];
                assert(v[k] == s[i]);
            } else {
                assert(v[v.len() - 1] == s[i]);
            }
        }
    }
}

proof fn lemma_without_len(s: Seq<DocView>, number: usize)
    ensures
        without(s, number).len() <= s.len(),
    decreases s.len(),
{
    if s.len() > 0 {
        lemma_without_len(s.drop_last(), number);
    }
}

/// Different numbers stay different without one of them.
proof fn lemma_without_distinct(s: Seq<DocView>, number: usize)
    requires
        forall|i: int, j: int|
            0 <= i < j < s.len() ==> (#[trigger] s[i]).number != (#[trigger] s[j]).number,
    ensures
        forall|i: int, j: int|
            0 <= i < j < without(s, number).len() ==> (#[trigger] without(s, number)[i]).number != (
            #[trigger] without(s, number)[j]).number,
    decreases s.len(),
{
    if s.len() > 0 {
        let t = s.drop_last();
        assert forall|i: int, j: int| 0 <= i < j < t.len() implies (#[trigger] t[i]).number != (
        #[trigger] t[j]).number by {
            assert(t[i] == s[i] && t[j] == s[j]);
        }
        lemma_without_distinct(t, number);
        lemma_without(t, number);
        let (w, v) = (without(t, number), without(s, number));
        assert forall|i: int, j: int| 0 <= i < j < v.len() implies (#[trigger] v[i]).number != (
        #[trigger] v[j]).number by {
            if j < w.len() {
                assert(v[i] == w[i] && v[j] == w[j]);
            } else {
                assert(v[i] == w[i]);
                assert(stands_from(t, i, w[i]));
                let k = choose|k: int| i <= k < t.len() && #[trigger] t[k] == w[i];
                assert(t[k] == s[k]);
                assert(s[k].number != s[s.len() - 1].number);
            }
        }
    }
}

/// The documents stay in order when another one becomes active.
pub proof fn lemma_switched(d: DocsView, number: usize)
    requires
        d.wf(),
    ensures
        d.switched(number).wf(),
{
    lemma_place(d.others, number);
    if let Some(i) = place(d.others, number) {
        let n = d.switched(number);
        let was = d.all();
        let all = n.all();
        let m = d.others.len() as int;
        assert forall|k: int| 0 <= k < all.len() implies (#[trigger] all[k]).wf() && all[k].number
            < n.next_number by {
            assert(all[k] == was[from(k, i, m)]);
        }
        assert forall|k: int, j: int| 0 <= k < j < all.len() implies (#[trigger] all[k]).number != (
        #[trigger] all[j]).number by {
            let (a, b) = (from(k, i, m), from(j, i, m));
            assert(all[k] == was[a] && all[j] == was[b]);
            assert(a != b);
            if a < b {
                assert(was[a].number != was[b].number);
            } else {
                assert(was[b].number != was[a].number);
            }
        }
        let z = choose|z: int| 0 <= z < was.len() && (#[trigger] was[z]).number == 0;
        let y = if z == 0 {
            m
        } else if z == i + 1 {
            0
        } else if z < i + 1 {
            z
        } else {
            z - 1
        };
        assert(all[y] == was[z]);
    }
}

/// Where document `k` after a switch stood before it, the new active one having stood at `i`
/// among `m` others.
spec fn from(k: int, i: int, m: int) -> int {
    if k == 0 {
        i + 1
    } else if k == m {
        0
    } else if k < i + 1 {
        k
    } else {
        k + 1
    }
}

/// The documents stay in order when a copy is dropped, and the copy is gone.
pub proof fn lemma_dropped(d: DocsView, number: usize)
    requires
        d.wf(),
        number != 0,
    ensures
        d.dropped(number).wf(),
        forall|i: int|
            0 <= i < d.dropped(number).all().len() ==> (#[trigger] d.dropped(
                number,
            ).all()[i]).number != number,
{
    let s = if d.active.number == number {
        d.switched(0)
    } else {
        d
    };
    if d.active.number == number {
        lemma_switched(d, 0);
        lemma_place(d.others, 0);
        let z = choose|z: int| 0 <= z < d.all().len() && (#[trigger] d.all()[z]).number == 0;
        assert(z > 0 && d.others[z - 1].number == 0);
    }
    assert(s.active.number != number);
    let n = d.dropped(number);
    let (was, all) = (s.all(), n.all());
    lemma_without(s.others, number);
    assert forall|i: int, j: int| 0 <= i < j < s.others.len() implies (#[trigger] s.others[i]).number
        != (#[trigger] s.others[j]).number by {
        assert(was[i + 1] == s.others[i] && was[j + 1] == s.others[j]);
    }
    lemma_without_distinct(s.others, number);
    assert forall|k: int| 0 <= k < all.len() implies (#[trigger] all[k]).wf() && all[k].number
        < n.next_number && all[k].number != number by {
        if k > 0 {
            assert(all[k] == n.others[k - 1]);
            let j = choose|j: int| 0 <= j < s.others.len() && s.others[j] == n.others[k - 1];
            assert(was[j + 1] == s.others[j]);
        } else {
            assert(was[0] == s.active);
        }
    }
    assert forall|k: int, j: int| 0 <= k < j < all.len() implies (#[trigger] all[k]).number != (
    #[trigger] all[j]).number by {
        assert(all[j] == n.others[j - 1]);
        if k == 0 {
            let x = choose|x: int| 0 <= x < s.others.len() && s.others[x] == n.others[j - 1];
            assert(was[x + 1] == s.others[x]);
            assert(was[0].number != was[x + 1].number);
        } else {
            assert(all[k] == n.others[k - 1]);
        }
    }
    let z = choose|z: int| 0 <= z < was.len() && (#[trigger] was[z]).number == 0;
    if z == 0 {
        assert(all[0].number == 0);
    } else {
        assert(was[z] == s.others[z - 1]);
        let y = choose|y: int| 0 <= y < n.others.len() && n.others[y] == s.others[z - 1];
        assert(all[y + 1] == n.others[y]);
    }
}

/// The documents stay in order when a copy is made.
pub proof fn lemma_copied(d: DocsView, n: DocsView)
    requires
        d.wf(),
        d.active.meta is Some,
        d.next_number < usize::MAX,
        d.copied(n),
    ensures
        n.wf(),
{
    let (was, all) = (d.all(), n.all());
    assert(was[0] == d.active);
    assert forall|k: int| 0 <= k < all.len() implies (#[trigger] all[k]).wf() && all[k].number
        < n.next_number && (k > 0 ==> all[k].number < d.next_number) by {
        if k > 0 {
            assert(all[k] == n.others[k - 1]);
            if k - 1 < d.others.len() {
                assert(all[k] == was[k]);
            } else {
                assert(all[k] == was[0]);
            }
        }
    }
    assert forall|k: int, j: int| 0 <= k < j < all.len() implies (#[trigger] all[k]).number != (
    #[trigger] all[j]).number by {
        assert(all[j] == n.others[j - 1]);
        if k > 0 {
            assert(all[k] == n.others[k - 1]);
            assert(all[k] == was[k]);
            if j - 1 < d.others.len() {
                assert(all[j] == was[j]);
            } else {
                assert(all[j] == was[0]);
            }
        }
    }
    let z = choose|z: int| 0 <= z < was.len() && (#[trigger] was[z]).number == 0;
    if z == 0 {
        assert(all[all.len() - 1] == was[0]);
    } else {
        assert(all[z] == was[z]);
    }
}

// ---- names ----

/// The name that is shown for the record itself.
pub open spec fn record_name(meta: Option<MetaView>) -> Seq<char> {
    match meta {
        Some(m) => match names::named(m.source) {
            Some(n) => n,
            None => "（无文件名）"@,
        },
        None => "（无文件名）"@,
    }
}

/// The name that is offered for saving the record itself.
pub open spec fn record_file(meta: Option<MetaView>) -> Seq<char> {
    match meta {
        Some(m) => names::offered_name(m.source),
        None => names::usual_name(),
    }
}

/// The name of a copy.
pub open spec fn copy_title(number: usize) -> Seq<char> {
    "研究副本 "@ + text::decimal(number as nat)
}

/// The name that is shown for a document.
pub open spec fn shown_name(d: DocView, active: bool) -> Seq<char> {
    match d.from_move {
        None => record_name(d.meta),
        Some(m) => if active {
            copy_title(d.number)
        } else {
            copy_title(d.number) + "（自第 "@ + text::decimal(m as nat) + " 手起）"@ + if d.tried()
                > 0 {
                "，含 "@ + text::decimal(d.tried()) + " 手研究成果"@
            } else {
                Seq::empty()
            }
        },
    }
}

impl DocsView {
    /// The name that is offered for saving the active document; that of a copy is made from the
    /// name of the record.
    pub open spec fn save_name(self) -> Seq<char> {
        if self.active.from_move is Some {
            names::offered_copy_name(record_file(self.record().meta), self.active.number as nat)
        } else {
            record_file(self.active.meta)
        }
    }
}

/// A line of the list of documents.
#[derive(Debug)]
pub struct DocEntry {
    pub number: usize,
    pub name: String,
    /// How many moves a copy started with; `None` for the record itself.
    pub from_move: Option<usize>,
    /// How many moves were tried in it.
    pub research: usize,
    pub active: bool,
}

/// The model of [`DocEntry`].
#[verifier::ext_equal]
pub struct EntryView {
    pub number: usize,
    pub name: Seq<char>,
    pub from_move: Option<usize>,
    pub research: usize,
    pub active: bool,
}

impl View for DocEntry {
    type V = EntryView;

    open spec fn view(&self) -> EntryView {
        EntryView {
            number: self.number,
            name: self.name@,
            from_move: self.from_move,
            research: self.research,
            active: self.active,
        }
    }
}

/// The line of a document.
pub open spec fn entry_of(d: DocView, active: bool) -> EntryView {
    EntryView {
        number: d.number,
        name: shown_name(d, active),
        from_move: d.from_move,
        research: d.tried() as usize,
        active,
    }
}

/// The line of document number `i` of all.
pub open spec fn line_of(d: DocsView, i: int) -> EntryView {
    entry_of(d.all()[i], i == 0)
}

/// Whether a line stands in a list.
pub open spec fn listed(list: Seq<DocEntry>, e: EntryView) -> bool {
    exists|j: int| 0 <= j < list.len() && (#[trigger] list[j])@ == e
}

/// Whether a list goes up by number.
pub open spec fn by_number(list: Seq<DocEntry>) -> bool {
    forall|i: int, j: int|
        0 <= i < j < list.len() ==> (#[trigger] list[i]).number < (#[trigger] list[j]).number
}

/// Whether a list is the list of the documents: the record first, the copies by number.
pub open spec fn lists(list: Seq<DocEntry>, d: DocsView) -> bool {
    &&& list.len() == d.all().len()
    &&& by_number(list)
    &&& forall|i: int|
        0 <= i < d.all().len() ==> listed(list, #[trigger] line_of(d, i))
}

fn name_of_record(meta: &Option<GameMeta>) -> (r: String)
    ensures
        r@ == record_name(opt_meta(*meta)),
{
    match meta {
        Some(m) => match file_name(m.source()) {
            Some(n) => n,
            None => "（无文件名）".to_owned(),
        },
        None => "（无文件名）".to_owned(),
    }
}

fn file_of_record(meta: &Option<GameMeta>) -> (r: String)
    ensures
        r@ == record_file(opt_meta(*meta)),
{
    match meta {
        Some(m) => default_sgf_name(m.source()),
        None => "guanqi.sgf".to_owned(),
    }
}

fn title(number: usize) -> (r: String)
    ensures
        r@ == copy_title(number),
{
    let mut out = "研究副本 ".to_owned();
    push_decimal(&mut out, number as u64);
    out
}

impl Doc {
    fn name(&self, active: bool) -> (r: String)
        requires
            self.wf(),
        ensures
            r@ == shown_name(self@, active),
    {
        match self.from_move {
            None => name_of_record(&self.meta),
            Some(m) => {
                let mut out = title(self.number);
                if !active {
                    out.append("（自第 ");
                    push_decimal(&mut out, m as u64);
                    out.append(" 手起）");
                    let n = self.tried();
                    if n > 0 {
                        out.append("，含 ");
                        push_decimal(&mut out, n as u64);
                        out.append(" 手研究成果");
                    }
                    assert(out@ =~= shown_name(self@, active));
                }
                out
            },
        }
    }

    fn entry(&self, active: bool) -> (r: DocEntry)
        requires
            self.wf(),
        ensures
            r@ == entry_of(self@, active),
    {
        DocEntry {
            number: self.number,
            name: self.name(active),
            from_move: self.from_move,
            research: self.tried(),
            active,
        }
    }
}

/// Puts a line where its number belongs.
fn insert_entry(list: &mut Vec<DocEntry>, e: DocEntry)
    requires
        by_number(old(list)@),
        forall|i: int| 0 <= i < old(list)@.len() ==> (#[trigger] old(list)@[i]).number != e.number,
    ensures
        by_number(final(list)@),
        final(list)@.len() == old(list)@.len() + 1,
        listed(final(list)@, e@),
        forall|x: EntryView| #[trigger] listed(old(list)@, x) ==> listed(final(list)@, x),
        forall|i: int|
            0 <= i < final(list)@.len() ==> (#[trigger] final(list)@[i]).number == e.number || exists|
                k: int,
            | 0 <= k < old(list)@.len() && (#[trigger] old(list)@[k]).number == final(list)@[i].number,
{
    let ghost was = list@;
    let mut i: usize = 0;
    while i < list.len() && list[i].number < e.number
        invariant
            i <= list@.len(),
            list@ == was,
            by_number(was),
            forall|k: int| 0 <= k < i ==> (#[trigger] was[k]).number < e.number,
        decreases list@.len() - i,
    {
        i += 1;
    }
    list.insert(i, e);
    proof {
        let now = list@;
        assert(now == was.insert(i as int, e));
        assert forall|a: int, b: int| 0 <= a < b < now.len() implies (#[trigger] now[a]).number < (
        #[trigger] now[b]).number by {
            let (x, y) = (before_insert(a, i as int), before_insert(b, i as int));
            if a == i {
                assert(now[b] == was[y]);
                if y > i {
                    assert(was[i as int].number < was[y].number);
                }
            } else if b == i {
                assert(now[a] == was[x]);
            } else {
                assert(now[a] == was[x] && now[b] == was[y]);
            }
        }
        assert(now[i as int]@ == e@);
        assert forall|x: EntryView| #[trigger] listed(was, x) implies listed(now, x) by {
            let j = choose|j: int| 0 <= j < was.len() && (#[trigger] was[j])@ == x;
            let k = if j < i {
                j
            } else {
                j + 1
            };
            assert(now[k] == was[j]);
        }
        assert forall|a: int| 0 <= a < now.len() implies (#[trigger] now[a]).number == e.number
            || exists|k: int|
            0 <= k < was.len() && (#[trigger] was[k]).number == now[a].number by {
            if a != i {
                assert(now[a] == was[before_insert(a, i as int)]);
            }
        }
    }
}

spec fn before_insert(a: int, i: int) -> int {
    if a < i {
        a
    } else {
        a - 1
    }
}

// ---- the code ----

impl Docs {
    /// Documents that make sense.
    pub open spec fn wf(self) -> bool {
        &&& self@.wf()
        &&& self.active.wf()
        &&& forall|i: int| 0 <= i < self.others@.len() ==> (#[trigger] self.others@[i]).wf()
    }

    /// An empty board and nothing else.
    pub fn new() -> (r: Self)
        ensures
            r.wf(),
            r@.active.board == board::fresh_board(
                board::Size::of(19),
                board::Stone::Black,
                Seq::new(board::Size::of(19).points(), |i: int| None),
            ),
            r@.active.meta is None,
            r@.active.from_move is None,
            r@.active.number == 0,
            r@.others.len() == 0,
            r@.next_number == 1,
            !r@.dirty,
            r@.epoch == 0,
    {
        let b = Board::new(board::Size::usual());
        proof {
            board::lemma_board_wf(b);
        }
        let r = Docs {
            active: Doc { board: b, meta: None, from_move: None, number: 0 },
            others: Vec::new(),
            next_number: 1,
            dirty: false,
            epoch: 0,
        };
        proof {
            assert(r@.all()[0] == r.active@);
        }
        r
    }

    fn find(&self, number: usize) -> (r: Option<usize>)
        ensures
            match r {
                Some(i) => place(self@.others, number) == Some(i as int),
                None => place(self@.others, number) is None,
            },
    {
        let mut i: usize = 0;
        let ghost all = self@.others;
        assert(all.take(0).len() == 0);
        while i < self.others.len()
            invariant
                i <= self.others@.len(),
                all == doc_views(self.others@),
                place(all.take(i as int), number) is None,
            decreases self.others@.len() - i,
        {
            proof {
                assert(all.take(i + 1).drop_last() =~= all.take(i as int));
                assert(all.take(i + 1).last() == self.others@[i as int]@);
            }
            if self.others[i].number == number {
                proof {
                    assert(place(all.take(i + 1), number) == Some(i as int));
                    lemma_place_take(all, number, i + 1);
                }
                return Some(i);
            }
            i += 1;
        }
        assert(all.take(i as int) =~= all);
        None
    }

    /// How many moves were tried in copies, all told.
    pub fn research_moves(&self) -> (r: usize)
        requires
            self.wf(),
        ensures
            r == self@.research_moves(),
    {
        let mut n: usize = 0;
        let mut i: usize = 0;
        let ghost all = self@.others;
        assert(all.take(0).len() == 0);
        while i < self.others.len()
            invariant
                i <= self.others@.len(),
                self.wf(),
                all == doc_views(self.others@),
                n == clipped(tried_in(all.take(i as int))),
            decreases self.others@.len() - i,
        {
            proof {
                assert(all.take(i + 1).drop_last() =~= all.take(i as int));
                assert(all.take(i + 1).last() == self.others@[i as int]@);
                assert(self.others@[i as int].wf());
            }
            n = n.saturating_add(self.others[i].tried());
            i += 1;
        }
        assert(all.take(i as int) =~= all);
        n.saturating_add(self.active.tried())
    }

    /// How many copies there are.
    pub fn copy_count(&self) -> (r: usize)
        requires
            self.wf(),
        ensures
            r == self@.copy_count(),
    {
        let mut n: usize = 0;
        let mut i: usize = 0;
        let ghost all = self@.others;
        assert(all.take(0).len() == 0);
        while i < self.others.len()
            invariant
                i <= self.others@.len(),
                all == doc_views(self.others@),
                n == copies_in(all.take(i as int)),
                n <= i,
            decreases self.others@.len() - i,
        {
            proof {
                assert(all.take(i + 1).drop_last() =~= all.take(i as int));
                assert(all.take(i + 1).last() == self.others@[i as int]@);
            }
            if self.others[i].from_move.is_some() {
                n += 1;
            }
            i += 1;
        }
        assert(all.take(i as int) =~= all);
        if self.active.from_move.is_some() {
            proof {
                self.lemma_room(n as int);
            }
            n + 1
        } else {
            n
        }
    }

    /// Where the active document is a copy, the record is among the others.
    proof fn lemma_room(&self, n: int)
        requires
            self.wf(),
            self.active.from_move is Some,
            n == copies_in(self@.others),
        ensures
            n < self.others@.len(),
    {
        let d = self@;
        let z = choose|z: int| 0 <= z < d.all().len() && (#[trigger] d.all()[z]).number == 0;
        assert(d.all()[0] == d.active);
        assert(d.all()[z] == d.others[z - 1]);
        lemma_some_record(d.others, z - 1);
    }

    /// How many moves were tried in the copy with a number; `None` where there is no such copy.
    pub fn doc_research(&self, number: usize) -> (r: Option<usize>)
        requires
            self.wf(),
        ensures
            r is Some == self@.doc_research(number) is Some,
            r matches Some(n) ==> n == self@.doc_research(number)->0,
    {
        if number == self.active.number {
            return self.active.research();
        }
        match self.find(number) {
            Some(i) => {
                proof {
                    lemma_place(self@.others, number);
                }
                self.others[i].research()
            },
            None => None,
        }
    }

    /// The name that is offered for saving the active document.
    pub fn save_name(&self) -> (r: String)
        requires
            self.wf(),
        ensures
            r@ == self@.save_name(),
    {
        if self.active.from_move.is_some() {
            let base = match self.find(0) {
                Some(i) => {
                    proof {
                        lemma_place(self@.others, 0);
                    }
                    file_of_record(&self.others[i].meta)
                },
                None => file_of_record(&self.active.meta),
            };
            proof {
                assert(self@.all()[0] == self@.active);
            }
            copy_name(base.as_str(), self.active.number)
        } else {
            file_of_record(&self.active.meta)
        }
    }

    /// The list of the documents: the record first, the copies by number.
    pub fn doc_entries(&self) -> (r: Vec<DocEntry>)
        requires
            self.wf(),
        ensures
            lists(r@, self@),
    {
        let mut list: Vec<DocEntry> = Vec::new();
        let ghost d = self@;
        proof {
            assert(d.all()[0] == d.active);
        }
        let first = self.active.entry(true);
        list.push(first);
        assert(list@[0]@ == line_of(d, 0));
        let mut i: usize = 0;
        while i < self.others.len()
            invariant
                i <= self.others@.len(),
                self.wf(),
                d == self@,
                by_number(list@),
                list@.len() == i + 1,
                forall|k: int|
                    0 <= k <= i ==> listed(list@, #[trigger] line_of(d, k)),
                forall|k: int|
                    0 <= k < list@.len() ==> exists|x: int|
                        0 <= x <= i && (#[trigger] d.all()[x]).number == (
                        #[trigger] list@[k]).number,
            decreases self.others@.len() - i,
        {
            let e = self.others[i].entry(false);
            let ghost was = list@;
            proof {
                assert(d.all()[i + 1] == self.others@[i as int]@);
                assert forall|k: int| 0 <= k < was.len() implies (#[trigger] was[k]).number
                    != e.number by {
                    let x = choose|x: int|
                        0 <= x <= i && (#[trigger] d.all()[x]).number == was[k].number;
                    assert(d.all()[x].number != d.all()[i + 1].number);
                }
            }
            insert_entry(&mut list, e);
            proof {
                assert forall|k: int| 0 <= k <= i + 1 implies listed(
                    list@,
                    #[trigger] line_of(d, k),
                ) by {
                    if k <= i {
                        assert(listed(was, line_of(d, k)));
                    }
                }
                assert forall|k: int| 0 <= k < list@.len() implies exists|x: int|
                    0 <= x <= i + 1 && (#[trigger] d.all()[x]).number == (
                    #[trigger] list@[k]).number by {
                    if list@[k].number == e.number {
                        assert(d.all()[i + 1].number == list@[k].number);
                    } else {
                        let y = choose|y: int|
                            0 <= y < was.len() && (#[trigger] was[y]).number == list@[k].number;
                        let x = choose|x: int|
                            0 <= x <= i && (#[trigger] d.all()[x]).number == was[y].number;
                        assert(d.all()[x].number == list@[k].number);
                    }
                }
            }
            i += 1;
        }
        list
    }

    /// Replaces the record; the copies are gone.
    pub fn replace(&mut self, board: Board, meta: Option<GameMeta>)
        requires
            old(self).wf(),
            board.wf(),
        ensures
            final(self).wf(),
            final(self)@ == old(self)@.replaced(board@, opt_meta(meta)),
    {
        proof {
            board::lemma_board_wf(board);
        }
        self.active = Doc { board, meta, from_move: None, number: 0 };
        self.others = Vec::new();
        self.dirty = false;
        self.epoch = self.epoch.wrapping_add(1);
        proof {
            assert(self@.others =~= Seq::empty());
            assert(self@.all()[0] == self@.active);
        }
    }

    /// Makes another document the active one; says whether there is one with that number.
    pub fn switch_doc(&mut self, number: usize) -> (r: bool)
        requires
            old(self).wf(),
        ensures
            final(self).wf(),
            final(self)@ == old(self)@.switched(number),
            r == place(old(self)@.others, number) is Some,
    {
        match self.find(number) {
            None => false,
            Some(i) => {
                let ghost d = self@;
                proof {
                    lemma_place(d.others, number);
                    lemma_switched(d, number);
                }
                let ghost was = self.others@;
                let mut doc = self.others.remove(i);
                std::mem::swap(&mut doc, &mut self.active);
                self.others.push(doc);
                self.dirty = false;
                self.epoch = self.epoch.wrapping_add(1);
                proof {
                    assert(self@.others =~= d.others.remove(i as int).push(d.active));
                    assert(self@.active == d.others[i as int]);
                    assert forall|k: int| 0 <= k < self.others@.len() implies (
                    #[trigger] self.others@[k]).wf() by {
                        if k < was.len() - 1 {
                            if k < i {
                                assert(self.others@[k] == was[k]);
                            } else {
                                assert(self.others@[k] == was[k + 1]);
                            }
                        }
                    }
                }
                true
            },
        }
    }

    /// Drops a copy; where it is the active document, the record becomes active.
    pub fn drop_copy(&mut self, number: usize)
        requires
            old(self).wf(),
            number != 0,
        ensures
            final(self).wf(),
            final(self)@ == old(self)@.dropped(number),
    {
        let ghost d = self@;
        proof {
            lemma_dropped(d, number);
        }
        if self.active.number == number {
            self.switch_doc(0);
        }
        let ghost s = self@;
        let ghost all = self@.others;
        let mut left: Vec<Doc> = Vec::new();
        let mut rest: Vec<Doc> = Vec::new();
        std::mem::swap(&mut rest, &mut self.others);
        let ghost mut done: int = 0;
        assert(all.take(0).len() == 0);
        assert(doc_views(left@) =~= Seq::empty());
        assert(all.skip(0) =~= all);
        while rest.len() > 0
            invariant
                0 <= done <= all.len(),
                doc_views(rest@) == all.skip(done),
                doc_views(left@) == without(all.take(done), number),
                forall|k: int| 0 <= k < rest@.len() ==> (#[trigger] rest@[k]).wf(),
                forall|k: int| 0 <= k < left@.len() ==> (#[trigger] left@[k]).wf(),
            decreases rest@.len(),
        {
            let ghost (r0, l0) = (rest@, left@);
            assert(rest@[0].wf());
            assert(doc_views(r0).len() == r0.len());
            assert(all.skip(done)[0] == all[done]);
            assert(doc_views(r0)[0] == r0[0]@);
            let doc = rest.remove(0);
            proof {
                assert(doc_views(rest@) =~= doc_views(r0).skip(1));
                assert(all.skip(done).skip(1) =~= all.skip(done + 1));
                assert(all.take(done + 1).drop_last() =~= all.take(done));
                assert(all.take(done + 1).last() == doc@);
                assert forall|k: int| 0 <= k < rest@.len() implies (#[trigger] rest@[k]).wf() by {
                    assert(rest@[k] == r0[k + 1]);
                }
            }
            if doc.number != number {
                left.push(doc);
                assert(doc_views(left@) =~= doc_views(l0).push(doc@));
            }
            proof {
                done = done + 1;
            }
        }
        assert(doc_views(rest@).len() == 0);
        assert(all.take(done) =~= all);
        self.others = left;
        assert(self@ =~= d.dropped(number));
    }

    /// Makes a copy of the moves up to the cursor, which becomes active. Gives its number.
    pub fn create_copy(&mut self) -> (r: usize)
        requires
            old(self).wf(),
            old(self).active.meta is Some,
            old(self).next_number < usize::MAX,
        ensures
            final(self).wf(),
            old(self)@.copied(final(self)@),
            r == old(self).next_number,
    {
        let ghost d = self@;
        let number = self.next_number;
        let n = self.active.board.cursor();
        proof {
            board::lemma_board_wf(self.active.board);
        }
        let copy = self.active.board.linear_prefix(n);
        let meta = match &self.active.meta {
            Some(m) => Some(m.clone()),
            None => None,
        };
        proof {
            board::lemma_board_wf(copy);
        }
        let mut doc = Doc { board: copy, meta, from_move: Some(n), number };
        let ghost made = doc@;
        std::mem::swap(&mut doc, &mut self.active);
        let ghost was = self.others@;
        self.others.push(doc);
        self.next_number = number + 1;
        self.dirty = false;
        self.epoch = self.epoch.wrapping_add(1);
        proof {
            assert(self@.others =~= d.others.push(d.active));
            assert(d.copied(self@));
            lemma_copied(d, self@);
            assert forall|k: int| 0 <= k < self.others@.len() implies (
            #[trigger] self.others@[k]).wf() by {
                if k < was.len() {
                    assert(self.others@[k] == was[k]);
                }
            }
        }
        number
    }
}

proof fn lemma_place_take(s: Seq<DocView>, number: usize, n: int)
    requires
        0 <= n <= s.len(),
        place(s.take(n), number) is Some,
    ensures
        place(s, number) == place(s.take(n), number),
    decreases s.len(),
{
    if n < s.len() {
        assert(s.drop_last().take(n) =~= s.take(n));
        lemma_place_take(s.drop_last(), number, n);
    } else {
        assert(s.take(n) =~= s);
    }
}

proof fn lemma_some_record(s: Seq<DocView>, i: int)
    requires
        0 <= i < s.len(),
        s[i].from_move is None,
    ensures
        copies_in(s) < s.len(),
    decreases s.len(),
{
    lemma_copies_bound(s.drop_last());
    if i < s.len() - 1 {
        assert(s.drop_last()[i] == s[i]);
        lemma_some_record(s.drop_last(), i);
    }
}

proof fn lemma_copies_bound(s: Seq<DocView>)
    ensures
        copies_in(s) <= s.len(),
    decreases s.len(),
{
    if s.len() > 0 {
        lemma_copies_bound(s.drop_last());
    }
}

/// Documents that differ in nothing but whether they were saved are both in order.
pub proof fn lemma_same_docs(d: DocsView, n: DocsView)
    requires
        d.wf(),
        n.active == d.active,
        n.others == d.others,
        n.next_number == d.next_number,
    ensures
        n.wf(),
{
    assert(d.all()[0] == d.active);
    lemma_active_changed(d, n);
}

/// The board with the cursor after `n` moves of the current line, where the line is that long.
pub open spec fn turned(b: BoardView, n: usize) -> BoardView {
    match board::model::line_at(b.nodes, n as nat) {
        Some(id) => b.moved(id),
        None => b,
    }
}

proof fn lemma_active_changed(d: DocsView, n: DocsView)
    requires
        d.wf(),
        n.others == d.others,
        n.next_number == d.next_number,
        n.active.wf(),
        n.active.number == d.active.number,
    ensures
        n.wf(),
{
    let (was, all) = (d.all(), n.all());
    assert(was[0] == d.active && all[0] == n.active);
    assert forall|k: int| 0 <= k < all.len() implies (#[trigger] all[k]).wf() && all[k].number
        < n.next_number by {
        assert(all[k].number == was[k].number);
        if k > 0 {
            assert(all[k] == was[k]);
        }
    }
    assert forall|k: int, j: int| 0 <= k < j < all.len() implies (#[trigger] all[k]).number != (
    #[trigger] all[j]).number by {
        assert(was[k].number == all[k].number && was[j].number == all[j].number);
    }
    let z = choose|z: int| 0 <= z < was.len() && (#[trigger] was[z]).number == 0;
    assert(all[z].number == 0);
}

impl Docs {
    /// Plays on a point of the active board.
    pub fn play(&mut self, at: Coord) -> (r: Result<(), IllegalReason>)
        requires
            old(self).wf(),
        ensures
            final(self).wf(),
            match old(self)@.active.board.played(at) {
                Ok(v) => r is Ok && final(self)@ == old(self)@.edited(v),
                Err(e) => r == Err::<(), IllegalReason>(e) && final(self)@ == old(self)@,
            },
    {
        let ghost d = self@;
        let before = self.active.board.move_count();
        let r = self.active.board.play(at);
        let after = self.active.board.move_count();
        if after != before {
            self.dirty = true;
        }
        proof {
            board::lemma_board_wf(self.active.board);
            lemma_active_changed(d, self@);
        }
        r
    }

    /// Passes on the active board.
    pub fn pass(&mut self)
        requires
            old(self).wf(),
        ensures
            final(self).wf(),
            final(self)@ == old(self)@.edited(old(self)@.active.board.passed()),
    {
        let ghost d = self@;
        let before = self.active.board.move_count();
        self.active.board.pass();
        let after = self.active.board.move_count();
        if after != before {
            self.dirty = true;
        }
        proof {
            board::lemma_board_wf(self.active.board);
            lemma_active_changed(d, self@);
        }
    }

    /// Takes back to the human's last decision on the active board.
    pub fn undo_to_human(&mut self, human: Stone) -> (r: bool)
        requires
            old(self).wf(),
        ensures
            final(self).wf(),
            final(self)@ == old(self)@.edited(
                play::back_to_human(old(self)@.active.board, human).0,
            ),
            r == play::back_to_human(old(self)@.active.board, human).1,
    {
        let ghost d = self@;
        let before = self.active.board.move_count();
        let r = play::undo_to_human(&mut self.active.board, human);
        let after = self.active.board.move_count();
        if after != before {
            self.dirty = true;
        }
        proof {
            board::lemma_board_wf(self.active.board);
            lemma_active_changed(d, self@);
        }
        r
    }

    /// Enters child `i` of the position at the cursor of the active board.
    pub fn select_child(&mut self, i: usize) -> (r: bool)
        requires
            old(self).wf(),
        ensures
            final(self).wf(),
            r == (i < old(self)@.active.board.here().children.len()),
            final(self)@ == (DocsView {
                active: DocView {
                    board: if r {
                        old(self)@.active.board.branched(i)
                    } else {
                        old(self)@.active.board
                    },
                    ..old(self)@.active
                },
                ..old(self)@
            }),
    {
        let ghost d = self@;
        let r = self.active.board.select_child(i);
        proof {
            board::lemma_board_wf(self.active.board);
            lemma_active_changed(d, self@);
        }
        r
    }

    /// Goes to move `n` of the current line of the active board, where the line is that long.
    pub fn go_to(&mut self, n: usize)
        requires
            old(self).wf(),
        ensures
            final(self).wf(),
            final(self)@ == (DocsView {
                active: DocView {
                    board: turned(old(self)@.active.board, n),
                    ..old(self)@.active
                },
                ..old(self)@
            }),
    {
        let ghost d = self@;
        self.active.board.go_to(n);
        proof {
            board::lemma_board_wf(self.active.board);
            lemma_active_changed(d, self@);
        }
    }

    /// Goes to a node of the active board, where there is one.
    pub fn go_to_node(&mut self, id: usize)
        requires
            old(self).wf(),
        ensures
            final(self).wf(),
            final(self)@ == (DocsView {
                active: DocView {
                    board: if id < old(self)@.active.board.nodes.len() {
                        old(self)@.active.board.jumped(id)
                    } else {
                        old(self)@.active.board
                    },
                    ..old(self)@.active
                },
                ..old(self)@
            }),
    {
        let ghost d = self@;
        self.active.board.go_to_node(id);
        proof {
            board::lemma_board_wf(self.active.board);
            lemma_active_changed(d, self@);
        }
    }

    /// Replaces what is kept beside the active board.
    pub fn set_meta(&mut self, meta: GameMeta)
        requires
            old(self).wf(),
        ensures
            final(self).wf(),
            final(self)@ == old(self)@.with_meta(Some(meta@)),
    {
        let ghost d = self@;
        self.active.meta = Some(meta);
        proof {
            lemma_active_changed(d, self@);
        }
    }
}

/// The record is found where the active document is a copy.
pub proof fn lemma_record_found(d: DocsView)
    requires
        d.wf(),
        d.active.number != 0,
    ensures
        place(d.others, 0) is Some,
{
    lemma_place(d.others, 0);
    let z = choose|z: int| 0 <= z < d.all().len() && (#[trigger] d.all()[z]).number == 0;
    assert(d.all()[0] == d.active);
    assert(d.all()[z] == d.others[z - 1]);
}

/// Dropping a copy after the record has become active is dropping it at once.
pub proof fn lemma_drop_twice(d: DocsView, s: DocsView, number: usize)
    requires
        d.wf(),
        number != 0,
        s == if d.active.number == number {
            d.switched(0)
        } else {
            d
        },
    ensures
        s.dropped(number) == d.dropped(number),
{
    if d.active.number == number {
        lemma_record_found(d);
        lemma_place(d.others, 0);
        assert(s.active.number == 0);
    }
}

impl Docs {
    /// Whether another document has a number.
    pub fn has(&self, number: usize) -> (r: bool)
        ensures
            r == place(self@.others, number) is Some,
    {
        self.find(number).is_some()
    }
}

} // verus!
