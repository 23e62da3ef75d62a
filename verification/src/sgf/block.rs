//! A block of a comment that the program writes and replaces, between two marks; the rest of the
//! comment is the user's.

use vstd::prelude::*;
use super::info::{self, copy_text};
use crate::text::{self, chars_of, slice_chars, string_of};

verus! {

/// The marks around what the engine says of how a game ended.
pub const RESULT_OPEN: &'static str = "【观棋终局】";

pub const RESULT_CLOSE: &'static str = "【/观棋终局】";

/// The marks around the numbers of a game.
pub const STATS_OPEN: &'static str = "【观棋统计】";

pub const STATS_CLOSE: &'static str = "【/观棋统计】";

/// Where a block ends whose content begins at `k`: at the first closing mark, unless another
/// opening mark comes before it.
pub open spec fn closing(s: Seq<char>, open: Seq<char>, close: Seq<char>, k: int) -> Option<int>
    decreases s.len() + 1 - k,
{
    if k < 0 || k > s.len() {
        None
    } else if text::stands_at(s, close, k) {
        Some(k)
    } else if text::stands_at(s, open, k) {
        None
    } else {
        closing(s, open, close, k + 1)
    }
}

/// Where the content of a block that begins at `i` ends, if one begins there.
pub open spec fn block_end(s: Seq<char>, open: Seq<char>, close: Seq<char>, i: int) -> Option<int> {
    if text::stands_at(s, open, i) {
        closing(s, open, close, i + open.len())
    } else {
        None
    }
}

/// The first block from `i` on: where it begins, and where its closing mark does.
pub open spec fn block_from(s: Seq<char>, open: Seq<char>, close: Seq<char>, i: int) -> Option<
    (int, int),
>
    decreases s.len() + 1 - i,
{
    if i < 0 || i > s.len() {
        None
    } else {
        match block_end(s, open, close, i) {
            Some(e) => Some((i, e)),
            None => block_from(s, open, close, i + 1),
        }
    }
}

/// A comment with its block, or a new one on a line of its own at the end, holding a text.
pub open spec fn merged(s: Seq<char>, open: Seq<char>, close: Seq<char>, block: Seq<char>) -> Seq<
    char,
> {
    match block_from(s, open, close, 0) {
        Some((i, e)) => s.take(i) + open + block + close + s.skip(e + close.len()),
        None => if s.len() == 0 {
            open + block + close
        } else {
            s + seq!['\n'] + open + block + close
        },
    }
}

fn stands(s: &Vec<char>, p: &Vec<char>, i: usize) -> (r: bool)
    requires
        i <= s@.len(),
    ensures
        r == text::stands_at(s@, p@, i as int),
{
    if s.len() - i < p.len() {
        return false;
    }
    let piece = slice_chars(s, i, i + p.len());
    assert(piece@ =~= s@.subrange(i as int, i + p@.len()));
    text::same_chars(&piece, p)
}

fn find_close(s: &Vec<char>, open: &Vec<char>, close: &Vec<char>, from: usize) -> (r: Option<usize>)
    requires
        from <= s@.len(),
    ensures
        match closing(s@, open@, close@, from as int) {
            Some(e) => r matches Some(x) && x == e && e + close@.len() <= s@.len(),
            None => r is None,
        },
{
    let mut k = from;
    let mut more = true;
    while more
        invariant
            from <= k <= s@.len(),
            closing(s@, open@, close@, from as int) == closing(
                s@,
                open@,
                close@,
                if more {
                    k as int
                } else {
                    k + 1
                },
            ),
            !more ==> k == s@.len(),
        decreases s@.len() - k, if more { 1int } else { 0int },
    {
        if stands(s, close, k) {
            return Some(k);
        }
        if stands(s, open, k) {
            return None;
        }
        if k == s.len() {
            more = false;
        } else {
            k += 1;
        }
    }
    None
}

fn find_block(s: &Vec<char>, open: &Vec<char>, close: &Vec<char>) -> (r: Option<(usize, usize)>)
    ensures
        match block_from(s@, open@, close@, 0) {
            Some((i, e)) => (r matches Some((a, b)) && a == i && b == e) && i + open@.len() <= e && e
                + close@.len() <= s@.len(),
            None => r is None,
        },
{
    let mut i: usize = 0;
    let mut more = true;
    while more
        invariant
            i <= s@.len(),
            block_from(s@, open@, close@, 0) == block_from(
                s@,
                open@,
                close@,
                if more {
                    i as int
                } else {
                    i + 1
                },
            ),
            !more ==> i == s@.len(),
        decreases s@.len() - i, if more { 1int } else { 0int },
    {
        if stands(s, open, i) {
            proof {
                lemma_closing_after(s@, open@, close@, i + open@.len());
            }
            let len = s.len();
            assert(i + open@.len() <= len);
            if let Some(e) = find_close(s, open, close, i + open.len()) {
                return Some((i, e));
            }
        }
        if i == s.len() {
            more = false;
        } else {
            i += 1;
        }
    }
    None
}

proof fn lemma_closing_after(s: Seq<char>, open: Seq<char>, close: Seq<char>, k: int)
    ensures
        closing(s, open, close, k) matches Some(e) ==> k <= e,
    decreases s.len() + 1 - k,
{
    if 0 <= k <= s.len() && !text::stands_at(s, close, k) && !text::stands_at(s, open, k) {
        lemma_closing_after(s, open, close, k + 1);
    }
}

/// A comment with its block, or a new one at the end, holding a text.
pub fn merge_delimited_block(comment: &str, open: &str, close: &str, block: &str) -> (r: String)
    ensures
        r@ == merged(comment@, open@, close@, block@),
{
    let s = chars_of(comment);
    let a = chars_of(open);
    let b = chars_of(close);
    match find_block(&s, &a, &b) {
        Some((i, e)) => {
            let head = slice_chars(&s, 0, i);
            let len = s.len();
            assert(e + b@.len() <= len);
            let tail = slice_chars(&s, e + b.len(), len);
            assert(head@ =~= s@.take(i as int));
            assert(tail@ =~= s@.skip(e + b@.len()));
            let mut out = string_of(&head);
            out.append(open);
            out.append(block);
            out.append(close);
            out.append(string_of(&tail).as_str());
            out
        },
        None => {
            let mut out = comment.to_owned();
            if s.len() > 0 {
                out.push('\n');
                assert(out@ =~= s@ + seq!['\n']);
            }
            out.append(open);
            out.append(block);
            out.append(close);
            assert(out@ =~= merged(comment@, open@, close@, block@));
            out
        },
    }
}

// ---- what holds of blocks ----

/// Marks that cannot be taken for each other or for part of the text around them.
pub open spec fn marks(open: Seq<char>, close: Seq<char>) -> bool {
    &&& 2 <= open.len() <= close.len() <= open.len() + 1
    &&& open[1] != close[1]
    &&& forall|d: int| 0 < d < open.len() ==> #[trigger] open[d] != open[0]
    &&& !open.contains('\n')
    &&& !close.contains('\n')
}

/// A text in which neither mark begins.
pub open spec fn unmarked(open: Seq<char>, close: Seq<char>, block: Seq<char>) -> bool {
    forall|p: int|
        0 <= p < block.len() ==> !(#[trigger] text::stands_at(block + close, close, p))
            && !text::stands_at(block + close, open, p)
}

/// What stands in a text stands in another that is the same there.
proof fn lemma_stands(s: Seq<char>, t: Seq<char>, p: Seq<char>, i: int, j: int)
    requires
        0 <= i,
        0 <= j,
        i + p.len() <= s.len(),
        j + p.len() <= t.len(),
        s.subrange(i, i + p.len()) =~= t.subrange(j, j + p.len()),
    ensures
        text::stands_at(s, p, i) == text::stands_at(t, p, j),
{
}

proof fn lemma_not_both(s: Seq<char>, open: Seq<char>, close: Seq<char>, i: int)
    requires
        marks(open, close),
        text::stands_at(s, open, i),
    ensures
        !text::stands_at(s, close, i),
{
    if text::stands_at(s, close, i) {
        assert(s.subrange(i, i + open.len())[1] == s[i + 1]);
        assert(s.subrange(i, i + close.len())[1] == s[i + 1]);
    }
}

/// Two opening marks do not overlap.
proof fn lemma_apart(s: Seq<char>, open: Seq<char>, close: Seq<char>, k: int, i: int)
    requires
        marks(open, close),
        text::stands_at(s, open, k),
        text::stands_at(s, open, i),
        k < i,
    ensures
        k + open.len() <= i,
{
    if i < k + open.len() {
        let d = i - k;
        assert(s.subrange(k, k + open.len())[d] == s[i]);
        assert(s.subrange(i, i + open.len())[0] == s[i]);
        assert(open[d] != open[0]);
    }
}

/// The content of a new block ends where it was put.
proof fn lemma_new_end(
    n: Seq<char>,
    open: Seq<char>,
    close: Seq<char>,
    block: Seq<char>,
    at: int,
    k: int,
)
    requires
        marks(open, close),
        unmarked(open, close, block),
        0 <= at <= k <= at + block.len(),
        at + block.len() + close.len() <= n.len(),
        n.subrange(at, at + block.len() + close.len()) == block + close,
    ensures
        closing(n, open, close, k) == Some(at + block.len()),
    decreases at + block.len() - k,
{
    let w = block + close;
    let p = k - at;
    assert forall|q: int| 0 <= q < w.len() implies n[at + q] == w[q] by {
        assert(n.subrange(at, at + w.len())[q] == n[at + q]);
    }
    if p == block.len() {
        assert forall|q: int| 0 <= q < close.len() implies n[k + q] == close[q] by {
            assert(n[at + (block.len() + q)] == w[block.len() + q]);
        }
        assert(n.subrange(k, k + close.len()) =~= close);
        assert(text::stands_at(n, close, k));
    } else {
        assert(!text::stands_at(w, close, p) && !text::stands_at(w, open, p));
        lemma_stands(n, w, close, k, p);
        lemma_stands(n, w, open, k, p);
        lemma_new_end(n, open, close, block, at, k + 1);
    }
}

/// Where no block ends from `k` on in the old text, none does in the new, which is the same up to
/// an opening mark at `i`.
proof fn lemma_no_end_before(
    s: Seq<char>,
    n: Seq<char>,
    open: Seq<char>,
    close: Seq<char>,
    k: int,
    i: int,
)
    requires
        marks(open, close),
        0 <= k <= i,
        i + open.len() <= s.len(),
        i + open.len() <= n.len(),
        s.take(i + open.len()) == n.take(i + open.len()),
        text::stands_at(s, open, i),
        closing(s, open, close, k) is None,
    ensures
        closing(n, open, close, k) is None,
    decreases i - k,
{
    let m = i + open.len();
    assert forall|q: int| 0 <= q < m implies s[q] == n[q] by {
        assert(s.take(m)[q] == n.take(m)[q]);
    }
    lemma_stands(s, n, open, k, k);
    if k == i {
        assert(text::stands_at(n, open, i));
        lemma_not_both(n, open, close, i);
    } else {
        assert(k + close.len() <= m);
        lemma_stands(s, n, close, k, k);
        if !text::stands_at(s, open, k) {
            lemma_no_end_before(s, n, open, close, k + 1, i);
        }
    }
}

/// The first block of the new text is the one that was put in place of the old text's first.
proof fn lemma_first_stays(
    s: Seq<char>,
    n: Seq<char>,
    open: Seq<char>,
    close: Seq<char>,
    block: Seq<char>,
    i: int,
    e: int,
    k: int,
)
    requires
        marks(open, close),
        unmarked(open, close, block),
        0 <= k <= i,
        block_from(s, open, close, k) == Some((i, e)),
        i + open.len() + block.len() + close.len() <= n.len(),
        s.take(i + open.len()) == n.take(i + open.len()),
        n.subrange(i + open.len(), i + open.len() + block.len() + close.len()) == block + close,
    ensures
        block_from(n, open, close, k) == Some((i, i + open.len() + block.len())),
    decreases i - k,
{
    let m = i + open.len();
    lemma_found(s, open, close, k);
    assert forall|q: int| 0 <= q < m implies s[q] == n[q] by {
        assert(s.take(m)[q] == n.take(m)[q]);
    }
    lemma_stands(s, n, open, k, k);
    if k == i {
        lemma_new_end(n, open, close, block, m, m);
    } else {
        if text::stands_at(s, open, k) {
            lemma_apart(s, open, close, k, i);
            lemma_no_end_before(s, n, open, close, k + open.len(), i);
        }
        lemma_first_stays(s, n, open, close, block, i, e, k + 1);
    }
}

/// A first block begins with its mark, at or after the place from which it is looked for.
proof fn lemma_found(s: Seq<char>, open: Seq<char>, close: Seq<char>, k: int)
    ensures
        block_from(s, open, close, k) matches Some((i, e)) ==> k <= i && i + open.len() <= e && e
            + close.len() <= s.len() && text::stands_at(s, open, i),
    decreases s.len() + 1 - k,
{
    if 0 <= k <= s.len() {
        if block_end(s, open, close, k) is None {
            lemma_found(s, open, close, k + 1);
        } else {
            lemma_closing_after(s, open, close, k + open.len());
            lemma_closes(s, open, close, k + open.len());
        }
    }
}

proof fn lemma_closes(s: Seq<char>, open: Seq<char>, close: Seq<char>, k: int)
    ensures
        closing(s, open, close, k) matches Some(e) ==> text::stands_at(s, close, e),
    decreases s.len() + 1 - k,
{
    if 0 <= k <= s.len() && !text::stands_at(s, close, k) && !text::stands_at(s, open, k) {
        lemma_closes(s, open, close, k + 1);
    }
}

/// Where no block ends from `k` on in a text, none does with a new line and a mark behind it.
proof fn lemma_no_end_appended(
    s: Seq<char>,
    n: Seq<char>,
    open: Seq<char>,
    close: Seq<char>,
    k: int,
)
    requires
        marks(open, close),
        0 <= k <= s.len() + 1,
        s.len() + 1 + open.len() <= n.len(),
        n.take(s.len() as int) == s,
        n[s.len() as int] == '\n',
        text::stands_at(n, open, s.len() + 1int),
        closing(s, open, close, k) is None,
    ensures
        closing(n, open, close, k) is None,
    decreases s.len() + 1 - k,
{
    if k == s.len() + 1 {
        lemma_not_both(n, open, close, k);
    } else {
        lemma_line_end(s, n, open, k);
        lemma_line_end(s, n, close, k);
        if !text::stands_at(s, open, k) {
            lemma_no_end_appended(s, n, open, close, k + 1);
        }
    }
}

/// A mark stands in a text with a new line behind it where it stands in the text.
proof fn lemma_line_end(s: Seq<char>, n: Seq<char>, p: Seq<char>, k: int)
    requires
        0 <= k <= s.len(),
        s.len() < n.len(),
        n.take(s.len() as int) == s,
        n[s.len() as int] == '\n',
        p.len() > 0,
        !p.contains('\n'),
    ensures
        text::stands_at(n, p, k) == text::stands_at(s, p, k),
{
    assert forall|q: int| 0 <= q < s.len() implies s[q] == n[q] by {
        assert(n.take(s.len() as int)[q] == n[q]);
    }
    if k + p.len() <= s.len() {
        lemma_stands(s, n, p, k, k);
    } else if text::stands_at(n, p, k) {
        let d = s.len() - k;
        assert(n.subrange(k, k + p.len())[d] == n[s.len() as int]);
        assert(p[d] == '\n');
    }
}

/// A block that was put behind a text is the first one there.
proof fn lemma_first_appended(
    s: Seq<char>,
    n: Seq<char>,
    open: Seq<char>,
    close: Seq<char>,
    block: Seq<char>,
    k: int,
)
    requires
        marks(open, close),
        unmarked(open, close, block),
        0 <= k <= s.len() + 1,
        block_from(s, open, close, k) is None,
        n == s + seq!['\n'] + open + block + close,
    ensures
        block_from(n, open, close, k) == Some(
            (s.len() + 1int, s.len() + 1int + open.len() + block.len()),
        ),
    decreases s.len() + 1 - k,
{
    let at = s.len() + 1int;
    assert(n.subrange(at, at + open.len()) =~= open);
    assert(text::stands_at(n, open, at));
    assert(n.take(s.len() as int) =~= s);
    let m = at + open.len();
    assert(n.subrange(m, m + block.len() + close.len()) =~= block + close);
    if k == at {
        lemma_new_end(n, open, close, block, m, m);
    } else {
        lemma_line_end(s, n, open, k);
        if text::stands_at(s, open, k) {
            lemma_no_end_appended(s, n, open, close, k + open.len());
        }
        lemma_first_appended(s, n, open, close, block, k + 1);
    }
}

/// Only the newest block stays: to put in a block and then another is to put in the other.
pub proof fn law_block_replaced(
    s: Seq<char>,
    open: Seq<char>,
    close: Seq<char>,
    first: Seq<char>,
    second: Seq<char>,
)
    requires
        marks(open, close),
        unmarked(open, close, first),
    ensures
        merged(merged(s, open, close, first), open, close, second) == merged(
            s,
            open,
            close,
            second,
        ),
{
    let n = merged(s, open, close, first);
    match block_from(s, open, close, 0) {
        Some((i, e)) => {
            lemma_found(s, open, close, 0);
            let m = i + open.len();
            assert(s.subrange(i, m) == open);
            assert(s.take(m) =~= n.take(m)) by {
                assert forall|q: int| 0 <= q < m implies s[q] == n[q] by {
                    if q >= i {
                        assert(s.subrange(i, m)[q - i] == s[q]);
                    }
                }
            }
            assert(n.subrange(m, m + first.len() + close.len()) =~= first + close);
            lemma_first_stays(s, n, open, close, first, i, e, 0);
            assert(n.take(i) =~= s.take(i));
            assert(n.skip(m + first.len() + close.len()) =~= s.skip(e + close.len()));
        },
        None => {
            if s.len() == 0 {
                assert(n.subrange(0, open.len() as int) =~= open);
                assert(text::stands_at(n, open, 0));
                let m = open.len() as int;
                assert(n.subrange(m, m + first.len() + close.len()) =~= first + close);
                lemma_new_end(n, open, close, first, m, m);
                assert(block_from(n, open, close, 0) == Some((0int, m + first.len())));
                assert(merged(n, open, close, second) =~= open + second + close);
            } else {
                lemma_first_appended(s, n, open, close, first, 0);
                let at = s.len() + 1int;
                assert(n.take(at) =~= s + seq!['\n']);
                let end = at + open.len() + first.len();
                assert(n.skip(end + close.len()) =~= Seq::empty());
                assert(merged(n, open, close, second) =~= s + seq!['\n'] + open + second + close);
            }
        },
    }
}

/// The marks that are used can be told apart from each other and from the text around them.
pub proof fn law_marks_apart()
    ensures
        marks(RESULT_OPEN@, RESULT_CLOSE@),
        marks(STATS_OPEN@, STATS_CLOSE@),
{
    reveal_strlit("【观棋终局】");
    reveal_strlit("【/观棋终局】");
    reveal_strlit("【观棋统计】");
    reveal_strlit("【/观棋统计】");
}

// ---- the comment of a record ----

/// A root comment with a block, where there is one to put in.
pub open spec fn noted(
    comment: Option<Seq<char>>,
    open: Seq<char>,
    close: Seq<char>,
    block: Option<Seq<char>>,
) -> Option<Seq<char>> {
    match (comment, block) {
        (c, None) => c,
        (Some(c), Some(b)) => Some(merged(c, open, close, b)),
        (None, Some(b)) => Some(merged(Seq::empty(), open, close, b)),
    }
}

/// A root comment with a block, where there is one to put in.
pub fn note_block(
    comment: &Option<String>,
    open: &str,
    close: &str,
    block: Option<&str>,
) -> (r: Option<String>)
    ensures
        info::opt_text(r) == noted(
            info::opt_text(*comment),
            open@,
            close@,
            match block {
                Some(b) => Some(b@),
                None => None,
            },
        ),
{
    match block {
        None => copy_text(comment),
        Some(b) => match comment {
            Some(c) => Some(merge_delimited_block(c.as_str(), open, close, b)),
            None => {
                let out = merge_delimited_block("", open, close, b);
                proof {
                    reveal_strlit("");
                    assert(""@ =~= Seq::empty());
                }
                Some(out)
            },
        },
    }
}

/// Only the first block of its kind is replaced: what stands before and behind it stays, and a
/// comment without one gets it on a line of its own at the end.
pub proof fn law_rest_of_the_comment_stays(
    s: Seq<char>,
    open: Seq<char>,
    close: Seq<char>,
    block: Seq<char>,
)
    ensures
        block_from(s, open, close, 0) is None && s.len() > 0 ==> merged(s, open, close, block) == s
            + seq!['\n'] + open + block + close,
        merged(Seq::empty(), open, close, block) == open + block + close || block_from(
            Seq::empty(),
            open,
            close,
            0,
        ) is Some,
        block_from(s, open, close, 0) matches Some((i, e)) ==> {
            let n = merged(s, open, close, block);
            &&& 0 <= i && i + open.len() <= e && e + close.len() <= s.len()
            &&& s == s.take(i) + open + s.subrange(i + open.len(), e) + close + s.skip(
                e + close.len(),
            )
            &&& n == s.take(i) + open + block + close + s.skip(e + close.len())
            &&& forall|j: int| 0 <= j < i ==> #[trigger] block_end(s, open, close, j) is None
        },
{
    lemma_first_block(s, open, close, 0);
    if let Some((i, e)) = block_from(s, open, close, 0) {
        let (a, z) = (open.len() as int, close.len() as int);
        assert(s.subrange(i, i + a) == open);
        assert(s.subrange(e, e + z) == close);
        assert(s =~= s.take(i) + s.subrange(i, i + a) + s.subrange(i + a, e) + s.subrange(
            e,
            e + z,
        ) + s.skip(e + z));
    }
}

proof fn lemma_first_block(s: Seq<char>, open: Seq<char>, close: Seq<char>, k: int)
    requires
        0 <= k,
    ensures
        block_from(s, open, close, k) matches Some((i, e)) ==> {
            &&& k <= i && i + open.len() <= e
            &&& text::stands_at(s, open, i)
            &&& text::stands_at(s, close, e)
            &&& forall|j: int| k <= j < i ==> #[trigger] block_end(s, open, close, j) is None
        },
    decreases s.len() + 1 - k,
{
    if k <= s.len() {
        match block_end(s, open, close, k) {
            Some(e) => {
                lemma_closing_there(s, open, close, k + open.len());
            },
            None => {
                lemma_first_block(s, open, close, k + 1);
            },
        }
    }
}

proof fn lemma_closing_there(s: Seq<char>, open: Seq<char>, close: Seq<char>, k: int)
    requires
        0 <= k,
    ensures
        closing(s, open, close, k) matches Some(e) ==> k <= e && text::stands_at(s, close, e),
    decreases s.len() + 1 - k,
{
    if k <= s.len() && !text::stands_at(s, close, k) && !text::stands_at(s, open, k) {
        lemma_closing_there(s, open, close, k + 1);
    }
}

} // verus!
