//! The engine's configuration file: what a new one says, and what changes in one that is there.
//!
//! Only two things change in a file that is there: the number of search threads, which follows the
//! settings, and an outdated comment. Everything else belongs to the user.

use vstd::prelude::*;
use crate::text::{self, chars_of, push_decimal, same_chars, slice_chars, string_of};

verus! {

/// The outdated comment, its two lines.
pub const LEGACY_FIRST: &'static str = "# 8 cores / 16 threads host: one search thread per physical core is the";

pub const LEGACY_SECOND: &'static str = "# efficiency sweet spot for KataGo MCTS.";

/// The comment in its place, its three lines.
pub const COMMENT_FIRST: &'static str = "# 搜索线程：OpenCL 只做网络前向、搜索全在 CPU 线程上，线程越多越能";

pub const COMMENT_SECOND: &'static str = "# 喂满 GPU 批。实测（b18 + 680M iGPU）：16 线程比 8 快 17–21%";

pub const COMMENT_THIRD: &'static str = "# （2000 visits：23.8s vs 28.6s），界面未被饿死；若发滞可降到物理核数。";

/// The parts of a new file between its numbers.
pub const NEW_HEAD: &'static str = "# 观棋 (Guanqi) 生成的 KataGo analysis 引擎配置。
# 可自由修改；本文件在缺失时生成，设置保存时会按程序内配置
# 同步 numSearchThreads 一项，其余内容不会被覆盖。

# ---- 搜索预算（查询级 maxVisits 可覆盖此处的 maxVisits）----
# 搜索线程：OpenCL 只做网络前向、搜索全在 CPU 线程上，线程越多
# 越能喂满 GPU 批。实测（b18 + 680M iGPU）：16 线程比 8 快 17–21%
# （2000 visits：23.8s vs 28.6s），界面未被饿死；若发滞可降到物理核数。
maxVisits = ";

pub const NEW_THREADS: &'static str = "
numSearchThreads = ";

pub const NEW_BATCH: &'static str = "

# ---- 必填键（无默认值，缺失会直接导致引擎退出）----
numAnalysisThreads = 1
nnMaxBatchSize = ";

pub const NEW_LOGS: &'static str = "

# ---- 输出口径 ----
reportAnalysisWinratesAs = BLACK
analysisPVLen = 15
logDir = ";

pub const NEW_TAIL: &'static str = "
logToStderr = false
logToStdout = false
";

/// A number that is at least 1.
pub open spec fn at_least_one(n: u32) -> u32 {
    if n == 0 {
        1
    } else {
        n
    }
}

/// The batch size for a number of threads: as many, from 16 to 64.
pub open spec fn batch_for(threads: u32) -> nat {
    if threads < 16 {
        16
    } else if threads > 64 {
        64
    } else {
        threads as nat
    }
}

/// What a new file says.
pub open spec fn new_cfg(visits: u32, threads: u32, log_dir: Seq<char>) -> Seq<char> {
    NEW_HEAD@ + text::decimal(visits as nat) + NEW_THREADS@ + text::decimal(
        at_least_one(threads) as nat,
    ) + NEW_BATCH@ + text::decimal(batch_for(threads)) + NEW_LOGS@ + log_dir + NEW_TAIL@
}

/// What a new file says.
pub fn default_analysis_cfg_text(visits: u32, search_threads: u32, log_dir: &str) -> (r: String)
    ensures
        r@ == new_cfg(visits, search_threads, log_dir@),
{
    let threads = if search_threads == 0 {
        1
    } else {
        search_threads
    };
    let batch = if threads < 16 {
        16
    } else if threads > 64 {
        64
    } else {
        threads
    };
    let mut out = NEW_HEAD.to_owned();
    push_decimal(&mut out, visits as u64);
    out.append(NEW_THREADS);
    push_decimal(&mut out, threads as u64);
    out.append(NEW_BATCH);
    push_decimal(&mut out, batch as u64);
    out.append(NEW_LOGS);
    out.append(log_dir);
    out.append(NEW_TAIL);
    out
}

// ---- lines ----

/// A line without the carriage return at its end.
pub open spec fn without_return(l: Seq<char>) -> Seq<char> {
    if l.len() > 0 && l.last() == '\r' {
        l.drop_last()
    } else {
        l
    }
}

/// The lines that the pieces between line feeds are: each without a carriage return at its end,
/// and the last piece only if it holds anything.
pub open spec fn lines_in(ps: Seq<Seq<char>>) -> Seq<Seq<char>>
    decreases ps.len(),
{
    if ps.len() == 0 {
        Seq::empty()
    } else if ps.len() == 1 {
        if ps[0].len() > 0 {
            ps
        } else {
            Seq::empty()
        }
    } else {
        seq![without_return(ps[0])] + lines_in(ps.skip(1))
    }
}

/// The lines of a text.
pub open spec fn lines_of(s: Seq<char>) -> Seq<Seq<char>> {
    lines_in(text::pieces(s, '\n'))
}

/// The text of lines, each with a line feed.
pub open spec fn text_of(ls: Seq<Seq<char>>) -> Seq<char>
    decreases ls.len(),
{
    if ls.len() == 0 {
        Seq::empty()
    } else {
        ls[0] + seq!['\n'] + text_of(ls.skip(1))
    }
}

/// The lines of a text.
pub fn split_lines(s: &str) -> (r: Vec<Vec<char>>)
    ensures
        text::char_lists(r@) == lines_of(s@),
{
    let ps = text::split_on(&chars_of(s), '\n');
    let ghost all = text::char_lists(ps@);
    let n = ps.len();
    let mut out: Vec<Vec<char>> = Vec::new();
    let mut i: usize = 0;
    assert(all.skip(0) =~= all);
    assert(text::char_lists(out@) + lines_in(all) =~= lines_in(all));
    while i < n
        invariant
            n == ps@.len(),
            i <= n,
            all == text::char_lists(ps@),
            text::char_lists(out@) + lines_in(all.skip(i as int)) == lines_in(all),
        decreases n - i,
    {
        let ghost rest = all.skip(i as int);
        let ghost done = out@;
        assert(rest[0] == ps@[i as int]@);
        assert(rest.skip(1) =~= all.skip(i + 1));
        let piece = &ps[i];
        let len = piece.len();
        if i + 1 == n {
            assert(rest =~= seq![piece@]);
            assert(lines_in(all.skip(i + 1)) =~= Seq::empty());
            if len > 0 {
                let whole = slice_chars(piece, 0, len);
                assert(whole@ =~= piece@);
                out.push(whole);
                assert(text::char_lists(out@) =~= text::char_lists(done).push(piece@));
            }
        } else {
            let end = if len > 0 && piece[len - 1] == '\r' {
                len - 1
            } else {
                len
            };
            let line = slice_chars(piece, 0, end);
            assert(line@ =~= without_return(piece@));
            out.push(line);
            assert(text::char_lists(out@) =~= text::char_lists(done).push(line@));
        }
        i += 1;
        assert(text::char_lists(out@) + lines_in(all.skip(i as int)) =~= text::char_lists(done)
            + lines_in(rest));
    }
    assert(all.skip(n as int).len() == 0);
    assert(text::char_lists(out@) =~= lines_in(all));
    out
}

/// The text of lines, each with a line feed.
pub fn join_lines(ls: &Vec<Vec<char>>) -> (r: String)
    ensures
        r@ == text_of(text::char_lists(ls@)),
{
    let ghost all = text::char_lists(ls@);
    let mut out = String::new();
    let mut i: usize = 0;
    assert(all.skip(0) =~= all);
    assert(out@ + text_of(all) =~= text_of(all));
    while i < ls.len()
        invariant
            i <= ls@.len(),
            all == text::char_lists(ls@),
            out@ + text_of(all.skip(i as int)) == text_of(all),
        decreases ls@.len() - i,
    {
        let ghost done = out@;
        let ghost rest = all.skip(i as int);
        assert(rest[0] == ls@[i as int]@);
        assert(rest.skip(1) =~= all.skip(i + 1));
        out.append(string_of(&ls[i]).as_str());
        out.push('\n');
        i += 1;
        assert(out@ + text_of(all.skip(i as int)) =~= done + text_of(rest));
    }
    assert(all.skip(i as int).len() == 0);
    assert(out@ =~= text_of(all));
    out
}

// ---- changes ----

/// The key that a line sets: what stands before its first `=`, without blanks around it.
pub open spec fn key_in(l: Seq<char>) -> Option<Seq<char>> {
    let t = text::trimmed_start(l);
    match text::find_from(t, '=', 0) {
        Some(i) => Some(text::trimmed_end(t.take(i))),
        None => None,
    }
}

/// Whether a line sets the number of search threads: whether that is the key it sets, and not only
/// the beginning of it.
pub open spec fn sets_threads(l: Seq<char>) -> bool {
    key_in(l) == Some("numSearchThreads"@)
}

/// The line that sets the number of search threads.
pub open spec fn threads_line(threads: u32) -> Seq<char> {
    "numSearchThreads = "@ + text::decimal(at_least_one(threads) as nat)
}

/// A line with the number of search threads as it should be.
pub open spec fn synced_line(l: Seq<char>, threads: u32) -> Seq<char> {
    if sets_threads(l) && text::trimmed_start(l) != threads_line(threads) {
        threads_line(threads)
    } else {
        l
    }
}

/// Whether one of the lines sets the number of search threads.
pub open spec fn any_sets(ls: Seq<Seq<char>>) -> bool {
    exists|i: int| 0 <= i < ls.len() && sets_threads(#[trigger] ls[i])
}

/// The lines with the number of search threads as it should be; a line is added where none sets it.
pub open spec fn synced(ls: Seq<Seq<char>>, threads: u32) -> Seq<Seq<char>> {
    let set = ls.map_values(|l: Seq<char>| synced_line(l, threads));
    if any_sets(ls) {
        set
    } else {
        set.push(threads_line(threads))
    }
}

/// The lines with the comment in place of each outdated one.
pub open spec fn upgraded(ls: Seq<Seq<char>>) -> Seq<Seq<char>>
    decreases ls.len(),
{
    if ls.len() == 0 {
        Seq::empty()
    } else if ls.len() >= 2 && ls[0] == LEGACY_FIRST@ && ls[1] == LEGACY_SECOND@ {
        seq![COMMENT_FIRST@, COMMENT_SECOND@, COMMENT_THIRD@] + upgraded(ls.skip(2))
    } else {
        seq![ls[0]] + upgraded(ls.skip(1))
    }
}

/// The lines as they should be.
pub open spec fn updated(ls: Seq<Seq<char>>, threads: u32) -> Seq<Seq<char>> {
    upgraded(synced(ls, threads))
}

/// What a file that is there should say; `None` where it says so already.
pub open spec fn new_text(s: Seq<char>, threads: u32) -> Option<Seq<char>> {
    let ls = lines_of(s);
    if updated(ls, threads) == ls {
        None
    } else {
        Some(text_of(updated(ls, threads)))
    }
}

fn is_threads_line(l: &Vec<char>) -> (r: bool)
    ensures
        r == sets_threads(l@),
{
    let t = text::trim_start(l);
    match text::find_char(&t, '=') {
        Some(i) => {
            let before = slice_chars(&t, 0, i);
            assert(before@ =~= t@.take(i as int));
            same_chars(&text::trim_end(&before), &chars_of("numSearchThreads"))
        },
        None => false,
    }
}

fn sync_lines(ls: &Vec<Vec<char>>, threads: u32) -> (r: Vec<Vec<char>>)
    ensures
        text::char_lists(r@) == synced(text::char_lists(ls@), threads),
{
    let ghost all = text::char_lists(ls@);
    let mut wanted = "numSearchThreads = ".to_owned();
    push_decimal(
        &mut wanted,
        if threads == 0 {
            1
        } else {
            threads as u64
        },
    );
    let wanted = chars_of(wanted.as_str());
    let mut seen = false;
    let mut out: Vec<Vec<char>> = Vec::new();
    let mut i: usize = 0;
    while i < ls.len()
        invariant
            i <= ls@.len(),
            all == text::char_lists(ls@),
            wanted@ == threads_line(threads),
            seen == any_sets(all.take(i as int)),
            text::char_lists(out@) == all.take(i as int).map_values(
                |l: Seq<char>| synced_line(l, threads),
            ),
        decreases ls@.len() - i,
    {
        let ghost done = out@;
        let line = &ls[i];
        assert(all[i as int] == line@);
        let sets = is_threads_line(line);
        let trimmed = text::trim_start(line);
        let next = if sets && !same_chars(&trimmed, &wanted) {
            slice_chars(&wanted, 0, wanted.len())
        } else {
            slice_chars(line, 0, line.len())
        };
        assert(next@ =~= synced_line(line@, threads));
        out.push(next);
        proof {
            let (before, after) = (all.take(i as int), all.take(i + 1));
            assert(after =~= before.push(line@));
            assert(any_sets(after) == (any_sets(before) || sets)) by {
                if any_sets(before) {
                    let k = choose|k: int| 0 <= k < before.len() && sets_threads(#[trigger] before[k]);
                    assert(after[k] == before[k]);
                }
                if sets {
                    assert(sets_threads(after[i as int]));
                }
                if any_sets(after) && !sets {
                    let k = choose|k: int| 0 <= k < after.len() && sets_threads(#[trigger] after[k]);
                    assert(before[k] == after[k]);
                }
            }
            assert(text::char_lists(out@) =~= text::char_lists(done).push(next@));
            assert(text::char_lists(out@) =~= after.map_values(
                |l: Seq<char>| synced_line(l, threads),
            ));
        }
        seen = seen || sets;
        i += 1;
    }
    assert(all.take(i as int) =~= all);
    if !seen {
        let ghost done = out@;
        out.push(wanted);
        assert(text::char_lists(out@) =~= text::char_lists(done).push(wanted@));
    }
    out
}

fn upgrade_lines(ls: &Vec<Vec<char>>) -> (r: Vec<Vec<char>>)
    ensures
        text::char_lists(r@) == upgraded(text::char_lists(ls@)),
{
    let ghost all = text::char_lists(ls@);
    let first = chars_of(LEGACY_FIRST);
    let second = chars_of(LEGACY_SECOND);
    let n = ls.len();
    let mut out: Vec<Vec<char>> = Vec::new();
    let mut i: usize = 0;
    assert(all.skip(0) =~= all);
    assert(text::char_lists(out@) + upgraded(all) =~= upgraded(all));
    while i < n
        invariant
            n == ls@.len(),
            i <= n,
            all == text::char_lists(ls@),
            first@ == LEGACY_FIRST@,
            second@ == LEGACY_SECOND@,
            text::char_lists(out@) + upgraded(all.skip(i as int)) == upgraded(all),
        decreases n - i,
    {
        let ghost done = out@;
        let ghost rest = all.skip(i as int);
        assert(rest[0] == ls@[i as int]@);
        assert(rest.skip(1) =~= all.skip(i + 1));
        if n - i >= 2 && same_chars(&ls[i], &first) && same_chars(&ls[i + 1], &second) {
            assert(rest[1] == ls@[i + 1]@);
            assert(rest.skip(2) =~= all.skip(i + 2));
            out.push(chars_of(COMMENT_FIRST));
            out.push(chars_of(COMMENT_SECOND));
            out.push(chars_of(COMMENT_THIRD));
            assert(text::char_lists(out@) =~= text::char_lists(done) + seq![
                COMMENT_FIRST@,
                COMMENT_SECOND@,
                COMMENT_THIRD@,
            ]);
            i += 2;
        } else {
            proof {
                if rest.len() >= 2 {
                    assert(rest[1] == ls@[i + 1]@);
                }
            }
            let line = slice_chars(&ls[i], 0, ls[i].len());
            assert(line@ =~= rest[0]);
            out.push(line);
            assert(text::char_lists(out@) =~= text::char_lists(done) + seq![rest[0]]);
            i += 1;
        }
        assert(text::char_lists(out@) + upgraded(all.skip(i as int)) =~= text::char_lists(done)
            + upgraded(rest));
    }
    assert(all.skip(i as int).len() == 0);
    assert(text::char_lists(out@) =~= upgraded(all));
    out
}

fn same_lines(a: &Vec<Vec<char>>, b: &Vec<Vec<char>>) -> (r: bool)
    ensures
        r == (text::char_lists(a@) == text::char_lists(b@)),
{
    let ghost (x, y) = (text::char_lists(a@), text::char_lists(b@));
    if a.len() != b.len() {
        assert(x.len() != y.len());
        return false;
    }
    let mut i: usize = 0;
    while i < a.len()
        invariant
            i <= a@.len(),
            a@.len() == b@.len(),
            x == text::char_lists(a@),
            y == text::char_lists(b@),
            forall|k: int| 0 <= k < i ==> #[trigger] x[k] == y[k],
        decreases a@.len() - i,
    {
        assert(x[i as int] == a@[i as int]@);
        assert(y[i as int] == b@[i as int]@);
        if !same_chars(&a[i], &b[i]) {
            return false;
        }
        i += 1;
    }
    assert(x =~= y);
    true
}

/// What a file that is there should say; `None` where it says so already.
pub fn updated_cfg_text(current: &str, search_threads: u32) -> (r: Option<String>)
    ensures
        match new_text(current@, search_threads) {
            Some(s) => r matches Some(x) && x@ == s,
            None => r is None,
        },
{
    let lines = split_lines(current);
    let next = upgrade_lines(&sync_lines(&lines, search_threads));
    if same_lines(&next, &lines) {
        None
    } else {
        Some(join_lines(&next))
    }
}

} // verus!
