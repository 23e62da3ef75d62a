//! Names: of files and directories, of copies, and in results.

use vstd::prelude::*;
use crate::board::Stone;
use crate::play::timer::{Seconds, TimeSystem};
use crate::text::{self, chars_of, decimal_text, find_char, push_decimal, slice_chars, string_of};

verus! {

// ---- paths ----

/// A path without the slashes and single dots at its end.
pub open spec fn trimmed_path(s: Seq<char>) -> Seq<char>
    decreases s.len(),
{
    let n = s.len() as int;
    if n > 1 && (s[n - 1] == '/' || (s[n - 1] == '.' && s[n - 2] == '/')) {
        trimmed_path(s.drop_last())
    } else {
        s
    }
}

/// How much of a path stands before its last part: what stands up to the last slash, with it.
pub open spec fn head_len(s: Seq<char>) -> int
    decreases s.len(),
{
    if s.len() == 0 || s.last() == '/' {
        s.len() as int
    } else {
        head_len(s.drop_last())
    }
}

/// The name of the file that a path leads to, if it leads to one.
pub open spec fn named(path: Seq<char>) -> Option<Seq<char>> {
    let t = trimmed_path(path);
    let f = t.skip(head_len(t));
    if f.len() == 0 || f == "."@ || f == ".."@ {
        None
    } else {
        Some(f)
    }
}

/// The directory that a path names, if it names one beside the file.
pub open spec fn directory(path: Seq<char>) -> Option<Seq<char>> {
    let t = trimmed_path(path);
    let n = head_len(t);
    if n == 0 || n == t.len() {
        None
    } else if n == 1 {
        Some(t.take(1))
    } else {
        Some(trimmed_path(t.take(n - 1)))
    }
}

proof fn lemma_head_len(s: Seq<char>)
    ensures
        0 <= head_len(s) <= s.len(),
    decreases s.len(),
{
    if s.len() > 0 && s.last() != '/' {
        lemma_head_len(s.drop_last());
    }
}

fn trim_path(s: &Vec<char>) -> (r: Vec<char>)
    ensures
        r@ == trimmed_path(s@),
{
    let mut n = s.len();
    assert(s@.take(n as int) =~= s@);
    while n > 1 && (s[n - 1] == '/' || (s[n - 1] == '.' && s[n - 2] == '/'))
        invariant
            n <= s@.len(),
            trimmed_path(s@.take(n as int)) == trimmed_path(s@),
        decreases n,
    {
        assert(s@.take(n as int).drop_last() =~= s@.take(n - 1));
        n -= 1;
    }
    let r = slice_chars(s, 0, n);
    assert(r@ =~= s@.take(n as int));
    r
}

fn head(s: &Vec<char>) -> (r: usize)
    ensures
        r == head_len(s@),
{
    let mut n = s.len();
    assert(s@.take(n as int) =~= s@);
    while n > 0 && s[n - 1] != '/'
        invariant
            n <= s@.len(),
            head_len(s@.take(n as int)) == head_len(s@),
        decreases n,
    {
        assert(s@.take(n as int).drop_last() =~= s@.take(n - 1));
        assert(s@.take(n as int).last() == s@[n - 1]);
        n -= 1;
    }
    assert(n > 0 ==> s@.take(n as int).last() == s@[n - 1]);
    n
}

/// The text of an optional string.
pub open spec fn opt_text(s: Option<String>) -> Option<Seq<char>> {
    match s {
        Some(x) => Some(x@),
        None => None,
    }
}

/// The name of the file that a path leads to, if it leads to one.
pub fn file_name(path: &str) -> (r: Option<String>)
    ensures
        opt_text(r) == named(path@),
{
    let t = trim_path(&chars_of(path));
    let n = head(&t);
    proof {
        lemma_head_len(t@);
        reveal_strlit(".");
        reveal_strlit("..");
    }
    let f = slice_chars(&t, n, t.len());
    assert(f@ =~= t@.skip(n as int));
    if f.len() == 0 || (f.len() == 1 && f[0] == '.') || (f.len() == 2 && f[0] == '.' && f[1]
        == '.') {
        proof {
            if f@.len() == 1 {
                assert(f@ =~= "."@);
            }
            if f@.len() == 2 {
                assert(f@ =~= ".."@);
            }
        }
        None
    } else {
        assert(f@ != "."@ && f@ != ".."@) by {
            assert(f@ == "."@ ==> f@[0] == '.');
            assert(f@ == ".."@ ==> f@[0] == '.' && f@[1] == '.');
        }
        Some(string_of(&f))
    }
}

/// The directory that a path names, if it names one beside the file.
pub fn dir_of(path: &str) -> (r: Option<String>)
    ensures
        opt_text(r) == directory(path@),
{
    let t = trim_path(&chars_of(path));
    let n = head(&t);
    proof {
        lemma_head_len(t@);
    }
    if n == 0 || n == t.len() {
        None
    } else if n == 1 {
        let d = slice_chars(&t, 0, 1);
        assert(d@ =~= t@.take(1));
        Some(string_of(&d))
    } else {
        let d = slice_chars(&t, 0, n - 1);
        assert(d@ =~= t@.take(n - 1));
        Some(string_of(&trim_path(&d)))
    }
}

/// The name under which a record is saved where nothing else is known.
pub open spec fn usual_name() -> Seq<char> {
    "guanqi.sgf"@
}

/// The name that is offered for saving a record from `source`.
pub open spec fn offered_name(source: Seq<char>) -> Seq<char> {
    match named(source) {
        Some(n) => n,
        None => usual_name(),
    }
}

/// The name that is offered for saving a record from `source`: its file name, or the usual one.
pub fn default_sgf_name(source: &str) -> (r: String)
    ensures
        r@ == offered_name(source@),
{
    match file_name(source) {
        Some(n) => n,
        None => "guanqi.sgf".to_owned(),
    }
}

/// The name that is offered for saving copy `number` of a record with the name `base`: the number
/// stands before the first dot.
pub open spec fn offered_copy_name(base: Seq<char>, number: nat) -> Seq<char> {
    match text::find_from(base, '.', 0) {
        Some(i) if i > 0 => base.take(i) + "-副本"@ + text::decimal(number) + "."@ + base.skip(i + 1),
        _ => "研究副本"@ + text::decimal(number) + ".sgf"@,
    }
}

/// The name that is offered for saving copy `number` of a record with the name `base`.
pub fn copy_name(base: &str, number: usize) -> (r: String)
    ensures
        r@ == offered_copy_name(base@, number as nat),
{
    let cs = chars_of(base);
    match find_char(&cs, '.') {
        Some(i) => {
            if i > 0 {
                let stem = slice_chars(&cs, 0, i);
                let ext = slice_chars(&cs, i + 1, cs.len());
                let mut out = string_of(&stem);
                out.append("-副本");
                push_decimal(&mut out, number as u64);
                out.append(".");
                out.append(string_of(&ext).as_str());
                assert(stem@ =~= base@.take(i as int));
                assert(ext@ =~= base@.skip(i + 1));
                return out;
            }
        },
        None => {},
    }
    let mut out = "研究副本".to_owned();
    push_decimal(&mut out, number as u64);
    out.append(".sgf");
    out
}

// ---- results ----

/// The letter of a side in results.
pub open spec fn letter(side: Stone) -> Seq<char> {
    match side {
        Stone::Black => "B"@,
        Stone::White => "W"@,
    }
}

/// The letter of the winner in results.
pub fn result_letter(winner: Stone) -> (r: &'static str)
    ensures
        r@ == letter(winner),
{
    match winner {
        Stone::Black => "B",
        Stone::White => "W",
    }
}

// ---- times ----

/// A time in units of so many nanoseconds, to the nearest, as far as 64 bits hold it.
pub open spec fn to_nearest(t: Seconds, unit: u64) -> nat {
    let n = (t.nanos_spec(true) + unit as nat / 2) / unit as nat;
    if n <= u64::MAX {
        n
    } else {
        u64::MAX as nat
    }
}

/// A time in minutes, to the nearest.
pub open spec fn minutes(t: Seconds) -> nat {
    to_nearest(t, 60_000_000_000)
}

/// A time in seconds, to the nearest.
pub open spec fn seconds(t: Seconds) -> nat {
    to_nearest(t, 1_000_000_000)
}

/// What a record says of a time limit: the main time, and the overtime.
pub open spec fn time_words(system: TimeSystem) -> (Option<Seq<char>>, Option<Seq<char>>) {
    match system {
        TimeSystem::Unlimited => (None, None),
        TimeSystem::Absolute { seconds } => (
            Some(text::decimal(minutes(seconds)) + " 分钟"@),
            None,
        ),
        TimeSystem::Byoyomi { main_seconds, period_seconds, periods } => (
            Some(text::decimal(minutes(main_seconds)) + " 分钟"@),
            Some(
                text::decimal(periods as nat) + " 次 × "@ + text::decimal(self::seconds(period_seconds))
                    + " 秒读秒"@,
            ),
        ),
    }
}

fn nearest(t: Seconds, unit: u64) -> (r: u64)
    requires
        2 <= unit <= 60_000_000_000,
    ensures
        r == to_nearest(t, unit),
{
    let n = t.whole_nanos();
    let whole = n / unit as u128;
    let up: u128 = if n % unit as u128 >= unit as u128 - unit as u128 / 2 {
        1
    } else {
        0
    };
    assert(whole <= 0x8000_0000_0000_0000_0000_0000_0000_0000u128) by (nonlinear_arith)
        requires
            whole == n / unit as u128,
            2 <= unit,
    ;
    let v = whole + up;
    proof {
        let all = t.nanos_spec(true) as int;
        let (u, h) = (unit as int, (unit / 2) as int);
        if all <= u128::MAX {
            let r = (n % unit as u128) as int;
            vstd::arithmetic::div_mod::lemma_fundamental_div_mod(n as int, u);
            assert(n as int == u * whole as int + r);
            assert(n + h == (whole + up) * u + (r + h - up * u)) by (nonlinear_arith)
                requires
                    n == u * whole + r,
            ;
            assert(0 <= r + h - up * u < u) by (nonlinear_arith)
                requires
                    0 <= r < u,
                    0 <= h < u,
                    up == 0 ==> r < u - h,
                    up == 1 ==> r >= u - h,
                    up == 0 || up == 1,
            ;
            vstd::arithmetic::div_mod::lemma_fundamental_div_mod_converse(
                n + h,
                u,
                whole + up,
                r + h - up * u,
            );
        } else {
            assert(n == u128::MAX);
            assert(whole > u64::MAX) by (nonlinear_arith)
                requires
                    n == 0xffff_ffff_ffff_ffff_ffff_ffff_ffff_ffffu128,
                    whole == n / unit as u128,
                    2 <= unit <= 60_000_000_000,
            ;
            vstd::arithmetic::div_mod::lemma_div_is_ordered(n as int, all + h, u);
        }
    }
    if v <= u64::MAX as u128 {
        v as u64
    } else {
        u64::MAX
    }
}

fn minutes_text(t: Seconds) -> (r: String)
    ensures
        r@ == text::decimal(minutes(t)) + " 分钟"@,
{
    let mut out = decimal_text(nearest(t, 60_000_000_000));
    out.append(" 分钟");
    out
}

/// What a record says of a time limit: the main time, and the overtime.
pub fn time_meta_text(system: TimeSystem) -> (r: (Option<String>, Option<String>))
    ensures
        (opt_text(r.0), opt_text(r.1)) == time_words(system),
{
    match system {
        TimeSystem::Unlimited => (None, None),
        TimeSystem::Absolute { seconds } => (Some(minutes_text(seconds)), None),
        TimeSystem::Byoyomi { main_seconds, period_seconds, periods } => {
            let mut out = decimal_text(periods as u64);
            out.append(" 次 × ");
            push_decimal(&mut out, nearest(period_seconds, 1_000_000_000));
            out.append(" 秒读秒");
            (Some(minutes_text(main_seconds)), Some(out))
        },
    }
}

} // verus!
