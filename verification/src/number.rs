//! Numbers written in decimal: what they denote, and the one way in which they are shown.
//!
//! What is shown of a number is what a double keeps of it (see [`crate::double`]).

use vstd::prelude::*;
use crate::double;
use crate::text::{self, lower_chars, run_of_digits, same_text, slice_chars, string_of};

verus! {

/// A number: 0.`digits`, times ten to the power of `point`, below zero where `neg` says so. The
/// digits neither begin nor end with a zero; zero has none.
#[verifier::ext_equal]
pub struct NumberView {
    pub neg: bool,
    pub digits: Seq<char>,
    pub point: int,
}

/// A row of zeros.
pub open spec fn zeros(n: int) -> Seq<char> {
    Seq::new(
        if n > 0 {
            n as nat
        } else {
            0
        },
        |i: int| '0',
    )
}

/// Digits without the zeros they begin with.
pub open spec fn strip_front(s: Seq<char>) -> Seq<char>
    decreases s.len(),
{
    if s.len() > 0 && s[0] == '0' {
        strip_front(s.skip(1))
    } else {
        s
    }
}

/// Digits without the zeros they end with.
pub open spec fn strip_back(s: Seq<char>) -> Seq<char>
    decreases s.len(),
{
    if s.len() > 0 && s.last() == '0' {
        strip_back(s.drop_last())
    } else {
        s
    }
}

/// A number without its sign.
pub open spec fn unsigned(s: Seq<char>) -> Seq<char> {
    if s.len() > 0 && (s[0] == '+' || s[0] == '-') {
        s.skip(1)
    } else {
        s
    }
}

/// Whether a number begins with a minus sign.
pub open spec fn minus(s: Seq<char>) -> bool {
    s.len() > 0 && s[0] == '-'
}

/// The exponent that stands at `j`; none is zero.
pub open spec fn exponent_in(b: Seq<char>, j: int) -> int {
    if j >= b.len() {
        0
    } else if j + 1 < b.len() && b[j + 1] == '-' {
        -(text::digits_value(b.skip(j + 2)) as int)
    } else if j + 1 < b.len() && b[j + 1] == '+' {
        text::digits_value(b.skip(j + 2)) as int
    } else {
        text::digits_value(b.skip(j + 1)) as int
    }
}

/// Where the digits before an exponent end.
pub open spec fn mantissa_end(b: Seq<char>) -> int {
    let i = text::digits_end(b, 0);
    if i < b.len() && b[i] == '.' {
        text::digits_end(b, i + 1)
    } else {
        i
    }
}

/// The digits before an exponent, without the point.
pub open spec fn mantissa(b: Seq<char>) -> Seq<char> {
    let i = text::digits_end(b, 0);
    let j = mantissa_end(b);
    b.take(i) + if i < j {
        b.subrange(i + 1, j)
    } else {
        Seq::empty()
    }
}

/// The number that a text denotes; `None` where it is no decimal number.
pub open spec fn number_in(s: Seq<char>) -> Option<NumberView> {
    let b = unsigned(s);
    if text::is_number(b) {
        let raw = mantissa(b);
        let all = strip_front(raw);
        Some(
            NumberView {
                neg: minus(s),
                digits: strip_back(all),
                point: text::digits_end(b, 0) + exponent_in(b, mantissa_end(b)) - (raw.len()
                    - all.len()),
            },
        )
    } else {
        None
    }
}

/// A number as a double keeps it: the number with the fewest digits that denotes the double nearest
/// to it, and `None` where that is infinite. Up to fifteen digits, and far from the ends of what
/// doubles hold, that is the number itself.
pub open spec fn rounded(n: NumberView) -> Option<NumberView> {
    let zero = NumberView { neg: n.neg, digits: Seq::empty(), point: 0 };
    if n.digits.len() == 0 || n.point < -323 {
        Some(zero)
    } else if n.point > 309 {
        None
    } else if n.digits.len() <= 15 && -306 <= n.point <= 308 {
        Some(n)
    } else if double::bits_of(n) == 0 {
        Some(zero)
    } else if double::bits_of(n) >= double::INFINITE {
        None
    } else {
        match double::decimal_of(double::bits_of(n)) {
            Some(d) => Some(NumberView { neg: n.neg, ..d }),
            None => Some(n),
        }
    }
}

/// A number without its sign, with no exponent, no zero too many and no point behind which nothing
/// stands.
pub open spec fn plain(n: NumberView) -> Seq<char> {
    if n.digits.len() == 0 {
        "0"@
    } else if n.point <= 0 {
        seq!['0', '.'] + zeros(-n.point) + n.digits
    } else if n.digits.len() <= n.point {
        n.digits + zeros(n.point - n.digits.len())
    } else {
        n.digits.take(n.point) + seq!['.'] + n.digits.skip(n.point)
    }
}

/// A sign where one is needed, and a text.
pub open spec fn signed(neg: bool, s: Seq<char>) -> Seq<char> {
    if neg {
        seq!['-'] + s
    } else {
        s
    }
}

/// The one way in which a number is shown: `6.5` for `+6.5`, `06.50` and `65e-1`, `6` for `6.0`.
/// A text that is no number stays as it is.
pub open spec fn shown(s: Seq<char>) -> Seq<char> {
    match number_in(s) {
        Some(n) => match rounded(n) {
            Some(d) => signed(d.neg, plain(d)),
            None => signed(n.neg, "inf"@),
        },
        None => {
            let b = text::lower_text(unsigned(s));
            if b == "inf"@ || b == "infinity"@ {
                signed(minus(s), "inf"@)
            } else if b == "nan"@ {
                "NaN"@
            } else {
                s
            }
        },
    }
}

/// An exponent with its sign.
pub open spec fn exponent_text(e: int) -> Seq<char> {
    if e < 0 {
        "e-"@ + text::decimal((-e) as nat)
    } else {
        "e+"@ + text::decimal(e as nat)
    }
}

/// A number without its sign as JSON writes it: with a point and digits behind it, or with an
/// exponent where the first digit stands more than five places behind the point or more than
/// sixteen before it.
pub open spec fn compact(n: NumberView) -> Seq<char> {
    if n.digits.len() == 0 {
        "0.0"@
    } else if -4 <= n.point <= 16 {
        plain(n) + if n.digits.len() <= n.point {
            ".0"@
        } else {
            ""@
        }
    } else {
        n.digits.take(1) + (if n.digits.len() > 1 {
            "."@ + n.digits.skip(1)
        } else {
            ""@
        }) + exponent_text(n.point - 1)
    }
}

/// A number as JSON writes it; what JSON has no number for is `null`.
pub open spec fn in_json(s: Seq<char>) -> Seq<char> {
    match number_in(s) {
        Some(n) => match rounded(n) {
            Some(d) => signed(d.neg, compact(d)),
            None => "null"@,
        },
        None => "null"@,
    }
}

// ---- reading ----

/// Whether `a` stands for `b`: it is `b`, or both are far off on the same side.
pub open spec fn near(a: i128, b: int) -> bool {
    ||| a == b
    ||| a > 1000 && b > 1000
    ||| a < -1000 && b < -1000
}

/// What is read of a number.
pub struct Number {
    /// Whether it is below zero.
    pub neg: bool,
    /// Its digits, which neither begin nor end with a zero.
    pub digits: Vec<char>,
    /// The power of ten; far off, it is only as good as `near` says.
    pub point: i128,
}

/// The largest exponent that is told from others.
pub const FAR: u128 = 1_000_000_000_000_000_000_000_000_000_000;

/// Whether `v` stands for `n`.
spec fn capped(v: u128, n: nat) -> bool {
    v == n || (v == FAR && n >= FAR)
}

fn exponent_digits(b: &[char], from: usize) -> (r: u128)
    requires
        from <= b@.len(),
        forall|k: int| from <= k < b@.len() ==> text::is_digit(#[trigger] b@[k]),
    ensures
        capped(r, text::digits_value(b@.skip(from as int))),
        r <= FAR,
{
    let ghost d = b@.skip(from as int);
    let mut v: u128 = 0;
    let mut i: usize = from;
    assert(d.take(0) =~= Seq::<char>::empty());
    while i < b.len()
        invariant
            from <= i <= b@.len(),
            d == b@.skip(from as int),
            forall|k: int| from <= k < b@.len() ==> text::is_digit(#[trigger] b@[k]),
            capped(v, text::digits_value(d.take(i - from))),
            v <= FAR,
        decreases b@.len() - i,
    {
        let c = b[i];
        proof {
            assert(text::is_digit(b@[i as int]));
            assert(d.take(i + 1 - from).drop_last() =~= d.take(i - from));
            assert(d.take(i + 1 - from).last() == c);
        }
        let next = v * 10 + (c as u32 - 48) as u128;
        v = if v == FAR || next > FAR {
            FAR
        } else {
            next
        };
        i += 1;
    }
    assert(d.take(d.len() as int) =~= d);
    v
}

proof fn lemma_digits_run(s: Seq<char>, p: int)
    requires
        0 <= p <= s.len(),
    ensures
        p <= text::digits_end(s, p) <= s.len(),
        forall|k: int| p <= k < text::digits_end(s, p) ==> text::is_digit(#[trigger] s[k]),
    decreases s.len() - p,
{
    if p < s.len() && text::is_digit(s[p]) {
        lemma_digits_run(s, p + 1);
    }
}

/// The exponent of a number stands where its digits end, and is made of digits.
fn read_exponent(b: &[char], j: usize) -> (r: i128)
    requires
        j <= b@.len(),
        text::exponent_or_end(b@, j as int),
    ensures
        r == exponent_in(b@, j as int) || (r == FAR && exponent_in(b@, j as int) >= FAR) || (r
            == -FAR && exponent_in(b@, j as int) <= -FAR),
        -FAR <= r <= FAR,
{
    if j == b.len() {
        return 0;
    }
    proof {
        let q = if j + 1 < b@.len() && (b@[j + 1] == '+' || b@[j + 1] == '-') {
            j + 2
        } else {
            j + 1
        };
        lemma_digits_run(b@, q);
    }
    if j + 1 < b.len() && b[j + 1] == '-' {
        -(exponent_digits(b, j + 2) as i128)
    } else if j + 1 < b.len() && b[j + 1] == '+' {
        exponent_digits(b, j + 2) as i128
    } else {
        exponent_digits(b, j + 1) as i128
    }
}

fn without_front(s: &[char]) -> (r: Vec<char>)
    ensures
        r@ == strip_front(s@),
        r@.len() <= s@.len(),
{
    let mut i: usize = 0;
    assert(s@.skip(0) =~= s@);
    while i < s.len() && s[i] == '0'
        invariant
            i <= s@.len(),
            strip_front(s@.skip(i as int)) == strip_front(s@),
        decreases s@.len() - i,
    {
        assert(s@.skip(i as int).skip(1) =~= s@.skip(i + 1));
        i += 1;
    }
    let r = slice_chars(s, i, s.len());
    assert(r@ =~= s@.skip(i as int));
    r
}

pub(crate) fn without_back(s: &[char]) -> (r: Vec<char>)
    ensures
        r@ == strip_back(s@),
{
    let mut n: usize = s.len();
    assert(s@.take(n as int) =~= s@);
    while n > 0 && s[n - 1] == '0'
        invariant
            n <= s@.len(),
            strip_back(s@.take(n as int)) == strip_back(s@),
        decreases n,
    {
        assert(s@.take(n as int).drop_last() =~= s@.take(n - 1));
        n -= 1;
    }
    let r = slice_chars(s, 0, n);
    assert(r@ =~= s@.take(n as int));
    r
}

fn without_sign(s: &[char]) -> (r: Vec<char>)
    ensures
        r@ == unsigned(s@),
{
    let from: usize = if s.len() > 0 && (s[0] == '+' || s[0] == '-') { 1 } else { 0 };
    let r = slice_chars(s, from, s.len());
    assert(r@ =~= unsigned(s@));
    r
}

/// Reads a number.
pub fn read_number(s: &[char]) -> (r: Option<Number>)
    ensures
        match number_in(s@) {
            Some(n) => r matches Some(x) && x.neg == n.neg && x.digits@ == n.digits && near(
                x.point,
                n.point,
            ),
            None => r is None,
        },
{
    let neg = s.len() > 0 && s[0] == '-';
    let b = without_sign(s);
    let i = run_of_digits(&b, 0);
    let dot = i < b.len() && b[i] == '.';
    let j = if dot {
        run_of_digits(&b, i + 1)
    } else {
        i
    };
    let some = if dot {
        i > 0 || j > i + 1
    } else {
        i > 0
    };
    if !some || !text::exponent_at(&b, j) {
        return None;
    }
    let mut raw = slice_chars(&b, 0, i);
    if dot {
        let mut frac = slice_chars(&b, i + 1, j);
        raw.append(&mut frac);
    }
    assert(raw@ =~= mantissa(b@));
    let all = without_front(&raw);
    let digits = without_back(&all);
    let e = read_exponent(&b, j);
    let point = i as i128 + e - (raw.len() - all.len()) as i128;
    Some(Number { neg, digits, point })
}

// ---- showing ----

fn push_zeros(out: &mut Vec<char>, n: usize)
    ensures
        final(out)@ == old(out)@ + zeros(n as int),
{
    let mut i: usize = 0;
    assert(out@ =~= old(out)@ + zeros(0));
    while i < n
        invariant
            i <= n,
            out@ == old(out)@ + zeros(i as int),
        decreases n - i,
    {
        out.push('0');
        i += 1;
        assert(out@ =~= old(out)@ + zeros(i as int));
    }
}

fn push_part(out: &mut Vec<char>, s: &[char], from: usize, to: usize)
    requires
        from <= to <= s@.len(),
    ensures
        final(out)@ == old(out)@ + s@.subrange(from as int, to as int),
{
    let mut part = slice_chars(s, from, to);
    out.append(&mut part);
}

/// A number as a double keeps it.
fn round_number(n: Number) -> (r: Option<Number>)
    requires
        forall|i: int| 0 <= i < n.digits@.len() ==> text::is_digit(#[trigger] n.digits@[i]),
    ensures
        forall|m: NumberView|
            m.neg == n.neg && m.digits == n.digits@ && near(n.point, m.point) ==> match #[trigger] rounded(
                m,
            ) {
                Some(d) => r matches Some(x) && x.neg == d.neg && x.digits@ == d.digits && x.point
                    == d.point && -323 <= d.point <= 309,
                None => r is None,
            },
{
    let neg = n.neg;
    if n.digits.len() == 0 || n.point < -323 {
        let digits: Vec<char> = Vec::new();
        assert(digits@ =~= Seq::empty());
        return Some(Number { neg, digits, point: 0 });
    }
    if n.point > 309 {
        return None;
    }
    if n.digits.len() <= 15 && -306 <= n.point && n.point <= 308 {
        return Some(n);
    }
    let bits = double::to_bits(&n.digits, n.point);
    assert(bits == double::bits_of(
        NumberView { neg, digits: n.digits@, point: n.point as int },
    ));
    if bits == 0 {
        let digits: Vec<char> = Vec::new();
        assert(digits@ =~= Seq::empty());
        return Some(Number { neg, digits, point: 0 });
    }
    if bits >= double::INFINITE {
        return None;
    }
    match double::from_bits(bits) {
        Some(d) => Some(Number { neg, digits: d.digits, point: d.point }),
        None => Some(n),
    }
}

/// A number that is not too far off, without its sign.
fn plain_chars(digits: &[char], point: i128) -> (r: Vec<char>)
    requires
        -1000 <= point <= 1000,
    ensures
        forall|neg: bool|
            r@ == #[trigger] plain(NumberView { neg, digits: digits@, point: point as int }),
{
    let mut out: Vec<char> = Vec::new();
    let n = digits.len();
    if n == 0 {
        return text::chars_of("0");
    }
    if point <= 0 {
        out.push('0');
        out.push('.');
        push_zeros(&mut out, (-point) as usize);
        push_part(&mut out, digits, 0, n);
        assert(out@ =~= seq!['0', '.'] + zeros(-point as int) + digits@);
    } else {
        let p = point as usize;
        if n <= p {
            push_part(&mut out, digits, 0, n);
            push_zeros(&mut out, p - n);
            assert(out@ =~= digits@ + zeros(p - n));
        } else {
            push_part(&mut out, digits, 0, p);
            out.push('.');
            push_part(&mut out, digits, p, n);
            assert(out@ =~= digits@.take(p as int) + seq!['.'] + digits@.skip(p as int));
        }
    }
    out
}

fn push_exponent(out: &mut String, e: i128)
    requires
        -1000 <= e <= 1000,
    ensures
        final(out)@ == old(out)@ + exponent_text(e as int),
{
    if e < 0 {
        out.append("e-");
        text::push_decimal(out, (-e) as u64);
    } else {
        out.append("e+");
        text::push_decimal(out, e as u64);
    }
    assert(out@ =~= old(out)@ + exponent_text(e as int));
}

/// A number that is not too far off as JSON writes it, without its sign.
fn compact_text(digits: &[char], point: i128) -> (r: String)
    requires
        -900 <= point <= 900,
    ensures
        forall|neg: bool|
            r@ == #[trigger] compact(NumberView { neg, digits: digits@, point: point as int }),
{
    let n = digits.len();
    if n == 0 {
        return "0.0".to_owned();
    }
    proof {
        reveal_strlit("");
    }
    if -4 <= point && point <= 16 {
        let mut out = string_of(&plain_chars(digits, point));
        let ghost whole = out@;
        assert forall|neg: bool|
            whole == #[trigger] plain(NumberView { neg, digits: digits@, point: point as int }) by {}
        if n as i128 <= point {
            out.append(".0");
        } else {
            assert(whole + ""@ =~= whole);
        }
        assert forall|neg: bool|
            out@ == #[trigger] compact(
                NumberView { neg, digits: digits@, point: point as int },
            ) by {
            assert(whole == plain(NumberView { neg, digits: digits@, point: point as int }));
        }
        out
    } else {
        let first = slice_chars(digits, 0, 1);
        assert(first@ =~= digits@.take(1));
        let mut out = string_of(&first);
        if n > 1 {
            let rest = slice_chars(digits, 1, n);
            assert(rest@ =~= digits@.skip(1));
            out.append(".");
            out.append(string_of(&rest).as_str());
            assert(out@ =~= digits@.take(1) + ("."@ + digits@.skip(1)));
        } else {
            assert(out@ =~= digits@.take(1) + ""@);
        }
        push_exponent(&mut out, point - 1);
        out
    }
}

fn with_sign(neg: bool, chars: Vec<char>) -> (r: String)
    ensures
        r@ == signed(neg, chars@),
{
    let mut out: Vec<char> = Vec::new();
    if neg {
        out.push('-');
    }
    let mut rest = chars;
    out.append(&mut rest);
    assert(out@ =~= signed(neg, chars@));
    string_of(&out)
}

/// The number that a text denotes, as a double keeps it; `None` where it is no decimal number, or
/// infinite.
pub fn read_double(s: &str) -> (r: Option<Number>)
    ensures
        match number_in(s@) {
            Some(n) => match rounded(n) {
                Some(d) => r matches Some(x) && x.neg == d.neg && x.digits@ == d.digits && x.point
                    == d.point && -323 <= d.point <= 309 && canonical(d),
                None => r is None,
            },
            None => r is None,
        },
{
    let t = text::chars_of(s);
    proof {
        lemma_number_digits(s@);
    }
    match read_number(&t) {
        Some(n) => {
            let ghost m = number_in(s@)->0;
            proof {
                lemma_rounded_again(m);
                assert(m.neg == n.neg && m.digits == n.digits@ && near(n.point, m.point));
            }
            let r = round_number(n);
            assert(rounded(m) is None <==> r is None);
            r
        },
        None => None,
    }
}

/// The one way in which a number is shown.
pub fn show(s: &str) -> (r: String)
    ensures
        r@ == shown(s@),
{
    let t = text::chars_of(s);
    proof {
        lemma_number_digits(s@);
    }
    match read_number(&t) {
        Some(n) => {
            let neg = n.neg;
            let ghost m = number_in(s@)->0;
            match round_number(n) {
                Some(d) => {
                    let chars = plain_chars(&d.digits, d.point);
                    proof {
                        let k = NumberView { neg: d.neg, digits: d.digits@, point: d.point as int };
                        assert(rounded(m)->0 =~= k);
                        assert(chars@ == plain(k));
                    }
                    with_sign(d.neg, chars)
                },
                None => {
                    assert(rounded(m) is None);
                    with_sign(neg, text::chars_of("inf"))
                },
            }
        },
        None => {
            let low = lower_chars(&without_sign(&t));
            let word = string_of(&low);
            if same_text(word.as_str(), "inf") || same_text(word.as_str(), "infinity") {
                with_sign(t.len() > 0 && t[0] == '-', text::chars_of("inf"))
            } else if same_text(word.as_str(), "nan") {
                "NaN".to_owned()
            } else {
                s.to_owned()
            }
        },
    }
}

/// A number as JSON writes it.
pub fn json_number(s: &str) -> (r: String)
    ensures
        r@ == in_json(s@),
{
    let t = text::chars_of(s);
    proof {
        lemma_number_digits(s@);
    }
    match read_number(&t) {
        Some(n) => {
            let ghost m = number_in(s@)->0;
            match round_number(n) {
                Some(d) => {
                    let out = compact_text(&d.digits, d.point);
                    proof {
                        let k = NumberView { neg: d.neg, digits: d.digits@, point: d.point as int };
                        assert(rounded(m)->0 =~= k);
                        assert(out@ == compact(k));
                    }
                    with_sign(d.neg, text::chars_of(out.as_str()))
                },
                None => {
                    assert(rounded(m) is None);
                    "null".to_owned()
                },
            }
        },
        None => "null".to_owned(),
    }
}

// ---- what is shown reads back ----

/// Whether a number is written with digits, the first and the last of which are no zeros.
pub open spec fn canonical(n: NumberView) -> bool {
    &&& forall|i: int| 0 <= i < n.digits.len() ==> text::is_digit(#[trigger] n.digits[i])
    &&& n.digits.len() > 0 ==> n.digits[0] != '0' && n.digits.last() != '0'
}

proof fn lemma_strip_front(s: Seq<char>)
    requires
        forall|i: int| 0 <= i < s.len() ==> text::is_digit(#[trigger] s[i]),
    ensures
        strip_front(s).len() <= s.len(),
        forall|i: int|
            0 <= i < strip_front(s).len() ==> text::is_digit(#[trigger] strip_front(s)[i]),
        strip_front(s).len() > 0 ==> strip_front(s)[0] != '0',
    decreases s.len(),
{
    if s.len() > 0 && s[0] == '0' {
        lemma_strip_front(s.skip(1));
    }
}

pub(crate) proof fn lemma_strip_back(s: Seq<char>)
    requires
        forall|i: int| 0 <= i < s.len() ==> text::is_digit(#[trigger] s[i]),
        s.len() > 0 ==> s[0] != '0',
    ensures
        forall|i: int|
            0 <= i < strip_back(s).len() ==> text::is_digit(#[trigger] strip_back(s)[i]),
        strip_back(s).len() > 0 ==> strip_back(s)[0] != '0' && strip_back(s).last() != '0',
    decreases s.len(),
{
    if s.len() > 0 && s.last() == '0' {
        lemma_strip_back(s.drop_last());
    }
}

/// What is read of a number is digits, the first and the last of which are no zeros.
pub proof fn lemma_number_digits(s: Seq<char>)
    ensures
        number_in(s) matches Some(n) ==> canonical(n),
{
    let b = unsigned(s);
    let i = text::digits_end(b, 0);
    lemma_digits_run(b, 0);
    if i < b.len() && b[i] == '.' {
        lemma_digits_run(b, i + 1);
    }
    let raw = mantissa(b);
    assert forall|k: int| 0 <= k < raw.len() implies text::is_digit(#[trigger] raw[k]) by {
        if k < i {
            assert(raw[k] == b[k]);
        } else {
            assert(raw[k] == b[k + 1]);
        }
    }
    lemma_strip_front(raw);
    lemma_strip_back(strip_front(raw));
}

proof fn lemma_front_zeros(n: int, d: Seq<char>)
    requires
        n >= 0,
        d.len() > 0,
        d[0] != '0',
    ensures
        strip_front(zeros(n) + d) == d,
    decreases n,
{
    if n > 0 {
        lemma_front_zeros(n - 1, d);
        assert((zeros(n) + d).skip(1) =~= zeros(n - 1) + d);
    } else {
        assert(zeros(0) + d =~= d);
    }
}

proof fn lemma_back_zeros(d: Seq<char>, n: int)
    requires
        n >= 0,
        d.len() > 0,
        d.last() != '0',
    ensures
        strip_back(d + zeros(n)) == d,
    decreases n,
{
    if n > 0 {
        lemma_back_zeros(d, n - 1);
        assert((d + zeros(n)).drop_last() =~= d + zeros(n - 1));
    } else {
        assert(d + zeros(0) =~= d);
    }
}

proof fn lemma_run_to(s: Seq<char>, p: int, q: int)
    requires
        0 <= p <= q <= s.len(),
        forall|k: int| p <= k < q ==> text::is_digit(#[trigger] s[k]),
        q < s.len() ==> !text::is_digit(s[q]),
    ensures
        text::digits_end(s, p) == q,
    decreases q - p,
{
    if p < q {
        lemma_run_to(s, p + 1, q);
    }
}

/// A number written with digits reads back.
proof fn lemma_plain_back(n: NumberView)
    requires
        canonical(n),
        n.digits.len() > 0,
        -323 <= n.point <= 309,
    ensures
        number_in(signed(n.neg, plain(n))) == Some(n),
        text::trimmed(signed(n.neg, plain(n))) == signed(n.neg, plain(n)),
{
    let s = signed(n.neg, plain(n));
    let b = plain(n);
    let d = n.digits;
    assert(text::is_digit(d[0]) && text::is_digit(d[d.len() - 1]));
    assert(text::is_digit(b[0])) by {
        if n.point > 0 {
            assert(b[0] == d[0]);
        }
    }
    assert(text::is_digit(b.last())) by {
        if n.point <= 0 {
            assert(b.last() == d.last());
        } else if d.len() <= n.point {
            if d.len() == n.point {
                assert(b =~= d);
            }
        } else {
            assert(b.last() == d.last());
        }
    }
    assert(unsigned(s) =~= b);
    assert(s.last() == b.last());
    text::lemma_trimmed_id(s);
    if n.point <= 0 {
        let z = zeros(-n.point);
        assert forall|k: int| 2 <= k < b.len() implies text::is_digit(#[trigger] b[k]) by {
            if k >= 2 + z.len() {
                assert(b[k] == d[k - 2 - z.len()]);
            }
        }
        lemma_run_to(b, 0, 1);
        lemma_run_to(b, 2, b.len() as int);
        let raw = mantissa(b);
        assert(raw =~= zeros(1 - n.point) + d);
        lemma_front_zeros(1 - n.point, d);
        lemma_back_zeros(d, 0);
        assert(d + zeros(0) =~= d);
    } else if d.len() <= n.point {
        assert forall|k: int| 0 <= k < b.len() implies text::is_digit(#[trigger] b[k]) by {
            if k < d.len() {
                assert(b[k] == d[k]);
            }
        }
        lemma_run_to(b, 0, b.len() as int);
        assert(mantissa(b) =~= b);
        assert(strip_front(b) == b);
        lemma_back_zeros(d, n.point - d.len());
    } else {
        let i = n.point;
        assert forall|k: int| 0 <= k < b.len() && k != i implies text::is_digit(#[trigger] b[k]) by {
            if k < i {
                assert(b[k] == d[k]);
            } else {
                assert(b[k] == d[k - 1]);
            }
        }
        lemma_run_to(b, 0, i);
        lemma_run_to(b, i + 1, b.len() as int);
        assert(mantissa(b) =~= d);
        assert(strip_front(d) == d);
        assert(strip_back(d) == d);
    }
}

/// What a double keeps of a number, it keeps of that again.
proof fn lemma_rounded_again(n: NumberView)
    requires
        canonical(n),
    ensures
        rounded(n) matches Some(d) ==> canonical(d) && -323 <= d.point <= 309 && rounded(d) == Some(d),
{
    if let Some(d) = rounded(n) {
        let bits = double::bits_of(n);
        if n.digits.len() > 0 && n.point >= -323 && !(n.digits.len() <= 15 && -306 <= n.point <= 308)
            && bits != 0 && double::decimal_of(bits) is Some {
            let k = double::decimal_of(bits)->0;
            double::lemma_decimal_of(bits);
            assert(double::bits_of(d) == double::bits_of(k));
        }
    }
}

/// Zero is shown as it is.
pub proof fn lemma_zero_shown()
    ensures
        text::is_float("0"@),
        text::trimmed("0"@) == "0"@,
        shown("0"@) == "0"@,
{
    reveal_strlit("0");
    let b = "0"@;
    lemma_run_to(b, 0, 1);
    assert(unsigned(b) == b);
    assert(mantissa(b) =~= seq!['0']);
    assert(seq!['0'].skip(1) =~= Seq::<char>::empty());
    assert(strip_front(seq!['0']) =~= Seq::<char>::empty()) by {
        reveal_with_fuel(strip_front, 2);
    }
    text::lemma_trimmed_id(b);
}

/// A number as it is shown is a number, has no white space around it and is shown as it is.
pub proof fn law_shown_is_stable(s: Seq<char>)
    requires
        text::is_float(s),
    ensures
        text::is_float(shown(s)),
        text::trimmed(shown(s)) == shown(s),
        shown(shown(s)) == shown(s),
{
    reveal_strlit("0");
    reveal_strlit("inf");
    reveal_strlit("infinity");
    reveal_strlit("nan");
    reveal_strlit("NaN");
    let t = shown(s);
    assert(unsigned(s) == if s.len() > 0 && (s[0] == '+' || s[0] == '-') {
        s.skip(1)
    } else {
        s
    });
    lemma_number_digits(s);
    let kept = match number_in(s) {
        Some(n) => rounded(n),
        None => None,
    };
    if number_in(s) is Some {
        lemma_rounded_again(number_in(s)->0);
    }
    if kept is Some && kept->0.digits.len() > 0 {
        lemma_plain_back(kept->0);
    } else if kept is Some {
        let b = unsigned(t);
        assert(b =~= "0"@);
        lemma_run_to(b, 0, 1);
        assert(mantissa(b) =~= seq!['0']);
        assert(seq!['0'].skip(1) =~= Seq::<char>::empty());
        assert(strip_front(seq!['0']) =~= Seq::<char>::empty()) by {
            reveal_with_fuel(strip_front, 2);
        }
        assert(number_in(t) is Some && number_in(t)->0.digits.len() == 0);
        assert(number_in(t)->0.neg == kept->0.neg);
        text::lemma_trimmed_id(t);
    } else {
        let b = unsigned(t);
        assert(b =~= "inf"@ || b =~= "NaN"@);
        assert(!text::is_digit(b[0]));
        lemma_run_to(b, 0, 0);
        assert(!text::is_number(b));
        assert(text::lower_text("inf"@) =~= "inf"@);
        assert(text::lower_text("NaN"@) =~= "nan"@);
        assert("inf"@ != "nan"@) by {
            assert("inf"@[0] != "nan"@[0]);
        }
        assert("infinity"@ != "nan"@) by {
            assert("infinity"@[0] != "nan"@[0]);
        }
        text::lemma_trimmed_id(t);
        assert(minus(t) ==> t[0] == '-');
    }
}

// ---- what numbers denote ----

/// A decimal number has the digits that it is written with, without the zeros at either end, and
/// its point where it is written; a minus sign in front makes it negative.
pub proof fn law_number_is_its_digits(a: Seq<char>, f: Seq<char>)
    requires
        a.len() > 0,
        forall|i: int| 0 <= i < a.len() ==> text::is_digit(#[trigger] a[i]),
        forall|i: int| 0 <= i < f.len() ==> text::is_digit(#[trigger] f[i]),
    ensures
        ({
            let front = strip_front(a + f);
            let n = NumberView {
                neg: false,
                digits: strip_back(front),
                point: a.len() - ((a + f).len() - front.len()),
            };
            &&& number_in(a + seq!['.'] + f) == Some(n)
            &&& number_in(seq!['-'] + (a + seq!['.'] + f)) == Some(NumberView { neg: true, ..n })
            &&& f.len() == 0 ==> number_in(a) == Some(n)
        }),
{
    let s = a + seq!['.'] + f;
    let k = a.len() as int;
    assert(s[k] == '.');
    assert forall|i: int| 0 <= i < s.len() && i != k implies text::is_digit(#[trigger] s[i]) by {
        if i < k {
            assert(s[i] == a[i]);
        } else {
            assert(s[i] == f[i - k - 1]);
        }
    }
    lemma_run_to(s, 0, k);
    lemma_run_to(s, k + 1, s.len() as int);
    assert(s[0] == a[0] && text::is_digit(a[0]));
    assert(unsigned(s) == s);
    if f.len() > 0 {
        assert(mantissa(s) =~= a + f);
    } else {
        assert(mantissa(s) =~= a + f);
        assert(a + f =~= a);
        lemma_run_to(a, 0, k);
        assert(unsigned(a) == a);
        assert(mantissa(a) =~= a);
    }
    let m = seq!['-'] + s;
    assert(m[0] == '-');
    assert(m.skip(1) =~= s);
}

/// The digits of a number lose exactly their zeros at an end.
pub proof fn law_stripped_of_zeros(s: Seq<char>)
    ensures
        s.len() > 0 && s[0] == '0' ==> strip_front(s) == strip_front(s.skip(1)),
        s.len() > 0 && s[0] != '0' ==> strip_front(s) == s,
        s.len() > 0 && s.last() == '0' ==> strip_back(s) == strip_back(s.drop_last()),
        s.len() > 0 && s.last() != '0' ==> strip_back(s) == s,
        s.len() == 0 ==> strip_front(s) == s && strip_back(s) == s,
{
}

/// A number of up to fifteen digits is shown as the very number that it is.
pub proof fn law_usual_number_is_kept(s: Seq<char>)
    requires
        number_in(s) matches Some(n) && 0 < n.digits.len() <= 15 && -306 <= n.point <= 308,
    ensures
        number_in(shown(s)) == number_in(s),
{
    lemma_number_digits(s);
    lemma_plain_back(number_in(s)->0);
}

/// In JSON a number from a ten-thousandth up has a point with a digit on either side of it; one that
/// is very small or has more than 16 digits before the point has one digit there, and the power of
/// ten behind an `e`.
pub proof fn law_number_in_json(n: NumberView)
    requires
        n.digits.len() > 0,
    ensures
        -4 <= n.point <= 16 && n.digits.len() > n.point ==> compact(n) == plain(n),
        -4 <= n.point <= 16 && n.digits.len() <= n.point ==> compact(n) == plain(n) + ".0"@,
        (n.point < -4 || n.point > 16) && n.digits.len() == 1 ==> compact(n) == n.digits
            + exponent_text(n.point - 1),
        (n.point < -4 || n.point > 16) && n.digits.len() > 1 ==> compact(n) == seq![n.digits[0], '.']
            + n.digits.skip(1) + exponent_text(n.point - 1),
        n.point > 16 ==> exponent_text(n.point - 1) == "e+"@ + text::decimal((n.point - 1) as nat),
        n.point < -4 ==> exponent_text(n.point - 1) == "e-"@ + text::decimal((1 - n.point) as nat),
{
    reveal_strlit("");
    reveal_strlit(".");
    assert(""@ =~= Seq::empty());
    if -4 <= n.point <= 16 {
        assert(plain(n) + ""@ =~= plain(n));
    } else if n.digits.len() == 1 {
        assert(n.digits.take(1) + ""@ =~= n.digits);
    } else {
        assert(n.digits.take(1) + ("."@ + n.digits.skip(1)) =~= seq![n.digits[0], '.']
            + n.digits.skip(1));
    }
}

/// Written out, a number has its digits in order, with the point behind as many of them as it says;
/// zeros fill the places before the first digit and behind the last one.
pub proof fn law_number_written_out(n: NumberView)
    requires
        n.digits.len() > 0,
    ensures
        0 < n.point < n.digits.len() ==> plain(n) == n.digits.take(n.point) + seq!['.']
            + n.digits.skip(n.point),
        n.point >= n.digits.len() ==> plain(n).len() == n.point && plain(n).take(
            n.digits.len() as int,
        ) == n.digits && forall|i: int|
            n.digits.len() <= i < n.point ==> #[trigger] plain(n)[i] == '0',
        n.point <= 0 ==> plain(n).len() == 2 - n.point + n.digits.len() && plain(n)[0] == '0'
            && plain(n)[1] == '.' && plain(n).skip(2 - n.point) == n.digits && forall|i: int|
            2 <= i < 2 - n.point ==> #[trigger] plain(n)[i] == '0',
{
    if n.point <= 0 {
        lemma_zeros(-n.point);
        assert(plain(n).skip(2 - n.point) =~= n.digits);
        assert forall|i: int| 2 <= i < 2 - n.point implies #[trigger] plain(n)[i] == '0' by {
            assert(plain(n)[i] == zeros(-n.point)[i - 2]);
        }
    } else if n.point >= n.digits.len() {
        let k = n.point - n.digits.len();
        lemma_zeros(k);
        assert(plain(n).take(n.digits.len() as int) =~= n.digits);
        assert forall|i: int| n.digits.len() <= i < n.point implies #[trigger] plain(n)[i] == '0' by {
            assert(plain(n)[i] == zeros(k)[i - n.digits.len()]);
        }
    }
}

proof fn lemma_zeros(n: int)
    requires
        n >= 0,
    ensures
        zeros(n).len() == n,
        forall|i: int| 0 <= i < n ==> #[trigger] zeros(n)[i] == '0',
{
}

} // verus!
