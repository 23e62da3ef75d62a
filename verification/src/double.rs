//! Numbers as computers keep them: in 64 bits, 53 of which hold digits.
//!
//! A double is `m` times two to the power of `k - 1074`, where `m` is less than two to the power of
//! 53, and at least two to the power of 52 unless `k` is 0. Its 64 bits, read as a whole number, are
//! `k` times two to the power of 52, plus `m`. Everything here is done with whole numbers.

use vstd::prelude::*;
use crate::natural::{power, Natural};
use crate::number::{self, NumberView};
use crate::text;

verus! {

/// Two to the power of 52.
pub const HIDDEN: u64 = 0x10_0000_0000_0000;

/// The bits of the double that is infinite.
pub const INFINITE: u64 = 0x7ff0_0000_0000_0000;

// ---- a fraction as a double ----

/// Whether `n` parts of `d` are less than 2^53 times two to the power of `k`.
pub open spec fn fits(n: nat, d: nat, k: nat) -> bool {
    n < (d * power(2, k)) * 0x20_0000_0000_0000
}

/// The least power of two from `k` on that leaves no more than 53 binary digits before the point;
/// 2046 where the number is too large for every one that a double has.
pub open spec fn scale(n: nat, d: nat, k: nat) -> nat
    decreases 2046 - k,
{
    if k >= 2046 || fits(n, d, k) {
        k
    } else {
        scale(n, d, k + 1)
    }
}

/// A fraction, rounded to the nearest whole number; halfway between two, to the even one.
pub open spec fn nearest(n: nat, d: nat) -> nat {
    let m = n / d;
    if 2 * n > d * (2 * m + 1) || (2 * n == d * (2 * m + 1) && m % 2 == 1) {
        m + 1
    } else {
        m
    }
}

/// The bits of the double that is nearest to the fraction of `a` and `b`.
pub open spec fn nearest_double(a: nat, b: nat) -> nat {
    let n = a * power(2, 1074);
    let k = scale(n, b, 0);
    if k >= 2046 {
        INFINITE as nat
    } else {
        k * HIDDEN as nat + nearest(n, b * power(2, k))
    }
}

/// Ten to the power of `e`, and 1 where `e` is negative.
pub open spec fn tens(e: int) -> nat {
    power(
        10,
        if e > 0 {
            e as nat
        } else {
            0
        },
    )
}

/// The bits of the double that is nearest to a number, without its sign.
pub open spec fn bits_of(n: NumberView) -> nat {
    let e = n.point - n.digits.len();
    nearest_double(text::digits_value(n.digits) * tens(e), tens(-e))
}

// ---- a double in decimal ----

/// A double as a fraction: its numerator, where the denominator is two to the power of 1074.
pub open spec fn numerator(bits: nat) -> nat {
    if bits < HIDDEN {
        bits
    } else {
        (bits % HIDDEN as nat + HIDDEN as nat) * power(2, (bits / HIDDEN as nat - 1) as nat)
    }
}

/// Whether the fraction of `a` and `b` is less than ten to the power of `p`.
pub open spec fn below(a: nat, b: nat, p: int) -> bool {
    a * tens(-p) < b * tens(p)
}

/// The least power of ten from `p` on that is larger than the fraction of `a` and `b`.
pub open spec fn top(a: nat, b: nat, p: int) -> int
    decreases 310 - p,
{
    if p >= 310 || below(a, b, p) {
        p
    } else {
        top(a, b, p + 1)
    }
}

/// The number that `c` is, times ten to the power of `e`.
pub open spec fn number_of(c: nat, e: int) -> NumberView {
    NumberView {
        neg: false,
        digits: number::strip_back(text::decimal(c)),
        point: text::decimal(c).len() + e,
    }
}

/// Whether a number denotes the double with the given bits.
pub open spec fn denotes(n: NumberView, bits: nat) -> bool {
    n.digits.len() > 0 && -323 <= n.point <= 309 && bits_of(n) == bits
}

/// How many units of ten to the power of `e` the fraction of `a` and `b` holds.
pub open spec fn units(a: nat, b: nat, e: int) -> nat {
    (a * tens(-e)) / (b * tens(e))
}

/// The number with the fewest digits, at least `n` of them, that denotes a double; of two such
/// numbers, the nearer one. The double is the fraction of `a` and `b`, and less than ten to the
/// power of `p`. Seventeen digits are always enough.
pub open spec fn shortest(a: nat, b: nat, bits: nat, p: int, n: nat) -> Option<NumberView>
    decreases 18 - n,
{
    let e = p - n;
    let c = units(a, b, e);
    let low = number_of(c, e);
    let high = number_of(c + 1, e);
    if n > 17 {
        None
    } else if denotes(low, bits) && denotes(high, bits) {
        if 2 * (a * tens(-e)) < (b * tens(e)) * (2 * c + 1) {
            Some(low)
        } else {
            Some(high)
        }
    } else if denotes(low, bits) {
        Some(low)
    } else if denotes(high, bits) {
        Some(high)
    } else {
        shortest(a, b, bits, p, n + 1)
    }
}

/// The number with the fewest digits that denotes a double.
pub open spec fn decimal_of(bits: nat) -> Option<NumberView> {
    let (a, b) = (numerator(bits), power(2, 1074));
    let p = top(a, b, -323);
    if below(a, b, p) {
        shortest(a, b, bits, p, 1)
    } else {
        None
    }
}

/// What is found for a double denotes it, and its digits neither begin nor end with a zero.
pub proof fn lemma_decimal_of(bits: nat)
    ensures
        decimal_of(bits) matches Some(n) ==> denotes(n, bits) && number::canonical(n),
{
    let (a, b) = (numerator(bits), power(2, 1074));
    lemma_shortest(a, b, bits, top(a, b, -323), 1);
}

proof fn lemma_shortest(a: nat, b: nat, bits: nat, p: int, n: nat)
    ensures
        shortest(a, b, bits, p, n) matches Some(x) ==> denotes(x, bits) && number::canonical(x),
    decreases 18 - n,
{
    let c = units(a, b, p - n);
    lemma_number_of(c, p - n);
    lemma_number_of(c + 1, p - n);
    if n <= 17 {
        lemma_shortest(a, b, bits, p, n + 1);
    }
}

proof fn lemma_number_of(c: nat, e: int)
    ensures
        number::canonical(number_of(c, e)),
{
    let s = text::decimal(c);
    text::lemma_decimal_digits(c);
    if c > 0 {
        text::lemma_decimal_first(c);
        number::lemma_strip_back(s);
    } else {
        lemma_zero_digits();
    }
}

// ---- computing ----

proof fn lemma_power_positive(b: nat, n: nat)
    requires
        b > 0,
    ensures
        power(b, n) > 0,
    decreases n,
{
    if n > 0 {
        lemma_power_positive(b, (n - 1) as nat);
        assert(b * power(b, (n - 1) as nat) > 0) by (nonlinear_arith)
            requires
                b > 0,
                power(b, (n - 1) as nat) > 0,
        ;
    }
}

proof fn lemma_power_sum(b: nat, m: nat, n: nat)
    ensures
        power(b, m + n) == power(b, m) * power(b, n),
    decreases m,
{
    if m > 0 {
        lemma_power_sum(b, (m - 1) as nat, n);
        let (x, y) = (power(b, (m - 1) as nat), power(b, n));
        assert(power(b, m + n) == b * power(b, (m + n - 1) as nat));
        assert(b * (x * y) == (b * x) * y) by (nonlinear_arith);
    } else {
        assert(power(b, 0) == 1);
        assert(1nat * power(b, n) == power(b, n)) by (nonlinear_arith);
    }
}

/// The largest whole number of times that `d` goes into `n`, where that is less than `cap`.
fn quotient(n: &Natural, d: &Natural, cap: u64) -> (r: u64)
    requires
        d@ > 0,
        cap > 0,
        n@ < d@ * cap as nat,
    ensures
        r == n@ / d@,
        r < cap,
{
    let mut low: u64 = 0;
    let mut high: u64 = cap;
    assert(d@ * 0nat == 0) by (nonlinear_arith);
    while high - low > 1
        invariant
            low < high <= cap,
            d@ > 0,
            d@ * low as nat <= n@ < d@ * high as nat,
        decreases high - low,
    {
        let mid = low + (high - low) / 2;
        if n.less(&d.times_plus(mid, 0)) {
            high = mid;
        } else {
            low = mid;
        }
    }
    proof {
        let rest = n@ - d@ * low as nat;
        assert(d@ * (low as nat + 1) == d@ * low as nat + d@) by (nonlinear_arith);
        assert(n@ == low as int * d@ as int + rest) by (nonlinear_arith)
            requires
                rest == n@ - d@ * low as nat,
        ;
        vstd::arithmetic::div_mod::lemma_fundamental_div_mod_converse(
            n@ as int,
            d@ as int,
            low as int,
            rest,
        );
    }
    low
}

fn round(n: &Natural, d: &Natural) -> (r: u64)
    requires
        d@ > 0,
        n@ < d@ * 0x20_0000_0000_0000,
    ensures
        r == nearest(n@, d@),
        r <= 0x20_0000_0000_0000,
{
    let m = quotient(n, d, 0x20_0000_0000_0000);
    let twice = n.times_plus(2, 0);
    let middle = d.times_plus(2 * m + 1, 0);
    if middle.less(&twice) || (!twice.less(&middle) && m % 2 == 1) {
        m + 1
    } else {
        m
    }
}

fn ratio_bits(a: &Natural, b: &Natural) -> (r: u64)
    requires
        b@ > 0,
    ensures
        r == nearest_double(a@, b@),
        r <= INFINITE,
{
    let n = a.times_power(2, 1074);
    let mut d = b.times_plus(1, 0);
    let mut k: u64 = 0;
    proof {
        assert(power(2, 0) == 1);
        assert(b@ * 1nat == b@) by (nonlinear_arith);
    }
    while k < 2046 && !n.less(&d.times_plus(0x20_0000_0000_0000, 0))
        invariant
            k <= 2046,
            d@ == b@ * power(2, k as nat),
            n@ == a@ * power(2, 1074),
            scale(n@, b@, 0) == scale(n@, b@, k as nat),
        decreases 2046 - k,
    {
        let ghost was = d@;
        d = d.times_plus(2, 0);
        proof {
            let p = power(2, k as nat);
            assert(power(2, (k + 1) as nat) == 2 * p);
            assert((b@ * p) * 2 == b@ * (2 * p)) by (nonlinear_arith);
        }
        k += 1;
    }
    if k >= 2046 {
        return INFINITE;
    }
    proof {
        lemma_power_positive(2, k as nat);
        assert(b@ * power(2, k as nat) > 0) by (nonlinear_arith)
            requires
                b@ > 0,
                power(2, k as nat) > 0,
        ;
    }
    k * HIDDEN + round(&n, &d)
}

fn power_of_ten(e: i128) -> (r: Natural)
    ensures
        r@ == tens(e as int),
        r@ > 0,
{
    let one = Natural::zero().times_plus(0, 1);
    let n: u128 = if e > 0 {
        e as u128
    } else {
        0
    };
    let r = one.times_power(10, n);
    proof {
        lemma_power_positive(10, n as nat);
        assert(1nat * power(10, n as nat) == power(10, n as nat)) by (nonlinear_arith);
    }
    r
}

/// `a` times ten to the power of `e`, and `a` where `e` is negative.
fn tens_of(a: &Natural, e: i128) -> (r: Natural)
    ensures
        r@ == a@ * tens(e as int),
{
    let n: u128 = if e > 0 {
        e as u128
    } else {
        0
    };
    a.times_power(10, n)
}

fn value_of(digits: &[char]) -> (r: Natural)
    requires
        forall|i: int| 0 <= i < digits@.len() ==> text::is_digit(#[trigger] digits@[i]),
    ensures
        r@ == text::digits_value(digits@),
{
    let mut out = Natural::zero();
    let mut i: usize = 0;
    assert(digits@.take(0) =~= Seq::<char>::empty());
    while i < digits.len()
        invariant
            i <= digits@.len(),
            forall|k: int| 0 <= k < digits@.len() ==> text::is_digit(#[trigger] digits@[k]),
            out@ == text::digits_value(digits@.take(i as int)),
        decreases digits@.len() - i,
    {
        let c = digits[i];
        proof {
            assert(text::is_digit(digits@[i as int]));
            assert(digits@.take(i + 1).drop_last() =~= digits@.take(i as int));
            assert(digits@.take(i + 1).last() == c);
        }
        out = out.times_plus(10, (c as u32 - 48) as u64);
        i += 1;
    }
    assert(digits@.take(i as int) =~= digits@);
    out
}

/// The bits of the double that is nearest to a number, without its sign.
pub fn to_bits(digits: &[char], point: i128) -> (r: u64)
    requires
        forall|i: int| 0 <= i < digits@.len() ==> text::is_digit(#[trigger] digits@[i]),
        -1000 <= point <= 1000,
    ensures
        forall|neg: bool|
            r == #[trigger] bits_of(NumberView { neg, digits: digits@, point: point as int }),
        r <= INFINITE,
{
    let e = point - digits.len() as i128;
    ratio_bits(&tens_of(&value_of(digits), e), &power_of_ten(-e))
}

/// A number of few digits.
pub struct Short {
    pub digits: Vec<char>,
    pub point: i128,
}

impl Short {
    /// The number.
    pub open spec fn number(self) -> NumberView {
        NumberView { neg: false, digits: self.digits@, point: self.point as int }
    }
}

fn short_of(c: u64, e: i128) -> (r: Short)
    requires
        -400 <= e <= 400,
    ensures
        r.number() == number_of(c as nat, e as int),
        number::canonical(r.number()) || c == 0,
        -1000 <= r.point <= 1000,
{
    let all = text::chars_of(text::decimal_text(c).as_str());
    proof {
        text::lemma_decimal_digits(c as nat);
        text::lemma_decimal_short(c as nat);
        if c > 0 {
            text::lemma_decimal_first(c as nat);
            number::lemma_strip_back(all@);
        }
    }
    let point = all.len() as i128 + e;
    let digits = number::without_back(&all);
    Short { digits, point }
}

fn short_denotes(s: &Short, bits: u64) -> (r: bool)
    requires
        forall|i: int| 0 <= i < s.digits@.len() ==> text::is_digit(#[trigger] s.digits@[i]),
        -1000 <= s.point <= 1000,
    ensures
        r == denotes(s.number(), bits as nat),
{
    if s.digits.len() == 0 || s.point < -323 || s.point > 309 {
        return false;
    }
    let got = to_bits(&s.digits, s.point);
    assert(got == bits_of(s.number()));
    got == bits
}

/// The part of a fraction before the point has no more digits than its size allows.
proof fn lemma_units_bound(a: nat, b: nat, p: int, n: nat)
    requires
        b > 0,
        below(a, b, p),
    ensures
        a * tens(-(p - n)) < (b * tens(p - n)) * power(10, n),
        b * tens(p - n) > 0,
{
    let e = p - n;
    lemma_power_positive(10, n);
    lemma_power_positive(
        10,
        if e > 0 {
            e as nat
        } else {
            0
        },
    );
    assert(power(10, 0) == 1);
    let (te, tn) = (tens(e), power(10, n));
    assert(b * te > 0) by (nonlinear_arith)
        requires
            b > 0,
            te > 0,
    ;
    if e >= 0 {
        lemma_power_sum(10, e as nat, n);
        assert(tens(p) == te * tn);
        assert(b * (te * tn) == (b * te) * tn) by (nonlinear_arith);
        assert(a * 1nat == a) by (nonlinear_arith);
    } else if p >= 0 {
        lemma_power_sum(10, p as nat, (n - p) as nat);
        let (x, y) = (power(10, p as nat), power(10, (n - p) as nat));
        lemma_power_positive(10, (n - p) as nat);
        assert(tens(-e) == y);
        assert(a * y < (b * x) * y) by (nonlinear_arith)
            requires
                a * 1nat < b * x,
                y > 0,
        ;
        assert((b * x) * y == (b * 1nat) * (x * y)) by (nonlinear_arith);
    } else {
        lemma_power_sum(10, (-p) as nat, n);
        let x = power(10, (-p) as nat);
        assert(tens(-e) == x * tn);
        assert(a * (x * tn) < (b * 1nat) * tn) by (nonlinear_arith)
            requires
                a * x < b * 1nat,
                tn > 0,
        ;
    }
}

fn least(a: &Natural, b: &Natural, bits: u64, p: i128) -> (r: Option<Short>)
    requires
        b@ > 0,
        -323 <= p <= 310,
        below(a@, b@, p as int),
    ensures
        match shortest(a@, b@, bits as nat, p as int, 1) {
            Some(n) => r matches Some(s) && s.number() == n && number::canonical(n) && denotes(
                n,
                bits as nat,
            ),
            None => r is None,
        },
{
    let mut n: i128 = 1;
    let mut cap: u64 = 10;
    assert(power(10, 1) == 10) by {
        reveal_with_fuel(power, 2);
    }
    while n <= 17
        invariant
            1 <= n <= 18,
            b@ > 0,
            -323 <= p <= 310,
            below(a@, b@, p as int),
            cap == power(10, n as nat),
            n <= 18,
            cap <= 1_000_000_000_000_000_000,
            n <= 17 ==> cap <= 100_000_000_000_000_000,
            n < 17 ==> cap * 10 <= 100_000_000_000_000_000,
            shortest(a@, b@, bits as nat, p as int, 1) == shortest(
                a@,
                b@,
                bits as nat,
                p as int,
                n as nat,
            ),
        decreases 18 - n,
    {
        let e = p - n;
        let x = tens_of(a, -e);
        let y = tens_of(b, e);
        proof {
            lemma_units_bound(a@, b@, p as int, n as nat);
        }
        let c = quotient(&x, &y, cap);
        let low = short_of(c, e);
        let high = short_of(c + 1, e);
        let by_low = c > 0 && short_denotes(&low, bits);
        let by_high = short_denotes(&high, bits);
        proof {
            if c == 0 {
                lemma_zero_digits();
            }
        }
        if by_low && by_high {
            return if x.times_plus(2, 0).less(&y.times_plus(2 * c + 1, 0)) {
                Some(low)
            } else {
                Some(high)
            };
        }
        if by_low {
            return Some(low);
        }
        if by_high {
            return Some(high);
        }
        proof {
            lemma_tens(n as nat);
        }
        cap = cap * 10;
        n += 1;
    }
    None
}

proof fn lemma_tens(n: nat)
    requires
        n <= 17,
    ensures
        power(10, n + 1) == 10 * power(10, n),
        n < 16 ==> power(10, n) * 100 <= 100_000_000_000_000_000,
        power(10, n) <= 100_000_000_000_000_000,
    decreases n,
{
    reveal_with_fuel(power, 19);
}

proof fn lemma_zero_digits()
    ensures
        number::strip_back(text::decimal(0)).len() == 0,
{
    assert(text::decimal(0) =~= seq!['0']);
    assert(seq!['0'].drop_last() =~= Seq::<char>::empty());
    reveal_with_fuel(number::strip_back, 2);
}

fn halves() -> (r: Natural)
    ensures
        r@ == power(2, 1074),
        r@ > 0,
{
    let one = Natural::zero().times_plus(0, 1);
    proof {
        lemma_power_positive(2, 1074);
        assert(1nat * power(2, 1074) == power(2, 1074)) by (nonlinear_arith);
    }
    one.times_power(2, 1074)
}

fn numerator_of(bits: u64) -> (r: Natural)
    ensures
        r@ == numerator(bits as nat),
{
    let zero = Natural::zero();
    if bits < HIDDEN {
        zero.times_plus(0, bits)
    } else {
        let m = bits % HIDDEN + HIDDEN;
        zero.times_plus(0, m).times_power(2, (bits / HIDDEN - 1) as u128)
    }
}

/// The number with the fewest digits that denotes a double.
pub fn from_bits(bits: u64) -> (r: Option<Short>)
    ensures
        match decimal_of(bits as nat) {
            Some(n) => r matches Some(s) && s.number() == n && number::canonical(n) && denotes(
                n,
                bits as nat,
            ),
            None => r is None,
        },
{
    let a = numerator_of(bits);
    let b = halves();
    let mut p: i128 = -323;
    let mut under = tens_of(&a, 323).less(&tens_of(&b, -323));
    while p < 310 && !under
        invariant
            -323 <= p <= 310,
            b@ == power(2, 1074),
            a@ == numerator(bits as nat),
            under == below(a@, b@, p as int),
            top(a@, b@, -323) == top(a@, b@, p as int),
        decreases 310 - p,
    {
        p += 1;
        under = tens_of(&a, -p).less(&tens_of(&b, p));
    }
    if !under {
        return None;
    }
    least(&a, &b, bits, p)
}

// ---- what rounding means ----

/// A fraction is rounded to a whole number that is no more than half off; halfway between two, to
/// the even one.
pub proof fn law_rounded_to_the_nearest(n: nat, d: nat)
    requires
        d > 0,
    ensures
        ({
            let off = 2 * n - 2 * (d * nearest(n, d));
            &&& -(d as int) <= off <= d
            &&& off == d || off == -(d as int) ==> nearest(n, d) % 2 == 0
        }),
{
    let m = n / d;
    vstd::arithmetic::div_mod::lemma_fundamental_div_mod(n as int, d as int);
    assert(d * (2 * m + 1) == 2 * (d * m) + d) by (nonlinear_arith);
    assert(d * (m + 1) == d * m + d) by (nonlinear_arith);
}

/// The power of two of a double is the least that leaves 53 binary digits before the point.
pub proof fn law_least_power_of_two(n: nat, d: nat, k: nat)
    requires
        k <= 2046,
    ensures
        k <= scale(n, d, k) <= 2046,
        scale(n, d, k) < 2046 ==> fits(n, d, scale(n, d, k)),
        forall|j: nat| k <= j < scale(n, d, k) ==> !#[trigger] fits(n, d, j),
    decreases 2046 - k,
{
    if k < 2046 && !fits(n, d, k) {
        law_least_power_of_two(n, d, k + 1);
    }
}

/// Of the numbers that denote a double, none with fewer digits was passed over: with fewer digits,
/// neither the number below nor the one above denotes it.
pub proof fn law_fewest_digits(a: nat, b: nat, bits: nat, p: int, n: nat)
    requires
        1 <= n <= 17,
    ensures
        match shortest(a, b, bits, p, n) {
            Some(x) => denotes(x, bits) && exists|k: nat|
                #![trigger units(a, b, p - k)]
                n <= k <= 17 && (x == number_of(units(a, b, p - k), p - k) || x == number_of(
                    units(a, b, p - k) + 1,
                    p - k,
                )) && forall|j: nat|
                    n <= j < k ==> !denotes(number_of(#[trigger] units(a, b, p - j), p - j), bits)
                        && !denotes(number_of(units(a, b, p - j) + 1, p - j), bits),
            None => forall|j: nat|
                n <= j <= 17 ==> !denotes(number_of(#[trigger] units(a, b, p - j), p - j), bits)
                    && !denotes(number_of(units(a, b, p - j) + 1, p - j), bits),
        },
    decreases 18 - n,
{
    let c = units(a, b, p - n);
    let low = number_of(c, p - n);
    let high = number_of(c + 1, p - n);
    if !denotes(low, bits) && !denotes(high, bits) {
        if n < 17 {
            law_fewest_digits(a, b, bits, p, n + 1);
        } else {
            assert(shortest(a, b, bits, p, 18) is None);
        }
    }
}

} // verus!
