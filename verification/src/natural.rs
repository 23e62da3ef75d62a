//! Natural numbers of any size.

use vstd::prelude::*;

verus! {

/// One more than the largest limb.
pub const BASE: u64 = 0x1_0000_0000;

/// A natural number, as limbs of 32 bits, the lowest first.
#[derive(Debug)]
pub struct Natural {
    limbs: Vec<u32>,
}

/// What the limbs from `i` on denote.
spec fn value_from(s: Seq<u32>, i: int) -> nat
    decreases s.len() - i,
{
    if 0 <= i < s.len() {
        s[i] as nat + BASE as nat * value_from(s, i + 1)
    } else {
        0
    }
}

/// A power of a natural number.
pub open spec fn power(b: nat, n: nat) -> nat
    decreases n,
{
    if n == 0 {
        1
    } else {
        b * power(b, (n - 1) as nat)
    }
}

impl View for Natural {
    type V = nat;

    closed spec fn view(&self) -> nat {
        value_from(self.limbs@, 0)
    }
}

proof fn lemma_push(s: Seq<u32>, x: u32, i: int)
    requires
        0 <= i <= s.len(),
    ensures
        value_from(s.push(x), i) == value_from(s, i) + x as nat * power(
            BASE as nat,
            (s.len() - i) as nat,
        ),
    decreases s.len() - i,
{
    let t = s.push(x);
    if i < s.len() {
        lemma_push(s, x, i + 1);
        let p = power(BASE as nat, (s.len() - i - 1) as nat);
        assert(power(BASE as nat, (s.len() - i) as nat) == BASE as nat * p);
        assert(t[i] == s[i]);
        let rest = value_from(s, i + 1);
        assert(value_from(t, i) == s[i] as nat + BASE as nat * value_from(t, i + 1));
        assert(value_from(s, i) == s[i] as nat + BASE as nat * rest);
        assert(BASE as nat * (rest + x as nat * p) == BASE as nat * rest + x as nat * (BASE as nat
            * p)) by (nonlinear_arith);
    } else {
        assert(value_from(t, i + 1) == 0);
        assert(t[i] == x);
        assert(value_from(s, i) == 0);
        assert(value_from(t, i) == x as nat + BASE as nat * 0);
        assert(power(BASE as nat, 0) == 1);
        assert(x as nat * power(BASE as nat, (s.len() - i) as nat) == x as nat);
    }
}

/// Two numbers that differ behind a limb differ the same way with it.
proof fn lemma_less_below(a: Seq<u32>, b: Seq<u32>, i: int)
    requires
        0 <= i,
        value_from(a, i) < value_from(b, i),
    ensures
        value_from(a, 0) < value_from(b, 0),
    decreases i,
{
    if i > 0 {
        let (x, y) = (value_from(a, i), value_from(b, i));
        assert(value_from(a, i - 1) < value_from(b, i - 1)) by {
            assert(i - 1 < b.len()) by {
                if i > b.len() {
                    assert(y == 0);
                }
            }
            assert(BASE as nat * y >= BASE as nat * (x + 1)) by (nonlinear_arith)
                requires
                    y >= x + 1,
            ;
            assert(value_from(b, i - 1) >= BASE as nat * y);
            if i - 1 < a.len() {
                assert(value_from(a, i - 1) == a[i - 1] as nat + BASE as nat * x);
            }
        }
        lemma_less_below(a, b, i - 1);
    }
}

impl Natural {
    /// Zero.
    pub fn zero() -> (r: Self)
        ensures
            r@ == 0,
    {
        Natural { limbs: Vec::new() }
    }

    /// The number, times `by`, plus `add`.
    pub fn times_plus(&self, by: u64, add: u64) -> (r: Self)
        ensures
            r@ == self@ * by as nat + add as nat,
    {
        let ghost old = self.limbs@;
        let ghost total = self@ * by as nat + add as nat;
        let mut out: Vec<u32> = Vec::new();
        let mut carry: u128 = add as u128;
        let mut i: usize = 0;
        proof {
            assert(power(BASE as nat, 0) == 1);
            assert(by as nat * value_from(old, 0) == self@ * by as nat) by (nonlinear_arith)
                requires
                    self@ == value_from(old, 0),
            ;
        }
        while i < self.limbs.len()
            invariant
                i <= self.limbs@.len(),
                out@.len() == i,
                old == self.limbs@,
                carry <= u64::MAX,
                value_from(out@, 0) + power(BASE as nat, i as nat) * (carry as nat + by as nat
                    * value_from(old, i as int)) == total,
            decreases self.limbs@.len() - i,
        {
            let limb = self.limbs[i] as u128;
            proof {
                assert(limb * by as u128 <= 0xffff_ffff * 0xffff_ffff_ffff_ffff) by (nonlinear_arith)
                    requires
                        limb <= 0xffff_ffff,
                        by <= 0xffff_ffff_ffff_ffff,
                ;
            }
            let t: u128 = limb * by as u128 + carry;
            let low = (t % 0x1_0000_0000) as u32;
            let next = t / 0x1_0000_0000;
            proof {
                let p = power(BASE as nat, i as nat);
                let rest = value_from(old, i + 1);
                lemma_push(out@, low, 0);
                assert(power(BASE as nat, (i + 1) as nat) == BASE as nat * p);
                assert(value_from(old, i as int) == limb as nat + BASE as nat * rest);
                assert(low as nat * p + (BASE as nat * p) * (next as nat + by as nat * rest) == p * (
                carry as nat + by as nat * (limb as nat + BASE as nat * rest))) by (nonlinear_arith)
                    requires
                        low as nat + BASE as nat * next as nat == limb as nat * by as nat
                            + carry as nat,
                ;
                assert(next <= u64::MAX) by (nonlinear_arith)
                    requires
                        t <= 0xffff_ffff * 0xffff_ffff_ffff_ffff + 0xffff_ffff_ffff_ffff,
                        next == t / 0x1_0000_0000,
                ;
            }
            out.push(low);
            carry = next;
            i += 1;
        }
        proof {
            assert(value_from(old, i as int) == 0);
            assert(by as nat * 0nat == 0);
        }
        while carry > 0
            invariant
                value_from(out@, 0) + power(BASE as nat, out@.len()) * carry as nat == total,
            decreases carry,
        {
            let low = (carry % 0x1_0000_0000) as u32;
            let next = carry / 0x1_0000_0000;
            proof {
                let p = power(BASE as nat, out@.len());
                lemma_push(out@, low, 0);
                assert(power(BASE as nat, (out@.len() + 1) as nat) == BASE as nat * p);
                assert(low as nat * p + (BASE as nat * p) * next as nat == p * carry as nat)
                    by (nonlinear_arith)
                    requires
                        low as nat + BASE as nat * next as nat == carry as nat,
                ;
            }
            out.push(low);
            carry = next;
        }
        proof {
            assert(power(BASE as nat, out@.len()) * 0nat == 0) by (nonlinear_arith);
        }
        Natural { limbs: out }
    }

    /// The number, times a power of `by`.
    pub fn times_power(&self, by: u64, n: u128) -> (r: Self)
        ensures
            r@ == self@ * power(by as nat, n as nat),
    {
        let mut out = self.times_plus(1, 0);
        let mut i: u128 = 0;
        while i < n
            invariant
                i <= n,
                out@ == self@ * power(by as nat, i as nat),
            decreases n - i,
        {
            let ghost was = out@;
            out = out.times_plus(by, 0);
            proof {
                let p = power(by as nat, i as nat);
                assert(power(by as nat, (i + 1) as nat) == by as nat * p);
                assert((self@ * p) * by as nat == self@ * (by as nat * p)) by (nonlinear_arith);
            }
            i += 1;
        }
        out
    }

    fn limb(&self, i: usize) -> (r: u32)
        ensures
            value_from(self.limbs@, i as int) == r as nat + BASE as nat * value_from(
                self.limbs@,
                i + 1,
            ),
    {
        if i < self.limbs.len() {
            self.limbs[i]
        } else {
            0
        }
    }

    /// Whether the number is less than another one.
    pub fn less(&self, other: &Natural) -> (r: bool)
        ensures
            r == (self@ < other@),
    {
        let mut i: usize = if self.limbs.len() > other.limbs.len() {
            self.limbs.len()
        } else {
            other.limbs.len()
        };
        while i > 0
            invariant
                value_from(self.limbs@, i as int) == value_from(other.limbs@, i as int),
            decreases i,
        {
            let ghost rest = value_from(self.limbs@, i as int);
            let a = self.limb(i - 1);
            let b = other.limb(i - 1);
            if a < b {
                proof {
                    lemma_less_below(self.limbs@, other.limbs@, i - 1);
                }
                return true;
            }
            if b < a {
                proof {
                    lemma_less_below(other.limbs@, self.limbs@, i - 1);
                }
                return false;
            }
            i -= 1;
        }
        false
    }
}

} // verus!
