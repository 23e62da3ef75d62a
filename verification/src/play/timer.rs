//! Time limits of a game.
//!
//! A time limit is given in seconds, as the number that it is; a clock counts nanoseconds. The
//! human's clock runs in steps ([`Clock::tick`]) while it is the human's turn; the engine's clock
//! is charged once per move with the time that it took ([`Clock::on_engine_move`]). In byo-yomi the
//! main time is followed by periods: a move within the period costs nothing, a move beyond it uses
//! the period up, and the side whose last period is used up has lost.

use vstd::prelude::*;
use crate::board::Stone;
use crate::natural::power;
use crate::number::NumberView;
use crate::text::{self, push_decimal};

verus! {

/// A second.
pub const SECOND: u64 = 1_000_000_000;

/// What the engine's budget keeps back.
pub const BUDGET_MARGIN: u128 = 800_000_000;

/// The smallest budget.
pub const MIN_BUDGET: u128 = 200_000_000;

/// A number of seconds: `digits`, times ten to the power of `power`, less than none where `neg` says
/// so. The digits do not end with a zero unless they are zero.
#[derive(Clone, Copy, PartialEq, Eq, Structural, Debug)]
pub struct Seconds {
    pub neg: bool,
    pub digits: u64,
    pub power: i32,
}

impl Seconds {
    /// The seconds in nanoseconds: `down` to a whole number of them or up; less than none is none.
    pub open spec fn nanos_spec(self, down: bool) -> nat {
        let e = self.power + 9;
        if self.neg {
            0
        } else if e >= 0 {
            self.digits as nat * power(10, e as nat)
        } else if down {
            self.digits as nat / power(10, (-e) as nat)
        } else {
            (self.digits as nat + power(10, (-e) as nat) - 1) as nat / power(10, (-e) as nat)
        }
    }

    /// The time that a clock shows at the start: no part of a nanosecond is lost, and what is too much
    /// is the most there is.
    pub open spec fn clock_spec(self) -> u128 {
        capped_nanos(self.nanos_spec(false))
    }

    /// The number of seconds that a decimal number is, where its digits fit.
    pub open spec fn of(n: NumberView) -> Seconds {
        let v = text::digits_value(n.digits);
        if n.digits.len() == 0 {
            Seconds { neg: false, digits: 0, power: 0 }
        } else {
            Seconds {
                neg: n.neg,
                digits: if v <= u64::MAX {
                    v as u64
                } else {
                    u64::MAX
                },
                power: (n.point - n.digits.len()) as i32,
            }
        }
    }

    /// A whole number of seconds.
    pub fn whole(n: u64) -> (r: Self)
        ensures
            !r.neg,
            r.digits as nat * power(10, r.power as nat) == n,
            r.power >= 0,
            n > 0 ==> r.digits % 10 != 0,
            n == 0 ==> r == (Seconds { neg: false, digits: 0, power: 0 }),
    {
        let mut digits = n;
        let mut zeros: i32 = 0;
        assert(power(10, 0) == 1);
        assert(n as nat * 1nat == n as nat) by (nonlinear_arith);
        while digits > 0 && digits % 10 == 0
            invariant
                0 <= zeros,
                zeros + digits <= n,
                n == 0 ==> digits == 0 && zeros == 0,
                n > 0 ==> digits > 0,
                digits as nat * power(10, zeros as nat) == n,
                power(10, zeros as nat) > zeros,
            decreases digits,
        {
            let ghost was = digits;
            digits = digits / 10;
            proof {
                let p = power(10, zeros as nat);
                assert(power(10, (zeros + 1) as nat) == 10 * p);
                assert(digits as nat * (10 * p) == was as nat * p) by (nonlinear_arith)
                    requires
                        was == digits * 10,
                ;
                lemma_few_zeros(zeros as nat, was, n);
            }
            zeros += 1;
        }
        Seconds { neg: false, digits, power: zeros }
    }

    /// The seconds in nanoseconds, down to a whole number of them or up.
    fn nanos(self, down: bool) -> (r: u128)
        ensures
            r == capped_nanos(self.nanos_spec(down)),
    {
        if self.neg || self.digits == 0 {
            proof {
                self.lemma_zero(down);
            }
            return 0;
        }
        let e = self.power as i64 + 9;
        let mut v = self.digits as u128;
        if e >= 0 {
            let mut i: i64 = 0;
            let ghost d = self.digits as nat;
            assert(power(10, 0) == 1);
            assert(d * 1nat == d) by (nonlinear_arith);
            while i < e
                invariant
                    0 <= i <= e,
                    !self.neg,
                    e == self.power + 9,
                    d == self.digits as nat,
                    d > 0,
                    v > 0,
                    v == d * power(10, i as nat),
                decreases e - i,
            {
                proof {
                    let p = power(10, i as nat);
                    assert(power(10, (i + 1) as nat) == 10 * p);
                    assert((d * p) * 10 == d * (10 * p)) by (nonlinear_arith);
                }
                if v > u128::MAX / 10 {
                    proof {
                        lemma_more(d, (i + 1) as nat, e as nat);
                    }
                    return u128::MAX;
                }
                v = v * 10;
                i += 1;
            }
            return v;
        }
        let n = -e;
        if n > 20 {
            proof {
                lemma_power_twenty(n as nat);
                vstd::arithmetic::div_mod::lemma_basic_div(self.digits as int, power(10, n as nat) as int);
                let (d, p) = (self.digits as nat, power(10, n as nat));
                assert((d + p - 1) as int == 1 * p + (d - 1)) by (nonlinear_arith);
                vstd::arithmetic::div_mod::lemma_fundamental_div_mod_converse(
                    (d + p - 1) as int,
                    p as int,
                    1,
                    d - 1,
                );
            }
            return if down {
                0
            } else {
                1
            };
        }
        let mut unit: u128 = 1;
        let mut i: i64 = 0;
        assert(power(10, 0) == 1);
        while i < n
            invariant
                0 <= i <= n <= 20,
                unit == power(10, i as nat),
            decreases n - i,
        {
            proof {
                lemma_small_power(i as nat);
            }
            unit = unit * 10;
            i += 1;
        }
        proof {
            lemma_small_power(n as nat);
        }
        if down {
            v / unit
        } else {
            (v + unit - 1) / unit
        }
    }

    proof fn lemma_zero(self, down: bool)
        requires
            self.neg || self.digits == 0,
        ensures
            self.nanos_spec(down) == 0,
    {
        let e = self.power + 9;
        if e >= 0 {
            assert(0nat * power(10, e as nat) == 0) by (nonlinear_arith);
        } else {
            let p = power(10, (-e) as nat);
            lemma_ten_positive((-e) as nat);
            if self.digits == 0 {
                vstd::arithmetic::div_mod::lemma_basic_div(0, p as int);
                vstd::arithmetic::div_mod::lemma_basic_div(p - 1, p as int);
            }
        }
    }

    /// The time that a clock shows at the start.
    pub fn clock_time(self) -> (r: u128)
        ensures
            r == self.clock_spec(),
    {
        self.nanos(false)
    }

    /// The seconds in whole nanoseconds; what is too much is the most there is.
    pub fn whole_nanos(self) -> (r: u128)
        ensures
            r == capped_nanos(self.nanos_spec(true)),
    {
        self.nanos(true)
    }
}

/// A time, or the most there is.
pub open spec fn capped_nanos(n: nat) -> u128 {
    if n <= u128::MAX {
        n as u128
    } else {
        u128::MAX
    }
}

pub(crate) proof fn lemma_ten_positive(n: nat)
    ensures
        power(10, n) > 0,
    decreases n,
{
    if n > 0 {
        lemma_ten_positive((n - 1) as nat);
    }
}

proof fn lemma_more(d: nat, i: nat, n: nat)
    requires
        i <= n,
    ensures
        d * power(10, i) <= d * power(10, n),
    decreases n - i,
{
    if i < n {
        lemma_more(d, i + 1, n);
        let p = power(10, i);
        assert(d * p <= d * (10 * p)) by (nonlinear_arith);
    }
}

proof fn lemma_small_power(n: nat)
    requires
        n <= 20,
    ensures
        power(10, n + 1) == 10 * power(10, n),
        0 < power(10, n) <= 100_000_000_000_000_000_000,
{
    reveal_with_fuel(power, 22);
}

proof fn lemma_power_twenty(n: nat)
    requires
        n >= 20,
    ensures
        power(10, n) >= 100_000_000_000_000_000_000,
    decreases n,
{
    if n == 20 {
        reveal_with_fuel(power, 22);
    } else {
        lemma_power_twenty((n - 1) as nat);
    }
}

proof fn lemma_few_zeros(zeros: nat, digits: u64, n: u64)
    requires
        digits as nat * power(10, zeros) == n,
        digits >= 10,
    ensures
        zeros < 100,
        power(10, zeros + 1) > zeros + 1,
        zeros + 1 + digits / 10 <= n,
{
    lemma_ten_positive(zeros);
    if zeros >= 20 {
        lemma_power_twenty(zeros);
        assert(digits as nat * power(10, zeros) >= 100_000_000_000_000_000_000) by (nonlinear_arith)
            requires
                digits >= 1,
                power(10, zeros) >= 100_000_000_000_000_000_000,
        ;
    }
    lemma_power_grows(zeros + 1);
    lemma_power_grows(zeros);
    let p = power(10, zeros);
    assert(digits as nat * p >= p + digits - 1) by (nonlinear_arith)
        requires
            digits >= 1,
            p >= 1,
    ;
}

proof fn lemma_power_grows(n: nat)
    ensures
        power(10, n) > n,
    decreases n,
{
    if n > 0 {
        lemma_power_grows((n - 1) as nat);
    }
}

/// The time limit of a game.
#[derive(Clone, Copy, PartialEq, Eq, Structural, Debug)]
pub enum TimeSystem {
    /// No limit.
    Unlimited,
    /// A total for each side.
    Absolute { seconds: Seconds },
    /// A main time for each side, and a number of periods behind it.
    Byoyomi { main_seconds: Seconds, period_seconds: Seconds, periods: u32 },
}

/// The clock of one side.
#[derive(Clone, Copy, PartialEq, Eq, Structural, Debug)]
pub struct SideClock {
    /// The main time that is left; `None` without a limit.
    pub main: Option<u128>,
    /// What is left of the current period; 0 while there is main time.
    pub period: u128,
    /// The periods that are left, the current one among them.
    pub periods_left: u32,
}

impl TimeSystem {
    /// The name shown to the user.
    pub open spec fn name_spec(self) -> Seq<char> {
        match self {
            TimeSystem::Unlimited => "无限制"@,
            TimeSystem::Absolute { .. } => "包干制"@,
            TimeSystem::Byoyomi { .. } => "读秒制"@,
        }
    }

    /// The length of a period, where there are periods.
    pub open spec fn period_spec(self) -> Option<u128> {
        match self {
            TimeSystem::Byoyomi { period_seconds, .. } => Some(period_seconds.clock_spec()),
            _ => None,
        }
    }

    /// The clock of a side at the start.
    pub open spec fn initial_spec(self) -> SideClock {
        match self {
            TimeSystem::Unlimited => SideClock { main: None, period: 0, periods_left: 0 },
            TimeSystem::Absolute { seconds } => SideClock {
                main: Some(seconds.clock_spec()),
                period: 0,
                periods_left: 0,
            },
            TimeSystem::Byoyomi { main_seconds, period_seconds, periods } => SideClock {
                main: Some(main_seconds.clock_spec()),
                period: if main_seconds.clock_spec() == 0 {
                    period_seconds.clock_spec()
                } else {
                    0
                },
                periods_left: periods,
            },
        }
    }

    /// The name shown to the user.
    pub fn name(self) -> (r: &'static str)
        ensures
            r@ == self.name_spec(),
    {
        match self {
            TimeSystem::Unlimited => "无限制",
            TimeSystem::Absolute { .. } => "包干制",
            TimeSystem::Byoyomi { .. } => "读秒制",
        }
    }

    /// The length of a period, where there are periods.
    pub fn period_time(self) -> (r: Option<u128>)
        ensures
            r == self.period_spec(),
    {
        match self {
            TimeSystem::Byoyomi { period_seconds, .. } => Some(period_seconds.clock_time()),
            _ => None,
        }
    }

    /// The clock of a side at the start. Without main time, the first period runs at once.
    pub fn initial_side(self) -> (r: SideClock)
        ensures
            r == self.initial_spec(),
    {
        match self {
            TimeSystem::Unlimited => SideClock { main: None, period: 0, periods_left: 0 },
            TimeSystem::Absolute { seconds } => SideClock {
                main: Some(seconds.clock_time()),
                period: 0,
                periods_left: 0,
            },
            TimeSystem::Byoyomi { main_seconds, period_seconds, periods } => {
                let main = main_seconds.clock_time();
                SideClock {
                    main: Some(main),
                    period: if main == 0 {
                        period_seconds.clock_time()
                    } else {
                        0
                    },
                    periods_left: periods,
                }
            },
        }
    }
}

impl Default for TimeSystem {
    fn default() -> (r: Self)
        ensures
            r == TimeSystem::Unlimited,
    {
        TimeSystem::Unlimited
    }
}

impl SideClock {
    /// Whether the side is in its periods.
    pub open spec fn counting(self) -> bool {
        self.main == Some(0u128) && self.periods_left > 0
    }

    /// The time that the side can still use; `None` without a limit.
    pub open spec fn usable_spec(self) -> Option<u128> {
        match self.main {
            None => None,
            Some(m) => if self.counting() {
                Some(self.period)
            } else {
                Some(m)
            },
        }
    }

    /// Whether the side is in its periods.
    pub fn in_byoyomi(&self) -> (r: bool)
        ensures
            r == self.counting(),
    {
        match self.main {
            Some(m) => m == 0 && self.periods_left > 0,
            None => false,
        }
    }

    /// The time that the side can still use: the current period once the main time is used up.
    /// `None` without a limit.
    pub fn usable(&self) -> (r: Option<u128>)
        ensures
            r == self.usable_spec(),
    {
        match self.main {
            None => None,
            Some(m) => {
                if self.in_byoyomi() {
                    Some(self.period)
                } else {
                    Some(m)
                }
            },
        }
    }
}

/// The time that the engine is given.
#[derive(Clone, Copy, PartialEq, Eq, Structural, Debug)]
pub struct TimeBudget {
    pub max_time: u128,
    /// The time that its side could still use.
    pub remaining: Option<u128>,
}

/// The time that the engine is given: what its side can still use without a margin, and never
/// less than a minimum. `None` without a limit.
pub fn engine_budget(clock: &SideClock) -> (r: Option<TimeBudget>)
    ensures
        r is None == clock.usable_spec() is None,
        r matches Some(b) ==> {
            &&& b.remaining == clock.usable_spec()
            &&& b.max_time == if clock.usable_spec()->0 - BUDGET_MARGIN > MIN_BUDGET {
                (clock.usable_spec()->0 - BUDGET_MARGIN) as u128
            } else {
                MIN_BUDGET
            }
        },
{
    let remaining = match clock.usable() {
        Some(t) => t,
        None => {
            return None;
        },
    };
    let max_time = if remaining > BUDGET_MARGIN && remaining - BUDGET_MARGIN > MIN_BUDGET {
        remaining - BUDGET_MARGIN
    } else {
        MIN_BUDGET
    };
    Some(TimeBudget { max_time, remaining: Some(remaining) })
}

// ---- running down ----

/// What the periods come to when the current one is used up and `over` goes beyond it: what is
/// left of the next period, the periods left, and whether the last one was used up.
pub open spec fn used_up(left: int, full: int, over: int) -> (int, int, bool) {
    if left <= 1 || over >= (left - 1) * full {
        (0, 0, true)
    } else {
        (full - over % full, left - 1 - over / full, false)
    }
}

/// What a period and the periods behind it come to after `dt`: what is left of the period, the
/// periods left, and whether the last one was used up.
pub open spec fn run_down(period: int, left: int, full: int, dt: int) -> (int, int, bool) {
    if dt < period {
        (period - dt, left, false)
    } else {
        used_up(left, full, dt - period)
    }
}

/// A side's clock with its main time used up and its periods run down.
pub open spec fn counted(c: SideClock, period: u128, full: u128, dt: int) -> (SideClock, bool) {
    let (p, l, lost) = run_down(period as int, c.periods_left as int, full as int, dt);
    (SideClock { main: Some(0u128), period: p as u128, periods_left: l as u32 }, lost)
}

/// A side's clock after `dt`, and whether its time is over.
pub open spec fn ticked(system: TimeSystem, c: SideClock, dt: u64) -> (SideClock, bool) {
    if dt == 0 {
        (c, false)
    } else {
        match c.main {
            None => (c, false),
            Some(m) => if dt < m {
                (SideClock { main: Some((m - dt) as u128), ..c }, false)
            } else {
                match system.period_spec() {
                    None => (SideClock { main: Some(0u128), ..c }, true),
                    Some(full) => if m == 0 {
                        counted(c, c.period, full, dt as int)
                    } else if c.periods_left == 0 {
                        (SideClock { main: Some(0u128), ..c }, dt > m)
                    } else if dt == m {
                        (SideClock { main: Some(0u128), period: full, ..c }, false)
                    } else {
                        counted(c, full, full, dt - m)
                    },
                }
            },
        }
    }
}

/// A side's clock after a move of the human: the next move has a whole period again.
pub open spec fn refreshed(system: TimeSystem, c: SideClock) -> SideClock {
    match system.period_spec() {
        Some(full) => if c.counting() {
            SideClock { period: full, ..c }
        } else {
            c
        },
        None => c,
    }
}

/// A side's clock after a move that took the engine `think`.
pub open spec fn charged(system: TimeSystem, c: SideClock, think: u64) -> SideClock {
    match c.main {
        None => c,
        Some(m) => if m > think {
            SideClock { main: Some((m - think) as u128), ..c }
        } else {
            match system.period_spec() {
                None => SideClock { main: Some(0u128), ..c },
                Some(full) => if m > 0 {
                    SideClock {
                        main: Some(0u128),
                        period: if c.periods_left > 0 {
                            full
                        } else {
                            c.period
                        },
                        ..c
                    }
                } else {
                    let left = if think > c.period && c.periods_left > 0 {
                        (c.periods_left - 1) as u32
                    } else {
                        c.periods_left
                    };
                    SideClock {
                        period: if left > 0 {
                            full
                        } else {
                            0
                        },
                        periods_left: left,
                        ..c
                    }
                },
            }
        },
    }
}

/// Runs a period and those behind it down.
fn tick_byoyomi(clock: &mut SideClock, period: u128, full: u128, dt: u128) -> (r: bool)
    ensures
        (*final(clock), r) == counted(*old(clock), period, full, dt as int),
{
    let left = clock.periods_left;
    clock.main = Some(0);
    if dt < period {
        clock.period = period - dt;
        return false;
    }
    let over = dt - period;
    if left <= 1 {
        clock.period = 0;
        clock.periods_left = 0;
        return true;
    }
    let spare: u128 = (left - 1) as u128;
    proof {
        if full > 0 {
            lemma_reaches(over as int, spare as int, full as int);
        } else {
            assert(spare * full == 0) by (nonlinear_arith)
                requires
                    full == 0,
            ;
        }
    }
    if full == 0 || over / full >= spare {
        clock.period = 0;
        clock.periods_left = 0;
        return true;
    }
    proof {
        lemma_periods(over as int, left - 1, full as int);
    }
    clock.period = full - over % full;
    clock.periods_left = left - 1 - (over / full) as u32;
    false
}

/// A time reaches beyond `n` periods where it holds as many of them.
proof fn lemma_reaches(over: int, n: int, full: int)
    requires
        0 <= over,
        0 < full,
        0 <= n,
    ensures
        over >= n * full <==> over / full >= n,
{
    vstd::arithmetic::div_mod::lemma_fundamental_div_mod(over, full);
    let (q, r) = (over / full, over % full);
    assert(over >= n * full <==> q >= n) by (nonlinear_arith)
        requires
            over == full * q + r,
            0 <= r < full,
    ;
}

/// A time within `n` periods uses up fewer than `n` of them.
proof fn lemma_periods(over: int, n: int, full: int)
    requires
        0 <= over < n * full,
        0 <= full,
    ensures
        full > 0,
        0 <= over / full < n,
        0 <= over % full < full,
{
    assert(full > 0) by (nonlinear_arith)
        requires
            0 <= over < n * full,
            0 <= full,
    ;
    assert(0 <= over / full < n) by (nonlinear_arith)
        requires
            0 <= over < n * full,
            full > 0,
    ;
}

/// The clocks of a game.
#[derive(Clone, Debug)]
pub struct Clock {
    /// The time limit, which stays the same.
    pub system: TimeSystem,
    pub black: SideClock,
    pub white: SideClock,
    /// The time used so far.
    pub black_total: u64,
    pub white_total: u64,
    /// What the engine's last move took.
    pub last_engine_think: Option<u64>,
}

/// A sum that stays at the largest number.
pub open spec fn capped_sum(a: u64, b: u64) -> u64 {
    if a + b > u64::MAX {
        u64::MAX
    } else {
        (a + b) as u64
    }
}

impl Clock {
    /// The clock of a side.
    pub open spec fn side_spec(self, stone: Stone) -> SideClock {
        match stone {
            Stone::Black => self.black,
            Stone::White => self.white,
        }
    }

    /// The time that a side has used.
    pub open spec fn total_spec(self, stone: Stone) -> u64 {
        match stone {
            Stone::Black => self.black_total,
            Stone::White => self.white_total,
        }
    }

    /// The clocks with those of one side replaced.
    pub open spec fn with_side(self, stone: Stone, c: SideClock, total: u64) -> Clock {
        match stone {
            Stone::Black => Clock { black: c, black_total: total, ..self },
            Stone::White => Clock { white: c, white_total: total, ..self },
        }
    }

    /// The clocks at the start of a game.
    pub fn new(system: TimeSystem) -> (r: Self)
        ensures
            r == (Clock {
                system,
                black: system.initial_spec(),
                white: system.initial_spec(),
                black_total: 0,
                white_total: 0,
                last_engine_think: None,
            }),
    {
        Clock {
            system,
            black: system.initial_side(),
            white: system.initial_side(),
            black_total: 0,
            white_total: 0,
            last_engine_think: None,
        }
    }

    /// The clock of a side.
    pub fn side(&self, stone: Stone) -> (r: &SideClock)
        ensures
            *r == self.side_spec(stone),
    {
        match stone {
            Stone::Black => &self.black,
            Stone::White => &self.white,
        }
    }

    /// The time that a side has used.
    pub fn total(&self, stone: Stone) -> (r: u64)
        ensures
            r == self.total_spec(stone),
    {
        match stone {
            Stone::Black => self.black_total,
            Stone::White => self.white_total,
        }
    }

    fn set_side(&mut self, stone: Stone, c: SideClock, total: u64)
        ensures
            *final(self) == old(self).with_side(stone, c, total),
    {
        match stone {
            Stone::Black => {
                self.black = c;
                self.black_total = total;
            },
            Stone::White => {
                self.white = c;
                self.white_total = total;
            },
        }
    }

    /// Runs a side's clock for `dt`, and returns the side if its time is over. What is left of a
    /// step after the main time comes off the first period, and so on.
    pub fn tick(&mut self, stone: Stone, dt: u64) -> (r: Option<Stone>)
        ensures
            ({
                let before = old(self).side_spec(stone);
                let (c, lost) = ticked(old(self).system, before, dt);
                &&& *final(self) == old(self).with_side(
                    stone,
                    c,
                    capped_sum(old(self).total_spec(stone), dt),
                )
                &&& r == if lost {
                    Some(stone)
                } else {
                    None
                }
            }),
    {
        let mut c = *self.side(stone);
        let total = self.total(stone).saturating_add(dt);
        let mut lost = false;
        if dt > 0 {
            if let Some(m) = c.main {
                let dt = dt as u128;
                if dt < m {
                    c.main = Some(m - dt);
                } else {
                    match self.system.period_time() {
                        None => {
                            c.main = Some(0);
                            lost = true;
                        },
                        Some(full) => {
                            if m == 0 {
                                let period = c.period;
                                lost = tick_byoyomi(&mut c, period, full, dt);
                            } else if c.periods_left == 0 {
                                c.main = Some(0);
                                lost = dt > m;
                            } else if dt == m {
                                c.main = Some(0);
                                c.period = full;
                            } else {
                                lost = tick_byoyomi(&mut c, full, full, dt - m);
                            }
                        },
                    }
                }
            }
        }
        self.set_side(stone, c, total);
        if lost {
            Some(stone)
        } else {
            None
        }
    }

    /// Takes in a move of the human.
    pub fn on_human_move(&mut self, stone: Stone)
        ensures
            *final(self) == old(self).with_side(
                stone,
                refreshed(old(self).system, old(self).side_spec(stone)),
                old(self).total_spec(stone),
            ),
    {
        let mut c = *self.side(stone);
        let total = self.total(stone);
        if let Some(full) = self.system.period_time() {
            if c.in_byoyomi() {
                c.period = full;
            }
        }
        self.set_side(stone, c, total);
    }

    /// Takes in a move of the engine and the time that it took. A move that uses the last period
    /// up leaves no usable time behind: it stands, and the side has lost when it would move next.
    pub fn on_engine_move(&mut self, stone: Stone, think: u64)
        ensures
            *final(self) == old(self).with_side(
                stone,
                charged(old(self).system, old(self).side_spec(stone), think),
                capped_sum(old(self).total_spec(stone), think),
            ),
    {
        let mut c = *self.side(stone);
        let total = self.total(stone).saturating_add(think);
        if let Some(m) = c.main {
            let think = think as u128;
            if m > think {
                c.main = Some(m - think);
            } else {
                match self.system.period_time() {
                    None => {
                        c.main = Some(0);
                    },
                    Some(full) => {
                        if m > 0 {
                            c.main = Some(0);
                            if c.periods_left > 0 {
                                c.period = full;
                            }
                        } else {
                            if think > c.period && c.periods_left > 0 {
                                c.periods_left = c.periods_left - 1;
                            }
                            c.period = if c.periods_left > 0 {
                                full
                            } else {
                                0
                            };
                        }
                    },
                }
            }
        }
        self.set_side(stone, c, total);
    }
}

/// The number of a side: black is 0 and white is 1.
pub fn side_index_of(stone: Stone) -> (r: usize)
    ensures
        r == if stone == Stone::Black {
            0usize
        } else {
            1usize
        },
{
    match stone {
        Stone::Black => 0,
        Stone::White => 1,
    }
}

// ---- texts ----

/// Whole seconds, rounded up, as far as 64 bits hold them.
pub open spec fn seconds_up(t: u128) -> nat {
    let n = (t + SECOND - 1) / SECOND as int;
    if n <= u64::MAX {
        n as nat
    } else {
        u64::MAX as nat
    }
}

/// A number in at least two digits.
pub open spec fn two_digits(n: nat) -> Seq<char> {
    if n < 10 {
        "0"@ + text::decimal(n)
    } else {
        text::decimal(n)
    }
}

/// Minutes and seconds, rounded up.
pub open spec fn mmss(t: u128) -> Seq<char> {
    two_digits(seconds_up(t) / 60) + ":"@ + two_digits(seconds_up(t) % 60)
}

/// A clock in words.
pub open spec fn clock_words(system: TimeSystem, clock: SideClock, used: u64) -> Seq<char> {
    match system {
        TimeSystem::Unlimited => "累计 "@ + text::decimal((used / SECOND) as nat) + " 秒"@,
        TimeSystem::Absolute { .. } => mmss(clock.main.unwrap_or(0)),
        TimeSystem::Byoyomi { period_seconds, .. } => if clock.counting() {
            "读秒 "@ + text::decimal(seconds_up(clock.period)) + "s × "@ + text::decimal(
                clock.periods_left as nat,
            ) + " 次"@
        } else {
            mmss(clock.main.unwrap_or(0)) + " + 读秒 "@ + text::decimal(
                seconds_up(period_seconds.clock_spec()),
            ) + "s×"@
                + text::decimal(clock.periods_left as nat)
        },
    }
}

fn whole_seconds(t: u128) -> (r: u64)
    ensures
        r == seconds_up(t),
{
    let extra: u128 = if t % SECOND as u128 > 0 {
        1
    } else {
        0
    };
    let n = t / SECOND as u128 + extra;
    if n <= u64::MAX as u128 {
        n as u64
    } else {
        u64::MAX
    }
}

fn push_two(out: &mut String, n: u64)
    ensures
        final(out)@ == old(out)@ + two_digits(n as nat),
{
    let ghost before = out@;
    if n < 10 {
        out.append("0");
    }
    push_decimal(out, n);
    assert(out@ =~= before + two_digits(n as nat));
}

fn push_mmss(out: &mut String, t: u128)
    ensures
        final(out)@ == old(out)@ + mmss(t),
{
    let ghost before = out@;
    let total = whole_seconds(t);
    push_two(out, total / 60);
    out.append(":");
    push_two(out, total % 60);
    assert(out@ =~= before + mmss(t));
}

/// A clock in words: the main time that is left, the periods, and without a limit the time used.
pub fn clock_text(system: TimeSystem, clock: &SideClock, total_used: u64) -> (r: String)
    ensures
        r@ == clock_words(system, *clock, total_used),
{
    let mut out = String::new();
    let main = match clock.main {
        Some(m) => m,
        None => 0,
    };
    match system {
        TimeSystem::Unlimited => {
            out.append("累计 ");
            push_decimal(&mut out, total_used / SECOND);
            out.append(" 秒");
        },
        TimeSystem::Absolute { .. } => {
            push_mmss(&mut out, main);
        },
        TimeSystem::Byoyomi { period_seconds, .. } => {
            if clock.in_byoyomi() {
                out.append("读秒 ");
                push_decimal(&mut out, whole_seconds(clock.period));
                out.append("s × ");
                push_decimal(&mut out, clock.periods_left as u64);
                out.append(" 次");
            } else {
                push_mmss(&mut out, main);
                out.append(" + 读秒 ");
                push_decimal(&mut out, whole_seconds(period_seconds.clock_time()));
                out.append("s×");
                push_decimal(&mut out, clock.periods_left as u64);
            }
        },
    }
    assert(out@ =~= clock_words(system, *clock, total_used));
    out
}

} // verus!
