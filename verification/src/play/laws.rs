//! What holds of playing against the engine as a whole.

use vstd::prelude::*;
use vstd::arithmetic::div_mod::{
    lemma_fundamental_div_mod,
    lemma_fundamental_div_mod_converse,
};
use super::timer::{self, Clock, Seconds, SideClock, TimeSystem};
use crate::board::{
    coord, copies, laws, model, tree, Action, BoardView, Coord, RecordView, Size, Stone,
};
use crate::natural;
use crate::text;

verus! {

/// A side's clock that can come about: no period runs while there is main time.
pub open spec fn side_ok(c: SideClock) -> bool {
    c.main matches Some(m) && m > 0 ==> c.period == 0
}

/// The clock of a side at the start can come about, and so can every clock that it leads to.
pub proof fn law_side_ok(system: TimeSystem, c: SideClock, dt: u64)
    ensures
        side_ok(system.initial_spec()),
        side_ok(c) ==> side_ok(timer::ticked(system, c, dt).0),
        side_ok(c) ==> side_ok(timer::refreshed(system, c)),
        side_ok(c) ==> side_ok(timer::charged(system, c, dt)),
{
}

/// No time is lost between steps: as long as the time is not over, running a clock twice comes to
/// the same as running it once for the sum, whatever part of the main time and of the periods the
/// steps reach into.
pub proof fn law_ticks_add_up(system: TimeSystem, c: SideClock, a: u64, b: u64)
    requires
        side_ok(c),
        a + b <= u64::MAX,
        !timer::ticked(system, c, a).1,
    ensures
        timer::ticked(system, c, (a + b) as u64) == timer::ticked(
            system,
            timer::ticked(system, c, a).0,
            b,
        ),
{
    if let Some(m) = c.main {
        if let Some(full) = system.period_spec() {
            if a > 0 && b > 0 {
                let left = c.periods_left as int;
                if m == 0 {
                    lemma_run_down_adds(c.period as int, left, full as int, a as int, b as int);
                } else if a > m {
                    lemma_run_down_adds(full as int, left, full as int, a - m, b as int);
                }
            }
        }
    }
}

/// Running the periods down twice comes to the same as running them down once.
proof fn lemma_run_down_adds(period: int, left: int, full: int, a: int, b: int)
    requires
        0 <= period,
        0 <= left,
        0 <= full,
        0 <= a,
        0 <= b,
        !timer::run_down(period, left, full, a).2,
    ensures
        ({
            let (p, l, _) = timer::run_down(period, left, full, a);
            &&& timer::run_down(period, left, full, a + b) == timer::run_down(p, l, full, b)
            &&& 0 <= p <= (if a < period { period } else { full })
            &&& 0 <= l <= left
        }),
{
    if a < period {
        assert(a + b - period == b - (period - a));
    } else {
        lemma_used_up_adds(left, full, a - period, b);
        assert(a + b - period == a - period + b);
    }
}

/// Going further beyond a period comes to the same in two steps as in one.
proof fn lemma_used_up_adds(left: int, full: int, over: int, b: int)
    requires
        0 <= left,
        0 <= full,
        0 <= over,
        0 <= b,
        !timer::used_up(left, full, over).2,
    ensures
        ({
            let (p, l, _) = timer::used_up(left, full, over);
            &&& timer::used_up(left, full, over + b) == timer::run_down(p, l, full, b)
            &&& 0 <= p <= full
            &&& 0 <= l <= left
        }),
{
    assert(full > 0) by (nonlinear_arith)
        requires
            0 <= over < (left - 1) * full,
            0 <= full,
    ;
    let (q, r) = (over / full, over % full);
    lemma_fundamental_div_mod(over, full);
    let l = left - 1 - q;
    assert(0 <= q && 1 <= l && (left - 1) * full == full * q + l * full) by (nonlinear_arith)
        requires
            over == full * q + r,
            0 <= r < full,
            0 <= over < (left - 1) * full,
            l == left - 1 - q,
    ;
    if b < full - r {
        lemma_fundamental_div_mod_converse(over + b, full, q, r + b);
        assert(full <= l * full) by (nonlinear_arith)
            requires
                1 <= l,
                0 < full,
        ;
        assert(timer::used_up(left, full, over + b) == (full - (r + b), left - 1 - q, false));
    } else {
        let d = b - (full - r);
        let (q2, r2) = (d / full, d % full);
        lemma_fundamental_div_mod(d, full);
        assert(full * (q + 1 + q2) == full * q + full + full * q2) by (nonlinear_arith);
        lemma_fundamental_div_mod_converse(over + b, full, q + 1 + q2, r2);
        assert((l - 1) * full == l * full - full) by (nonlinear_arith);
        assert(over + b >= (left - 1) * full <==> d >= (l - 1) * full);
        assert(l <= 1 ==> (l - 1) * full <= 0) by (nonlinear_arith)
            requires
                0 < full,
        ;
        assert(timer::used_up(l, full, d) == timer::used_up(left, full, over + b));
    }
}

/// Without a limit the time is never over, and the clock does not change.
pub proof fn law_unlimited_never_over(dt: u64)
    ensures
        timer::ticked(TimeSystem::Unlimited, TimeSystem::Unlimited.initial_spec(), dt) == (
            TimeSystem::Unlimited.initial_spec(),
            false,
        ),
{
}

/// A game with a total is over exactly when the total is used up.
pub proof fn law_absolute_over_at_total(seconds: Seconds, dt: u64)
    requires
        dt > 0,
    ensures
        ({
            let system = TimeSystem::Absolute { seconds };
            timer::ticked(system, system.initial_spec(), dt).1 == (dt >= seconds.clock_spec())
        }),
{
}

/// A game with periods is over exactly when the main time and all periods are used up by one move.
pub proof fn law_byoyomi_over_at_last_period(
    main_seconds: Seconds,
    period_seconds: Seconds,
    periods: u32,
    dt: u64,
)
    requires
        periods > 0,
        dt > 0,
    ensures
        ({
            let system = TimeSystem::Byoyomi { main_seconds, period_seconds, periods };
            let (main, period) = (main_seconds.clock_spec(), period_seconds.clock_spec());
            timer::ticked(system, system.initial_spec(), dt).1 == (dt > main && dt >= main + periods
                * period)
        }),
{
    let period = period_seconds.clock_spec();
    assert(periods * period == period + (periods - 1) * period) by (nonlinear_arith);
    assert(periods == 1 ==> periods * period == period) by (nonlinear_arith);
    assert((periods - 1) * period >= 0) by (nonlinear_arith)
        requires
            periods >= 1,
    ;
}

/// What is left of a side's time in all: the main time and all periods.
pub open spec fn left_in_all(c: SideClock, full: u128) -> int {
    let m = c.main.unwrap_or(0);
    if m > 0 {
        m + c.periods_left * full
    } else if c.periods_left > 0 {
        c.period + (c.periods_left - 1) * full
    } else {
        0
    }
}

/// Running a clock with periods takes exactly the time that went by off what is left in all: first
/// off the main time, then off the periods, of which the current one is never longer than a whole
/// one. The time is over when all of it has gone by.
pub proof fn law_tick_takes_the_time(
    main_seconds: Seconds,
    period_seconds: Seconds,
    periods: u32,
    c: SideClock,
    dt: u64,
)
    requires
        period_seconds.clock_spec() > 0,
        c.main is Some,
        c.main->0 == 0 ==> 0 < c.period <= period_seconds.clock_spec(),
        c.periods_left > 0,
        dt > 0,
    ensures
        ({
            let system = TimeSystem::Byoyomi { main_seconds, period_seconds, periods };
            let full = period_seconds.clock_spec();
            let (w, lost) = timer::ticked(system, c, dt);
            &&& lost <==> dt >= left_in_all(c, full)
            &&& !lost ==> left_in_all(w, full) == left_in_all(c, full) - dt
            &&& dt < c.main->0 ==> w.main == Some((c.main->0 - dt) as u128) && w.period == c.period
                && w.periods_left == c.periods_left
            &&& dt >= c.main->0 ==> w.main == Some(0u128)
            &&& dt >= c.main->0 && !lost ==> 0 < w.period <= full && 0 < w.periods_left
                <= c.periods_left
            &&& lost ==> w.periods_left == 0 && w.period == 0
        }),
{
    let full = period_seconds.clock_spec() as int;
    let left = c.periods_left as int;
    let m = c.main->0 as int;
    if dt > m {
        let (period, over) = if m == 0 {
            (c.period as int, dt - c.period)
        } else {
            (full, dt - m - full)
        };
        assert(left * full == full + (left - 1) * full) by (nonlinear_arith);
        assert((left - 1) * full >= 0) by (nonlinear_arith)
            requires
                left >= 1,
                full > 0,
        ;
        if over >= 0 && left > 1 && over < (left - 1) * full {
            lemma_fundamental_div_mod(over, full);
            let (q, r) = (over / full, over % full);
            assert(0 <= q < left - 1) by (nonlinear_arith)
                requires
                    over == full * q + r,
                    0 <= r < full,
                    0 <= over < (left - 1) * full,
            ;
            let l = left - 1 - q;
            assert((full - r) + (l - 1) * full == (left - 1) * full - over) by (nonlinear_arith)
                requires
                    over == full * q + r,
                    l == left - 1 - q,
            ;
        }
        assert(left == 1 ==> (left - 1) * full == 0) by (nonlinear_arith);
    } else if dt == m {
        assert(left * full == full + (left - 1) * full) by (nonlinear_arith);
        assert(left * full > 0) by (nonlinear_arith)
            requires
                left >= 1,
                full > 0,
        ;
    } else {
        assert(left * full >= 0) by (nonlinear_arith)
            requires
                left >= 1,
                full > 0,
        ;
    }
}

/// A total runs down by the time that goes by, and is over when it is used up.
pub proof fn law_tick_of_a_total(seconds: Seconds, c: SideClock, dt: u64)
    requires
        c.main is Some,
        dt > 0,
    ensures
        ({
            let (w, lost) = timer::ticked(TimeSystem::Absolute { seconds }, c, dt);
            &&& lost <==> dt >= c.main->0
            &&& w.main == Some(
                if dt < c.main->0 {
                    (c.main->0 - dt) as u128
                } else {
                    0u128
                },
            )
            &&& w.period == c.period
            &&& w.periods_left == c.periods_left
        }),
{
}

/// A move of the human gives a whole period again where one runs, and changes nothing else.
pub proof fn law_human_move_refills_the_period(
    main_seconds: Seconds,
    period_seconds: Seconds,
    periods: u32,
    c: SideClock,
)
    ensures
        ({
            let system = TimeSystem::Byoyomi { main_seconds, period_seconds, periods };
            let w = timer::refreshed(system, c);
            &&& w.main == c.main
            &&& w.periods_left == c.periods_left
            &&& w.period == if c.main == Some(0u128) && c.periods_left > 0 {
                period_seconds.clock_spec()
            } else {
                c.period
            }
        }),
        timer::refreshed(TimeSystem::Unlimited, c) == c,
        timer::refreshed(TimeSystem::Absolute { seconds: main_seconds }, c) == c,
{
}

/// What a move of the engine costs while there are periods to run: no period where it took no
/// longer than was left of the current one, exactly one where it took longer. Behind it a whole
/// period waits while one is left, and nothing where none is.
pub proof fn law_engine_move_costs_at_most_a_period(
    main_seconds: Seconds,
    period_seconds: Seconds,
    periods: u32,
    c: SideClock,
    think: u64,
)
    requires
        c.main == Some(0u128),
    ensures
        ({
            let system = TimeSystem::Byoyomi { main_seconds, period_seconds, periods };
            let w = timer::charged(system, c, think);
            &&& w.main == Some(0u128)
            &&& think <= c.period ==> w.periods_left == c.periods_left
            &&& think > c.period && c.periods_left > 0 ==> w.periods_left == c.periods_left - 1
            &&& c.periods_left == 0 ==> w.periods_left == 0
            &&& w.periods_left > 0 ==> w.period == period_seconds.clock_spec()
            &&& w.periods_left == 0 ==> w.period == 0
        }),
{
}

/// What a move of the engine costs while there is main time: the time that it took, and no more
/// than there is. Where that uses the main time up and periods follow, a whole one waits.
pub proof fn law_engine_move_in_main_time(system: TimeSystem, c: SideClock, think: u64)
    requires
        c.main matches Some(m) && m > 0,
    ensures
        ({
            let w = timer::charged(system, c, think);
            let m = c.main->0;
            &&& w.main == Some(
                if think < m {
                    (m - think) as u128
                } else {
                    0u128
                },
            )
            &&& w.periods_left == c.periods_left
            &&& w.period == match system {
                TimeSystem::Byoyomi { period_seconds, .. } => if think >= m && c.periods_left > 0 {
                    period_seconds.clock_spec()
                } else {
                    c.period
                },
                _ => c.period,
            }
        }),
{
}

/// A move of the engine within the current period, or within the main time, costs what running the
/// clock for that time and then taking in a move would; without a limit it costs nothing.
pub proof fn law_engine_move_is_a_tick_and_a_move(system: TimeSystem, c: SideClock, think: u64)
    requires
        side_ok(c),
    ensures
        c.main is None ==> timer::charged(system, c, think) == c,
        system is Byoyomi && c.main == Some(0u128) && c.periods_left > 0 && think < c.period
            ==> timer::charged(system, c, think) == timer::refreshed(
            system,
            timer::ticked(system, c, think).0,
        ),
        c.main matches Some(m) && think < m ==> timer::charged(system, c, think)
            == timer::refreshed(system, timer::ticked(system, c, think).0),
        !(system is Byoyomi) ==> timer::charged(system, c, think) == timer::ticked(
            system,
            c,
            think,
        ).0,
{
}

/// The clock at the start: the time that was agreed on, the first period at once where there is no
/// main time, and no end without a limit.
pub proof fn law_clock_at_the_start(
    main_seconds: Seconds,
    period_seconds: Seconds,
    periods: u32,
)
    ensures
        TimeSystem::Unlimited.initial_spec().main is None,
        (TimeSystem::Absolute { seconds: main_seconds }).initial_spec().main == Some(
            main_seconds.clock_spec(),
        ),
        (TimeSystem::Absolute { seconds: main_seconds }).initial_spec().periods_left == 0,
        ({
            let system = TimeSystem::Byoyomi { main_seconds, period_seconds, periods };
            let c = system.initial_spec();
            &&& c.main == Some(main_seconds.clock_spec())
            &&& c.periods_left == periods
            &&& main_seconds.clock_spec() == 0 ==> c.period == period_seconds.clock_spec()
            &&& main_seconds.clock_spec() > 0 ==> c.period == 0
        }),
{
}

/// The time that a side can still use is its main time while it has any, then what is left of the
/// current period, then none; without a limit there is no such time.
pub proof fn law_usable_time(c: SideClock)
    ensures
        c.main is None ==> c.usable_spec() is None,
        c.main matches Some(m) && m > 0 ==> c.usable_spec() == c.main,
        c.main == Some(0u128) && c.periods_left > 0 ==> c.usable_spec() == Some(c.period),
        c.main == Some(0u128) && c.periods_left == 0 ==> c.usable_spec() == Some(0u128),
        c.counting() <==> c.main == Some(0u128) && c.periods_left > 0,
{
}

/// A number of seconds is as many thousand million nanoseconds: exactly where that is a whole
/// number, and otherwise the whole number just below or just above.
pub proof fn law_seconds_are_nanoseconds(s: Seconds)
    requires
        !s.neg,
    ensures
        s.power + 9 >= 0 ==> s.nanos_spec(true) == s.digits * natural::power(
            10,
            (s.power + 9) as nat,
        ) && s.nanos_spec(false) == s.nanos_spec(true),
        s.power + 9 < 0 ==> {
            let unit = natural::power(10, (-(s.power + 9)) as nat);
            &&& s.nanos_spec(true) * unit <= s.digits < (s.nanos_spec(true) + 1) * unit
            &&& (s.nanos_spec(false) - 1) * unit < s.digits <= s.nanos_spec(false) * unit
        },
        s.nanos_spec(false) <= u128::MAX ==> s.clock_spec() == s.nanos_spec(false),
        s.nanos_spec(false) > u128::MAX ==> s.clock_spec() == u128::MAX,
{
    if s.power + 9 < 0 {
        let e = (-(s.power + 9)) as nat;
        let unit = natural::power(10, e) as int;
        timer::lemma_ten_positive(e);
        let d = s.digits as int;
        lemma_fundamental_div_mod(d, unit);
        lemma_fundamental_div_mod(d + unit - 1, unit);
        let (q, r) = (d / unit, d % unit);
        let (u, v) = ((d + unit - 1) / unit, (d + unit - 1) % unit);
        assert(q * unit <= d < (q + 1) * unit) by (nonlinear_arith)
            requires
                d == unit * q + r,
                0 <= r < unit,
        ;
        assert((u - 1) * unit < d <= u * unit) by (nonlinear_arith)
            requires
                d + unit - 1 == unit * u + v,
                0 <= v < unit,
        ;
    }
}

/// Each side has a clock and a total of its own: what happens to one leaves the other's alone.
pub proof fn law_each_side_has_its_clock(k: Clock, stone: Stone, c: SideClock, total: u64)
    ensures
        k.side_spec(Stone::Black) == k.black,
        k.side_spec(Stone::White) == k.white,
        k.total_spec(Stone::Black) == k.black_total,
        k.total_spec(Stone::White) == k.white_total,
        ({
            let w = k.with_side(stone, c, total);
            &&& w.side_spec(stone) == c
            &&& w.total_spec(stone) == total
            &&& w.side_spec(stone.other()) == k.side_spec(stone.other())
            &&& w.total_spec(stone.other()) == k.total_spec(stone.other())
            &&& w.system == k.system
            &&& w.last_engine_think == k.last_engine_think
        }),
        forall|a: u64, b: u64|
            #![trigger timer::capped_sum(a, b)]
            a + b <= u64::MAX ==> timer::capped_sum(a, b) == a + b,
{
}

// ---- moves ----

/// Whether a move is a pass.
pub open spec fn is_pass(r: Option<RecordView>) -> bool {
    r is Some && r->0.action == Action::Pass
}

/// A game is over by passing exactly where the last two moves are passes.
pub proof fn law_two_passes_end_the_game(b: BoardView)
    requires
        b.wf(),
    ensures
        super::both_passed(b) <==> is_pass(b.here().record) && is_pass(
            b.nodes[b.here().parent->0 as int].record,
        ),
{
    if b.current != 0 {
        assert(model::hung(b.nodes, b.current as int));
        assert(model::step_ok(b.size, b.root_to_play, b.nodes, b.current as int));
        let p = b.here().parent->0;
        copies::lemma_path_push(b, b.current);
        if p != 0 {
            assert(model::hung(b.nodes, p as int));
            copies::lemma_path_push(b, p);
        } else {
            assert(model::path_records(b.nodes, 0).len() == 0);
        }
    } else {
        assert(model::path_records(b.nodes, 0).len() == 0);
    }
}

/// The engine moves exactly where a game is on, it is ready and to move at the end of the line, the
/// last two moves are not passes, and a finished search of this very position found a move; and
/// then it plays the first move found, a pass where that is one.
pub proof fn law_engine_plays_the_best_move(
    mode: bool,
    human: Stone,
    b: BoardView,
    snapshot: Option<super::Snapshot>,
    ready: bool,
)
    requires
        b.wf(),
    ensures
        ({
            let ended = is_pass(b.here().record) && is_pass(
                b.nodes[b.here().parent->0 as int].record,
            );
            let due = mode && ready && b.to_play() == human.other() && b.here().children.len() == 0
                && !ended && snapshot is Some && snapshot->0.is_final && snapshot->0.turn
                == b.here().depth && snapshot->0.moves@.len() > 0;
            let action = super::engine_action(mode, human, b, snapshot, ready);
            &&& due <==> action is Some
            &&& due && snapshot->0.moves@.first() is Some ==> action == Some(
                Action::Place(snapshot->0.moves@.first()->0),
            )
            &&& due && snapshot->0.moves@.first() is None ==> action == Some(Action::Pass)
        }),
{
    law_two_passes_end_the_game(b);
    tree::lemma_next(b.size, b.root_to_play, b.nodes, b.current);
    assert(model::line_at(b.nodes, b.here().depth as nat) == Some(b.current));
    assert(model::line_at(b.nodes, b.here().depth as nat + 1) == model::next_of(b.nodes, b.current));
    assert(model::counters_ok(b.nodes[b.current as int]));
}

/// Taking back undoes the human's last move where it is the last of all, and with it the engine's
/// answer where there is one; it undoes nothing where the cursor is not at the end of a line, and
/// leaves the human to move exactly where it says so.
pub proof fn law_take_back(b: BoardView, human: Stone)
    requires
        b.wf(),
    ensures
        ({
            let (w, back) = super::back_to_human(b, human);
            let p = b.here().parent->0;
            let own = b.here().record->0.player == human;
            let shallow = b.nodes[p as int].parent is None || b.nodes[p as int].children.len() > 1;
            &&& w.wf()
            &&& back ==> w.to_play() == human
            &&& b.here().parent is None || b.here().children.len() > 0 ==> w == b && !back
            &&& b.can_undo() && own ==> back && w.here().depth == b.here().depth - 1
                && w.here().grid == b.nodes[p as int].grid && w.here().record
                == b.nodes[p as int].record
            &&& b.can_undo() && !own && shallow ==> !back && w.here().depth == b.here().depth - 1
            &&& b.can_undo() && !own && !shallow ==> {
                let g = b.nodes[p as int].parent->0;
                &&& back
                &&& w.here().depth == b.here().depth - 2
                &&& w.here().grid == b.nodes[g as int].grid
                &&& w.here().record == b.nodes[g as int].record
            }
        }),
{
    if b.can_undo() {
        assert(b.current != 0);
        assert(model::hung(b.nodes, b.current as int));
        assert(model::step_ok(b.size, b.root_to_play, b.nodes, b.current as int));
        laws::law_undo(b);
        let u = b.undone();
        let p = b.here().parent->0;
        assert(u.to_play() == b.here().record->0.player);
        laws::lemma_undone_parent(b);
        if u.to_play() != human && u.can_undo() {
            laws::law_undo(u);
            let g = b.nodes[p as int].parent->0;
            assert(p != 0);
            assert(model::hung(b.nodes, p as int));
            assert(model::step_ok(b.size, b.root_to_play, b.nodes, p as int));
        }
    }
}

/// The engine moves only in a game, when it is ready, on its own turn, at the end of the current
/// line, and not after both sides passed; and only on a finished search of that position.
pub proof fn law_engine_moves_only_when_due(
    mode: bool,
    human: Stone,
    b: BoardView,
    snapshot: Option<super::Snapshot>,
    ready: bool,
)
    requires
        super::engine_action(mode, human, b, snapshot, ready) is Some,
    ensures
        mode,
        ready,
        b.to_play() == human.other(),
        model::line_at(b.nodes, b.here().depth as nat + 1) is None,
        !super::both_passed(b),
        snapshot is Some,
        snapshot->0.is_final,
        snapshot->0.turn == b.here().depth,
{
}

/// Taking back after the engine's answer leads to where the human had not moved yet: the same
/// position after the same last move, the human to move, and no trace of the two moves.
pub proof fn law_take_back_answer(b: BoardView, human: Stone, mine: Coord, answer: Coord)
    requires
        b.wf(),
        b.nodes.len() < usize::MAX - 1,
        b.to_play() == human,
        b.played(mine) is Ok,
        !model::has_child_with(b.nodes, b.current, Action::Place(mine)),
        b.played(mine)->Ok_0.played(answer) is Ok,
    ensures
        ({
            let (w, back) = super::back_to_human(
                b.played(mine)->Ok_0.played(answer)->Ok_0,
                human,
            );
            &&& back
            &&& w.wf()
            &&& w.to_play() == human
            &&& w.here().grid == b.here().grid
            &&& w.here().record == b.here().record
            &&& w.here().depth == b.here().depth
            &&& w.nodes.len() == b.nodes.len()
        }),
{
    let b1 = b.played(mine)->Ok_0;
    let b2 = b1.played(answer)->Ok_0;
    laws::law_play(b, mine);
    laws::law_play_then_undo(b, mine);
    laws::law_undo(b1);
    assert(b1.here().children.len() == 0);
    assert(!model::has_child_with(b1.nodes, b1.current, Action::Place(answer)));
    laws::law_play(b1, answer);
    laws::law_play_then_undo(b1, answer);
    laws::law_undo(b2);
    let u = b2.undone();
    assert(u.nodes[u.current as int].record == b1.nodes[u.current as int].record);
    assert(u.to_play() == human.other());
    assert(u.can_undo());
    laws::law_undo(u);
    let p = b.current as int;
    assert(u.nodes[p].record == b1.nodes[p].record);
    let t = b1.undone();
    assert(t.nodes[p].record == b.nodes[p].record);
}

// ---- handicap ----

/// Whether a point stands at a column and a row.
pub open spec fn stands_at(c: Coord, x: int, y: int) -> bool {
    c.col() == x && c.row() == y
}

/// The points of a handicap: two opposite corners, then the other two, then the middles of the left
/// and right sides, then those of the upper and lower sides; with five, seven and nine stones the
/// last is the centre. The corner points are on the third line of the smallest board and on the
/// fourth line of the others.
pub proof fn law_handicap_points(size: Size, n: nat)
    requires
        size.wf(),
    ensures
        ({
            let ps = super::handicap_points(size, n);
            let c: int = if size.side() == 9 {
                2
            } else {
                3
            };
            let f = size.side() - 1 - c;
            let m = size.side() as int / 2;
            &&& n < 2 || n > 9 ==> ps.len() == 0
            &&& 2 <= n <= 9 ==> {
                &&& ps.len() == n
                &&& stands_at(ps[0], c, c)
                &&& stands_at(ps[1], f, f)
                &&& n >= 3 ==> stands_at(ps[2], c, f)
                &&& n >= 4 ==> stands_at(ps[3], f, c)
                &&& n >= 6 ==> stands_at(ps[4], c, m) && stands_at(ps[5], f, m)
                &&& n >= 8 ==> stands_at(ps[6], m, c) && stands_at(ps[7], m, f)
                &&& n == 5 || n == 7 || n == 9 ==> stands_at(ps[n - 1], m, m)
            }
        }),
{
    let c = super::corner_line(size);
    let f = (size.side() - 1 - c) as nat;
    let m = size.side() / 2;
    coord::lemma_coord_at(c, c);
    coord::lemma_coord_at(f, f);
    coord::lemma_coord_at(c, f);
    coord::lemma_coord_at(f, c);
    coord::lemma_coord_at(c, m);
    coord::lemma_coord_at(f, m);
    coord::lemma_coord_at(m, c);
    coord::lemma_coord_at(m, f);
    coord::lemma_coord_at(m, m);
}

/// A handicap of one stone is none, and there are never more than nine.
pub proof fn law_handicap_meant(n: usize)
    ensures
        n <= 1 ==> super::handicap_meant(n) == 0,
        2 <= n <= 9 ==> super::handicap_meant(n) == n,
        n > 9 ==> super::handicap_meant(n) == 9,
{
}

/// A new game starts with full clocks, nobody having lost; without a game there is no limit.
pub proof fn law_new_game(human: Stone, system: TimeSystem)
    ensures
        ({
            let s = super::begun(human, system);
            &&& s.mode
            &&& s.human == human
            &&& s.resigned is None
            &&& s.timeout_loss is None
            &&& !s.hopeless_shown
            &&& s.clock.system == system
            &&& s.clock.black == system.initial_spec()
            &&& s.clock.white == system.initial_spec()
            &&& s.clock.black_total == 0
            &&& s.clock.white_total == 0
        }),
        !super::reviewing().mode,
        super::reviewing().resigned is None,
        super::reviewing().timeout_loss is None,
        super::reviewing().clock.system == TimeSystem::Unlimited,
{
}

// ---- how a clock is shown ----

/// The seconds that are shown are the time left, rounded up: nothing is shown only when nothing is
/// left.
pub proof fn law_seconds_shown(t: u128)
    requires
        timer::seconds_up(t) < u64::MAX,
    ensures
        ({
            let n = timer::seconds_up(t) as int;
            &&& n * 1_000_000_000 >= t
            &&& (n - 1) * 1_000_000_000 < t
            &&& n == 0 <==> t == 0
        }),
{
}

/// Two digits are shown even of a number below ten, and they are the number.
pub proof fn law_two_digits_shown(n: nat)
    ensures
        n < 100 ==> timer::two_digits(n).len() == 2,
        text::digits_value(timer::two_digits(n)) == n,
{
    reveal_strlit("0");
    text::law_decimal_is_the_number(n);
    reveal_with_fuel(text::decimal, 3);
    if n < 10 {
        let d = timer::two_digits(n);
        assert(d =~= seq!['0', text::digit_char(n)]);
        assert(d.drop_last() =~= seq!['0']);
        assert(seq!['0'].drop_last() =~= Seq::<char>::empty());
        reveal_with_fuel(text::digits_value, 3);
    }
}

/// A clock is shown as minutes, a colon and the seconds of the next minute.
pub proof fn law_minutes_and_seconds(t: u128, m: nat, s: nat)
    requires
        timer::seconds_up(t) == 60 * m + s,
        s < 60,
    ensures
        timer::mmss(t) == timer::two_digits(m) + seq![':'] + timer::two_digits(s),
{
    reveal_strlit(":");
    assert(":"@ =~= seq![':']);
}

/// What is shown depends on the kind of clock: the time used where there is no limit, the main time
/// while there is some, and then the running period and how many there are.
pub proof fn law_clock_shown(system: TimeSystem, clock: SideClock, other: SideClock, used: u64, m: u128)
    requires
        clock.main == Some(m),
        other.main == clock.main,
        other.periods_left == clock.periods_left,
    ensures
        system is Unlimited ==> timer::clock_words(system, clock, used) == "累计 "@ + text::decimal(
            (used / 1_000_000_000) as nat,
        ) + " 秒"@,
        system is Absolute ==> timer::clock_words(system, clock, used) == timer::mmss(m),
        system is Byoyomi && m > 0 ==> {
            let words = timer::clock_words(system, clock, used);
            &&& words.take(timer::mmss(m).len() as int) == timer::mmss(m)
            &&& words == timer::clock_words(system, other, used)
        },
        system is Byoyomi && m == 0 && clock.periods_left > 0 ==> timer::clock_words(
            system,
            clock,
            used,
        ) == "读秒 "@ + text::decimal(timer::seconds_up(clock.period)) + "s × "@ + text::decimal(
            clock.periods_left as nat,
        ) + " 次"@,
{
    if system is Byoyomi && m > 0 {
        let words = timer::clock_words(system, clock, used);
        assert(words.take(timer::mmss(m).len() as int) =~= timer::mmss(m));
    }
}

} // verus!
