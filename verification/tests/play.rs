//! Games against the engine: handicap, clocks, and whose move it is.

use guanqi::board::{Action, Board, Coord, Size, Stone};
use guanqi::engine::config::Difficulty;
use guanqi::play::timer::{
    clock_text, engine_budget, side_index_of, Clock, Seconds, SideClock, TimeBudget, TimeSystem, SECOND,
};
use guanqi::play::{
    engine_move_decision, handicap_stones, mark_hopeless_shown, resign_text, should_show_hopeless,
    two_passes, undo_to_human, GameSetup, PlayState, Snapshot,
};

fn nine() -> Size {
    Size::new(9).unwrap()
}

fn at(x: u8, y: u8) -> Coord {
    Coord::new(nine(), x, y).unwrap()
}

fn byoyomi() -> TimeSystem {
    TimeSystem::Byoyomi {
        main_seconds: Seconds::whole(10),
        period_seconds: Seconds::whole(30),
        periods: 3,
    }
}

#[test]
fn handicap_points() {
    let s = Size::usual();
    assert!(handicap_stones(s, 0).is_empty());
    assert!(handicap_stones(s, 1).is_empty());
    assert!(handicap_stones(s, 10).is_empty());
    for n in 2..10usize {
        let stones = handicap_stones(s, n);
        assert_eq!(stones.len(), n);
        for i in 0..n {
            assert!(!stones[..i].contains(&stones[i]));
        }
    }
    let c = |x, y| Coord::new(s, x, y).unwrap();
    assert_eq!(handicap_stones(s, 2), vec![c(3, 3), c(15, 15)]);
    assert!(handicap_stones(s, 5).contains(&c(9, 9)));
    assert!(!handicap_stones(s, 6).contains(&c(9, 9)));
    assert_eq!(handicap_stones(nine(), 2), vec![at(2, 2), at(6, 6)]);
}

#[test]
fn handicaps_that_count() {
    let mut s = GameSetup::default();
    assert_eq!(s.komi, "7.5");
    for (asked, given) in [(0usize, 0usize), (1, 0), (2, 2), (9, 9), (12, 9)] {
        s.handicap = asked;
        assert_eq!(s.effective_handicap(), given);
    }
}

#[test]
fn a_game_begins() {
    let mut s = GameSetup::default();
    s.human = Stone::White;
    s.time_system = byoyomi();
    let p = PlayState::new_game(&s);
    assert!(p.mode);
    assert_eq!(p.human, Stone::White);
    assert_eq!(p.clock.black.main, Some((10 * SECOND) as u128));
    assert_eq!(p.clock.white.periods_left, 3);
    assert!(!PlayState::review().mode);
    assert_eq!(GameSetup::default().difficulty, Difficulty::default());
}

#[test]
fn two_passes_end_a_game() {
    let mut b = Board::new(nine());
    b.pass();
    assert!(!two_passes(&b));
    b.pass();
    assert!(two_passes(&b));
    let p = PlayState::new_game(&GameSetup::default());
    assert!(p.finished(&b));
    let mut p = PlayState::new_game(&GameSetup::default());
    assert!(!p.finished(&Board::new(nine())));
    p.resigned = Some(Stone::Black);
    assert!(p.finished(&Board::new(nine())));
}

#[test]
fn when_the_engine_moves() {
    let mut b = Board::new(nine());
    let best = Snapshot { turn: 0, is_final: true, moves: vec![Some(at(4, 4)), None] };
    let ask = |b: &Board, s: Option<&Snapshot>, ready: bool| {
        engine_move_decision(true, Stone::White, b, s, ready)
    };
    assert_eq!(ask(&b, Some(&best), true), Some(Action::Place(at(4, 4))));
    assert_eq!(ask(&b, Some(&best), false), None);
    assert_eq!(ask(&b, None, true), None);
    assert_eq!(engine_move_decision(false, Stone::White, &b, Some(&best), true), None);
    assert_eq!(engine_move_decision(true, Stone::Black, &b, Some(&best), true), None);
    let early = Snapshot { turn: 0, is_final: false, moves: vec![Some(at(4, 4))] };
    assert_eq!(ask(&b, Some(&early), true), None);
    let stale = Snapshot { turn: 1, is_final: true, moves: vec![Some(at(4, 4))] };
    assert_eq!(ask(&b, Some(&stale), true), None);
    let pass = Snapshot { turn: 0, is_final: true, moves: vec![None] };
    assert_eq!(ask(&b, Some(&pass), true), Some(Action::Pass));
    let none = Snapshot { turn: 0, is_final: true, moves: vec![] };
    assert_eq!(ask(&b, Some(&none), true), None);
    assert!(b.play(at(0, 0)).is_ok());
    assert!(b.play(at(1, 1)).is_ok());
    assert!(b.go_to(0));
    assert_eq!(ask(&b, Some(&best), true), None);
}

#[test]
fn undo_gives_the_turn_back() {
    let mut b = Board::new(nine());
    for c in [at(2, 2), at(6, 6), at(4, 4)] {
        assert!(b.play(c).is_ok());
    }
    assert!(undo_to_human(&mut b, Stone::Black));
    assert_eq!(b.move_count(), 2);
    assert!(undo_to_human(&mut b, Stone::Black));
    assert_eq!(b.move_count(), 0);
    assert!(!undo_to_human(&mut b, Stone::Black));
}

#[test]
fn hopeless_is_said_once() {
    let mut p = PlayState::new_game(&GameSetup::default());
    assert!(should_show_hopeless(&p, true));
    assert!(!should_show_hopeless(&p, false));
    mark_hopeless_shown(&mut p);
    assert!(!should_show_hopeless(&p, true));
    assert_eq!(resign_text(Stone::Black), "白方中盘胜");
    assert_eq!(resign_text(Stone::White), "黑方中盘胜");
}

#[test]
fn main_time_runs_out() {
    let mut c = Clock::new(TimeSystem::Absolute { seconds: Seconds::whole(2) });
    assert_eq!(c.tick(Stone::Black, SECOND), None);
    assert_eq!(c.side(Stone::Black).main, Some(SECOND as u128));
    assert_eq!(c.side(Stone::White).main, Some((2 * SECOND) as u128));
    assert_eq!(c.tick(Stone::Black, SECOND), Some(Stone::Black));
    assert_eq!(c.side(Stone::Black).main, Some(0));
    assert_eq!(c.total(Stone::Black), 2 * SECOND);
    assert_eq!(c.total(Stone::White), 0);
}

#[test]
fn periods_are_used_up() {
    let mut c = Clock::new(byoyomi());
    assert!(!c.side(Stone::White).in_byoyomi());
    assert_eq!(c.tick(Stone::White, 15 * SECOND), None);
    assert!(c.side(Stone::White).in_byoyomi());
    assert_eq!(c.side(Stone::White).period, (25 * SECOND) as u128);
    assert_eq!(c.side(Stone::White).periods_left, 3);
    assert_eq!(c.tick(Stone::White, 30 * SECOND), None);
    assert_eq!(c.side(Stone::White).periods_left, 2);
    assert_eq!(c.side(Stone::White).period, (25 * SECOND) as u128);
    c.on_human_move(Stone::White);
    assert_eq!(c.side(Stone::White).period, (30 * SECOND) as u128);
    assert_eq!(c.tick(Stone::White, 100 * SECOND), Some(Stone::White));
}

#[test]
fn ticks_add_up() {
    for (a, b) in [(3u64, 4u64), (5, 20), (10, 30), (12, 40), (50, 60)] {
        let mut one = Clock::new(byoyomi());
        let mut two = Clock::new(byoyomi());
        let lost = one.tick(Stone::Black, (a + b) * SECOND);
        let early = two.tick(Stone::Black, a * SECOND);
        let late = two.tick(Stone::Black, b * SECOND);
        assert_eq!(lost, early.or(late));
        assert_eq!(one.side(Stone::Black), two.side(Stone::Black));
        assert_eq!(one.total(Stone::Black), two.total(Stone::Black));
    }
}

#[test]
fn no_clock_no_loss() {
    let mut c = Clock::new(TimeSystem::Unlimited);
    assert_eq!(c.tick(Stone::Black, u64::MAX), None);
    assert_eq!(c.tick(Stone::Black, 5), None);
    assert_eq!(c.total(Stone::Black), u64::MAX);
    assert!(c.side(Stone::Black).usable().is_none());
    assert!(engine_budget(c.side(Stone::Black)).is_none());
}

#[test]
fn the_engine_pays_for_its_thought() {
    let mut c = Clock::new(byoyomi());
    c.on_engine_move(Stone::Black, 4 * SECOND);
    assert_eq!(c.side(Stone::Black).main, Some((6 * SECOND) as u128));
    c.on_engine_move(Stone::Black, 7 * SECOND);
    assert!(c.side(Stone::Black).in_byoyomi());
    assert_eq!(c.side(Stone::Black).periods_left, 3);
    c.on_engine_move(Stone::Black, 31 * SECOND);
    assert_eq!(c.side(Stone::Black).periods_left, 2);
    assert_eq!(c.total(Stone::Black), 42 * SECOND);
}

#[test]
fn what_the_engine_may_use() {
    let c = SideClock { main: Some((10 * SECOND) as u128), period: 0, periods_left: 0 };
    assert_eq!(
        engine_budget(&c),
        Some(TimeBudget { max_time: 9_200_000_000, remaining: Some((10 * SECOND) as u128) })
    );
    let c = SideClock { main: Some((SECOND / 2) as u128), period: 0, periods_left: 0 };
    assert_eq!(
        engine_budget(&c),
        Some(TimeBudget { max_time: 200_000_000, remaining: Some((SECOND / 2) as u128) })
    );
}

#[test]
fn clocks_are_shown() {
    let c = Clock::new(byoyomi());
    assert_eq!(clock_text(byoyomi(), c.side(Stone::Black), 0), "00:10 + 读秒 30s×3");
    let b = SideClock { main: Some(0), period: 24_500_000_000, periods_left: 2 };
    assert_eq!(clock_text(byoyomi(), &b, 0), "读秒 25s × 2 次");
    let a = SideClock { main: Some((61 * SECOND) as u128), period: 0, periods_left: 0 };
    assert_eq!(clock_text(TimeSystem::Absolute { seconds: Seconds::whole(0) }, &a, 0), "01:01");
    let u = SideClock { main: None, period: 0, periods_left: 0 };
    assert_eq!(clock_text(TimeSystem::Unlimited, &u, 5_900_000_000), "累计 5 秒");
    assert_eq!(TimeSystem::Unlimited.name(), "无限制");
    assert_eq!(TimeSystem::Absolute { seconds: Seconds::whole(1) }.name(), "包干制");
    assert_eq!(byoyomi().name(), "读秒制");
    assert_eq!(byoyomi().period_time(), Some((30 * SECOND) as u128));
    assert_eq!(TimeSystem::default(), TimeSystem::Unlimited);
    assert_eq!((side_index_of(Stone::Black), side_index_of(Stone::White)), (0, 1));
}
