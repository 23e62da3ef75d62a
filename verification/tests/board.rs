//! The board: coordinates, the rules of capture and ko, and the tree of moves.

use guanqi::board::{
    apply_move, chain_info, copy_records, same_records, Action, Board, Coord, CoordError,
    IllegalReason, MoveRecord, SetupError, Size, Stone,
};

fn nine() -> Size {
    Size::new(9).unwrap()
}

fn at(x: u8, y: u8) -> Coord {
    Coord::new(nine(), x, y).unwrap()
}

fn played(points: &[(u8, u8)]) -> Board {
    let mut b = Board::new(nine());
    for p in points {
        assert!(b.play(at(p.0, p.1)).is_ok());
    }
    b
}

fn path_of(b: &Board) -> Vec<Action> {
    b.records().iter().map(|r| r.action).collect()
}

#[test]
fn only_three_sizes() {
    for n in [9u8, 13, 19] {
        assert_eq!(Size::new(n).unwrap().n(), n);
    }
    for n in [0u8, 8, 10, 18, 20, 255] {
        assert_eq!(Size::new(n), Err(CoordError::UnsupportedSize(n)));
    }
    assert_eq!(Size::usual().n(), 19);
    assert_eq!(Size::usual().point_count(), 361);
    assert_eq!(nine().display(), "9路");
    assert_eq!(
        CoordError::UnsupportedSize(10).message(),
        "不支持的棋盘尺寸：10（仅支持 9 / 13 / 19 路）"
    );
    assert_eq!(CoordError::OffBoard.message(), "坐标超出棋盘范围");
    assert_eq!(CoordError::BadFormat.message(), "坐标格式非法");
}

#[test]
fn points_and_indices() {
    let s = nine();
    assert_eq!(Coord::new(s, 9, 0), None);
    assert_eq!(Coord::new(s, 0, 9), None);
    for i in 0..81usize {
        let c = Coord::from_index(s, i).unwrap();
        assert_eq!(c.index(s), i);
        assert!(c.on_board(s));
    }
    assert_eq!(Coord::from_index(s, 81), None);
    assert_eq!(at(3, 5).index(s), 48);
    assert_eq!((at(3, 5).x(), at(3, 5).y()), (3, 5));
    assert!(!Coord::new(Size::usual(), 9, 0).unwrap().on_board(s));
}

#[test]
fn neighbors_of_points() {
    let corner = at(0, 0).neighbors(nine());
    assert_eq!(corner.len(), 2);
    assert!(corner.contains(&at(1, 0)) && corner.contains(&at(0, 1)));
    assert_eq!(at(4, 0).neighbors(nine()).len(), 3);
    let inside = at(4, 4).neighbors(nine());
    assert_eq!(inside.len(), 4);
    for c in [at(3, 4), at(5, 4), at(4, 3), at(4, 5)] {
        assert!(inside.contains(&c));
    }
    for i in 0..81usize {
        let a = Coord::from_index(nine(), i).unwrap();
        for b in a.neighbors(nine()) {
            assert!(b.neighbors(nine()).contains(&a));
        }
    }
}

#[test]
fn gtp_letters_skip_i() {
    let s = Size::usual();
    let c = Coord::new(s, 15, 3).unwrap();
    assert_eq!(c.to_gtp(s), "Q16");
    assert_eq!(Coord::from_gtp(s, "Q16"), Ok(c));
    assert_eq!(Coord::from_gtp(s, "q16"), Ok(c));
    assert_eq!(Coord::new(s, 8, 18).unwrap().to_gtp(s), "J1");
    assert_eq!(Coord::from_gtp(s, "I5"), Err(CoordError::BadFormat));
    assert_eq!(Coord::from_gtp(s, "A20"), Err(CoordError::OffBoard));
    assert_eq!(Coord::from_gtp(s, ""), Err(CoordError::BadFormat));
    assert_eq!(at(0, 0).display(), "A(0,0)");
}

#[test]
fn gtp_reads_back() {
    let s = Size::new(13).unwrap();
    for i in 0..s.point_count() {
        let c = Coord::from_index(s, i).unwrap();
        assert_eq!(Coord::from_gtp(s, &c.to_gtp(s)), Ok(c));
    }
}

#[test]
fn sgf_letters() {
    let s = Size::usual();
    assert_eq!(Coord::new(s, 9, 9).unwrap().to_sgf(), "jj");
    for i in 0..s.point_count() {
        let c = Coord::from_index(s, i).unwrap();
        assert_eq!(Coord::from_sgf(s, &c.to_sgf()), Ok(c));
    }
    assert_eq!(Coord::from_sgf(nine(), "jj"), Err(CoordError::OffBoard));
    assert_eq!(Coord::from_sgf(nine(), "a"), Err(CoordError::BadFormat));
}

#[test]
fn chains_and_liberties() {
    let b = played(&[(0, 0), (4, 4), (1, 0), (5, 4)]);
    let chain = chain_info(nine(), b.grid(), at(1, 0)).unwrap();
    assert_eq!(chain.stones.len(), 2);
    assert!(chain.stones.contains(&at(0, 0)) && chain.stones.contains(&at(1, 0)));
    assert_eq!(chain.liberty_count(), 3);
    for c in [at(2, 0), at(0, 1), at(1, 1)] {
        assert!(chain.liberties.contains(&c));
    }
    assert!(chain_info(nine(), b.grid(), at(8, 8)).is_none());
}

#[test]
fn apply_move_takes_stones_or_leaves_the_grid() {
    let mut grid: Vec<Option<Stone>> = vec![None; 81];
    grid[at(0, 0).index(nine())] = Some(Stone::White);
    grid[at(1, 0).index(nine())] = Some(Stone::Black);
    let before = grid.clone();
    assert_eq!(
        apply_move(nine(), &mut grid, Stone::Black, at(0, 0)),
        Err(IllegalReason::Occupied)
    );
    assert_eq!(grid, before);
    let far = Coord::new(Size::usual(), 18, 18).unwrap();
    assert_eq!(apply_move(nine(), &mut grid, Stone::Black, far), Err(IllegalReason::OffBoard));
    assert_eq!(grid, before);
    let taken = apply_move(nine(), &mut grid, Stone::Black, at(0, 1)).unwrap();
    assert_eq!(taken, vec![at(0, 0)]);
    assert_eq!(grid[0], None);
    assert_eq!(grid[at(0, 1).index(nine())], Some(Stone::Black));
}

#[test]
fn occupied_and_suicide() {
    let mut b = played(&[(1, 0), (8, 8), (0, 1)]);
    assert_eq!(b.play(at(0, 0)), Err(IllegalReason::Suicide));
    assert_eq!(b.play(at(1, 0)), Err(IllegalReason::Occupied));
    assert_eq!(b.is_legal(at(0, 0)), Err(IllegalReason::Suicide));
    assert_eq!(b.is_legal(at(5, 5)), Ok(()));
    assert_eq!(b.move_count(), 3);
    assert_eq!(IllegalReason::Occupied.message(), "该点已有棋子");
    assert_eq!(IllegalReason::Suicide.message(), "禁着点：落子后自身无气（自杀）");
    assert_eq!(IllegalReason::OffBoard.message(), "坐标超出棋盘");
    assert_eq!(IllegalReason::Ko.message(), "打劫：不得立即回提，需先在别处落子");
    assert_eq!(
        IllegalReason::NotAtLatestMove.message(),
        "正在回看历史，不能在历史局面落子"
    );
}

/// Black takes one stone at (2,1); White may not take back at once.
fn ko_fight() -> Board {
    played(&[(1, 0), (2, 0), (0, 1), (3, 1), (1, 2), (2, 2), (8, 8), (1, 1), (2, 1)])
}

#[test]
fn ko_waits_one_move() {
    let mut b = ko_fight();
    assert_eq!(b.captured_by(Stone::Black), 1);
    assert_eq!(b.lost_by(Stone::White), 1);
    assert_eq!(b.get(at(1, 1)), None);
    assert_eq!(b.play(at(1, 1)), Err(IllegalReason::Ko));
    assert!(b.play(at(7, 7)).is_ok());
    assert!(b.play(at(6, 6)).is_ok());
    assert!(b.play(at(1, 1)).is_ok());
    assert_eq!(b.captured_by(Stone::White), 1);
    assert_eq!(b.lost_by(Stone::Black), 1);
}

#[test]
fn a_pass_ends_the_ko_wait() {
    let mut b = ko_fight();
    b.pass();
    b.pass();
    assert!(b.play(at(1, 1)).is_ok());
}

#[test]
fn setup_of_stones() {
    let b = Board::from_setup(nine(), &[at(2, 2)], &[at(6, 6)], &[], Stone::White).unwrap();
    assert_eq!(b.to_play(), Stone::White);
    assert_eq!(b.get(at(2, 2)), Some(Stone::Black));
    assert_eq!(b.get(at(6, 6)), Some(Stone::White));
    assert_eq!(b.move_count(), 0);
    let e = Board::from_setup(nine(), &[at(2, 2)], &[at(2, 2)], &[], Stone::Black).err().unwrap();
    assert_eq!(e, SetupError::Conflicting(at(2, 2)));
    assert_eq!(e.message(), "坐标 C(2,2) 被同时摆为黑子与白子");
    let far = Coord::new(Size::usual(), 18, 18).unwrap();
    let e = Board::from_setup(nine(), &[far], &[], &[], Stone::Black).err().unwrap();
    assert_eq!(e, SetupError::OffBoard(far));
    assert_eq!(e.message(), "摆子坐标 T(18,18) 超出棋盘范围");
}

#[test]
fn stepping_back_and_forward_restores_positions() {
    let mut b = ko_fight();
    let end: Vec<Option<Stone>> = b.grid().to_vec();
    let n = b.move_count();
    assert!(b.step_back());
    assert_eq!(b.get(at(1, 1)), Some(Stone::White));
    assert_eq!(b.captured_by(Stone::Black), 0);
    assert!(b.can_step_forward());
    assert!(b.step_forward());
    assert_eq!(b.grid(), end.as_slice());
    assert_eq!(b.captured_by(Stone::Black), 1);
    assert!(b.go_to(0));
    assert!(!b.can_step_back());
    assert!(!b.step_back());
    assert_eq!(b.cursor(), 0);
    assert_eq!(b.line_len(), n);
    assert!(b.go_to(n));
    assert_eq!(b.grid(), end.as_slice());
    assert!(!b.step_forward());
}

#[test]
fn branches_keep_every_move() {
    let mut b = played(&[(2, 2), (6, 6), (2, 6)]);
    assert!(b.go_to(1));
    assert!(b.play(at(4, 4)).is_ok());
    assert_eq!(b.nodes().len(), 5);
    assert!(b.step_back());
    assert_eq!(b.child_count(), 2);
    assert!(b.is_branch_point());
    assert_eq!(b.selected_child(), 1);
    assert_eq!(b.child_move(0).unwrap().action, Action::Place(at(6, 6)));
    assert_eq!(b.child_move(1).unwrap().action, Action::Place(at(4, 4)));
    assert!(b.child_move(2).is_none());
    assert!(b.prev_branch());
    assert_eq!(b.branch_index(), Some(0));
    assert_eq!(b.line_len(), 3);
    assert_eq!(b.records()[1].action, Action::Place(at(6, 6)));
    assert!(b.go_to(1));
    assert_eq!(b.selected_child(), 0);
    assert!(b.next_branch());
    assert_eq!(b.line_len(), 2);
    assert_eq!(b.branch_index(), Some(1));
    assert!(b.go_to(1));
    assert!(b.select_child(0));
    assert_eq!(b.branch_index(), Some(0));
    assert!(b.go_to(1));
    assert!(!b.select_child(2));
    assert_eq!(b.cursor(), 1);
}

#[test]
fn playing_a_known_move_follows_the_branch() {
    let mut b = played(&[(2, 2), (6, 6), (2, 6)]);
    let nodes = b.nodes().len();
    assert!(b.go_to(1));
    assert!(b.play(at(6, 6)).is_ok());
    assert_eq!(b.nodes().len(), nodes);
    assert_eq!(b.line_len(), 3);
}

#[test]
fn going_to_a_node() {
    let mut b = played(&[(2, 2), (6, 6), (2, 6)]);
    assert!(b.go_to(1));
    assert!(b.play(at(4, 4)).is_ok());
    let other = b.current_node();
    assert!(b.go_to_node(3));
    assert_eq!(b.records().len(), 3);
    assert_eq!(
        path_of(&b),
        vec![Action::Place(at(2, 2)), Action::Place(at(6, 6)), Action::Place(at(2, 6))]
    );
    assert!(b.go_to_node(other));
    assert_eq!(path_of(&b), vec![Action::Place(at(2, 2)), Action::Place(at(4, 4))]);
    assert!(!b.go_to_node(99));
    assert_eq!(b.current_node(), other);
    assert_eq!(b.nodes()[other].depth(), 2);
    assert_eq!(b.nodes()[other].parent(), Some(1));
    assert!(b.nodes()[other].children().is_empty());
}

#[test]
fn undo_drops_the_last_move() {
    let mut b = played(&[(2, 2), (6, 6)]);
    let r = b.undo().unwrap();
    assert_eq!(r.player, Stone::White);
    assert_eq!(r.action, Action::Place(at(6, 6)));
    assert_eq!(b.nodes().len(), 2);
    assert_eq!(b.to_play(), Stone::White);
    assert!(b.undo().is_some());
    assert!(b.undo().is_none());
    assert_eq!(b.nodes().len(), 1);
    assert!(b.play(at(0, 0)).is_ok());
}

#[test]
fn undo_in_an_older_branch() {
    let mut b = played(&[(2, 2), (6, 6), (2, 6)]);
    assert!(b.go_to(0));
    assert!(b.play(at(4, 4)).is_ok());
    assert!(b.go_to_node(3));
    assert!(b.undo().is_some());
    assert_eq!(path_of(&b), vec![Action::Place(at(2, 2)), Action::Place(at(6, 6))]);
    assert_eq!(b.nodes().len(), 4);
    assert!(b.undo().is_some());
    assert_eq!(b.nodes().len(), 3);
    assert!(b.go_to(0));
    assert_eq!(b.child_count(), 2);
}

#[test]
fn positions_and_records_by_turn() {
    let b = played(&[(2, 2), (6, 6)]);
    assert_eq!(b.position_at(0).unwrap().iter().filter(|p| p.is_some()).count(), 0);
    assert_eq!(b.position_at(1).unwrap()[at(2, 2).index(nine())], Some(Stone::Black));
    assert!(b.position_at(3).is_none());
    assert_eq!(b.record_at(1).unwrap().player, Stone::White);
    assert!(b.record_at(2).is_none());
    assert_eq!(b.line_records().len(), 2);
    assert_eq!(b.size(), nine());
}

#[test]
fn a_linear_prefix_is_that_line() {
    let mut b = played(&[(2, 2), (6, 6), (2, 6)]);
    assert!(b.go_to(1));
    assert!(b.play(at(4, 4)).is_ok());
    assert!(b.go_to_node(3));
    let p = b.linear_prefix(2);
    assert_eq!(p.nodes().len(), 3);
    assert!(same_records(p.records(), &b.records()[..2]));
    assert_eq!(p.grid(), b.position_at(2).unwrap().as_slice());
}

#[test]
fn moving_about_changes_no_move() {
    let mut b = played(&[(2, 2), (6, 6), (2, 6)]);
    assert!(b.go_to(1));
    assert!(b.play(at(4, 4)).is_ok());
    let seen: Vec<(Option<usize>, usize)> =
        b.nodes().iter().map(|n| (n.parent(), n.depth())).collect();
    let moves: Vec<Option<Action>> =
        b.nodes().iter().map(|n| n.record().map(|r| r.action)).collect();
    for id in [0usize, 3, 4, 1, 2] {
        assert!(b.go_to_node(id));
        assert_eq!(b.current_node(), id);
        let now: Vec<(Option<usize>, usize)> =
            b.nodes().iter().map(|n| (n.parent(), n.depth())).collect();
        assert_eq!(now, seen);
        let now: Vec<Option<Action>> =
            b.nodes().iter().map(|n| n.record().map(|r| r.action)).collect();
        assert_eq!(now, moves);
    }
}

#[test]
fn a_move_that_is_taken_back_leaves_no_trace() {
    let mut b = ko_fight();
    let before: Vec<Option<Stone>> = b.grid().to_vec();
    let nodes = b.nodes().len();
    assert!(b.play(at(5, 5)).is_ok());
    assert!(b.undo().is_some());
    assert_eq!(b.grid(), before.as_slice());
    assert_eq!(b.nodes().len(), nodes);
    assert_eq!(b.play(at(1, 1)), Err(IllegalReason::Ko));
}

#[test]
fn records_are_compared_and_copied() {
    let b = ko_fight();
    let copy = copy_records(b.records());
    assert!(same_records(&copy, b.records()));
    assert!(!same_records(&copy[1..], b.records()));
    let last: &MoveRecord = &copy[8];
    assert_eq!(last.captured, vec![at(1, 1)]);
    assert!(!last.is_pass());
    assert!(last.same(&b.records()[8]));
    assert!(!last.same(&b.records()[7]));
}

#[test]
fn sides_alternate() {
    let mut b = Board::new(nine());
    assert_eq!(b.to_play(), Stone::Black);
    b.pass();
    assert_eq!(b.to_play(), Stone::White);
    assert!(b.records()[0].is_pass());
    assert_eq!(Stone::Black.opposite(), Stone::White);
    assert_eq!(Stone::White.opposite(), Stone::Black);
    assert_eq!(Stone::Black.name(), "黑");
    assert_eq!(Stone::White.name(), "白");
}

#[test]
fn a_ko_is_retaken_after_two_passes() {
    let mut b = Board::from_setup(
        nine(),
        &[at(1, 0), at(0, 1), at(1, 2)],
        &[at(2, 0), at(3, 1), at(2, 2)],
        &[],
        Stone::White,
    )
    .unwrap();
    assert_eq!(b.play(at(1, 1)), Ok(()));
    assert_eq!(b.play(at(2, 1)), Ok(()));
    assert_eq!(b.captured_by(Stone::Black), 1);
    assert_eq!(b.play(at(1, 1)), Err(IllegalReason::Ko));
    assert_eq!(b.cursor(), 2);
    b.pass();
    b.pass();
    assert_eq!(b.play(at(1, 1)), Ok(()));
    assert_eq!(b.records()[4].captured, vec![at(2, 1)]);
    let copy = copy_records(b.records());
    assert_eq!(copy[4].captured, vec![at(2, 1)]);
    for c in [Stone::Black, Stone::White] {
        let on = |g: &[Option<Stone>]| g.iter().filter(|p| **p == Some(c)).count();
        let put = b.records().iter().filter(|r| r.player == c && !r.is_pass()).count();
        let listed: usize = b
            .records()
            .iter()
            .filter(|r| r.player == c)
            .map(|r| r.captured.len())
            .sum();
        assert_eq!(b.captured_by(c) as usize, listed);
        assert_eq!(b.lost_by(c), b.captured_by(c.opposite()));
        assert_eq!(on(b.grid()) + b.lost_by(c) as usize, on(b.position_at(0).unwrap()) + put);
    }
}

#[test]
fn a_pass_is_taken_back() {
    let mut b = played(&[(2, 2), (6, 6)]);
    let grid = b.grid().to_vec();
    b.pass();
    assert_eq!(b.move_count(), 3);
    let r = b.undo().unwrap();
    assert!(r.is_pass());
    assert_eq!(r.player, Stone::Black);
    assert_eq!(b.grid(), &grid[..]);
    assert_eq!(b.cursor(), 2);
    assert_eq!(b.to_play(), Stone::Black);
    assert_eq!(b.move_count(), 2);
    assert_eq!(path_of(&b).len(), 2);
    b.go_to(1);
    assert!(b.undo().is_none());
    assert_eq!(b.move_count(), 2);
}
