//! What holds of boards across operations.

use vstd::prelude::*;
use super::coord::{self, Coord, Size};
use super::copies;
use super::model::{self, BoardView, NodeView, RecordView};
use super::rules::{self, IllegalReason, Stone};
use super::tree;
use super::{Action, MoveRecord};

verus! {

/// Where the cursor stands after a move: at a child of the old node, one move further on, with
/// the other side to move.
spec fn lands_on(b: BoardView, w: BoardView, r: RecordView, grid: Seq<Option<Stone>>) -> bool {
    &&& w.wf()
    &&& w.size == b.size
    &&& w.root_to_play == b.root_to_play
    &&& w.here().parent == Some(b.current)
    &&& w.here().depth == b.here().depth + 1
    &&& w.here().grid == grid
    &&& w.here().record == Some(r)
}

/// A record that may be entered on a board.
spec fn enterable(b: BoardView, r: RecordView, grid: Seq<Option<Stone>>) -> bool {
    &&& r.player == b.to_play()
    &&& grid.len() == b.size.points()
    &&& match r.action {
        Action::Pass => grid == b.here().grid && r.captured == Set::<Coord>::empty(),
        Action::Place(at) => b.tried(at) == Ok::<
            (Seq<Option<Stone>>, Set<Coord>),
            IllegalReason,
        >((grid, r.captured)),
    }
}

proof fn lemma_entered(b: BoardView, r: RecordView, grid: Seq<Option<Stone>>)
    requires
        b.wf(),
        b.nodes.len() < usize::MAX || model::has_child_with(b.nodes, b.current, r.action),
        enterable(b, r, grid),
    ensures
        lands_on(b, b.entered(r, grid), r, grid),
        model::has_child_with(b.nodes, b.current, r.action) ==> tree::same_core(
            b.nodes,
            b.entered(r, grid).nodes,
        ),
        !model::has_child_with(b.nodes, b.current, r.action) ==> b.entered(r, grid).nodes.len()
            == b.nodes.len() + 1,
{
    let nodes = b.nodes;
    let cur = b.current;
    if model::has_child_with(nodes, cur, r.action) {
        let k = choose|k: int| #[trigger] model::child_is(nodes, cur, r.action, k);
        let i = model::child_with(nodes, cur, r.action);
        tree::lemma_children_bound(b.size, b.root_to_play, nodes, cur);
        assert(i == k);
        let c = b.here().children[i as int];
        tree::lemma_select(b.size, b.root_to_play, nodes, cur, i);
        let s = b.choosing(i);
        tree::lemma_moved(s, c);
        tree::lemma_touched(b.size, b.root_to_play, s.nodes, c);
        assert(model::child_of(nodes, c, cur as int));
        assert(model::hung(nodes, c as int));
        assert(model::step_ok(b.size, b.root_to_play, nodes, c as int));
        let w = s.moved(c);
        assert(w.here().record == nodes[c as int].record);
        assert(w.here().grid == nodes[c as int].grid);
        assert(tree::same_core(nodes, w.nodes)) by {
            assert forall|x: int|
                #![trigger nodes[x]]
                #![trigger w.nodes[x]]
                0 <= x < nodes.len() implies nodes[x].record == w.nodes[x].record
                && nodes[x].parent == w.nodes[x].parent && nodes[x].children == w.nodes[x].children
                && nodes[x].grid == w.nodes[x].grid && nodes[x].depth == w.nodes[x].depth by {
                assert(s.nodes[x].record == nodes[x].record);
            }
        }
        assert(w.here().record->0 =~= r);
    } else {
        let id = nodes.len() as usize;
        tree::lemma_grown(b, r, grid);
        let g = BoardView { nodes: model::grown(nodes, cur, r, grid), ..b };
        tree::lemma_moved(g, id);
        tree::lemma_touched(b.size, b.root_to_play, g.nodes, id);
        assert(g.nodes[id as int].grid == grid);
        assert(g.moved(id).here().grid == grid);
    }
}

/// A legal move puts the cursor one move further on: the position is the one the rules give, the
/// other side moves next, and the position before the previous move has not come back.
pub proof fn law_play(b: BoardView, at: Coord)
    requires
        b.wf(),
        b.nodes.len() < usize::MAX,
        b.played(at) is Ok,
    ensures
        ({
            let w = b.played(at)->Ok_0;
            let (grid, gone) = rules::move_result(
                b.size,
                b.here().grid,
                b.to_play(),
                at,
            )->Ok_0;
            &&& w.wf()
            &&& w.here().parent == Some(b.current)
            &&& w.here().depth == b.here().depth + 1
            &&& w.here().grid == grid
            &&& w.here().record == Some(
                RecordView { player: b.to_play(), action: Action::Place(at), captured: gone },
            )
            &&& w.to_play() == b.to_play().other()
            &&& b.here().parent is Some ==> b.nodes[b.here().parent->0 as int].grid
                != w.here().grid
        }),
{
    let (grid, gone) = b.tried(at)->Ok_0;
    let r = RecordView { player: b.to_play(), action: Action::Place(at), captured: gone };
    assert(b.here().grid.len() == b.size.points());
    lemma_entered(b, r, grid);
}

/// A pass puts the cursor one move further on, with the position unchanged and the other side to
/// move.
pub proof fn law_pass(b: BoardView)
    requires
        b.wf(),
        b.nodes.len() < usize::MAX,
    ensures
        ({
            let w = b.passed();
            &&& w.wf()
            &&& w.here().parent == Some(b.current)
            &&& w.here().depth == b.here().depth + 1
            &&& w.here().grid == b.here().grid
            &&& w.to_play() == b.to_play().other()
        }),
{
    let r = RecordView {
        player: b.to_play(),
        action: Action::Pass,
        captured: Set::<Coord>::empty(),
    };
    assert(b.here().grid.len() == b.size.points());
    lemma_entered(b, r, b.here().grid);
}

/// Playing a move that a child of the node already holds adds nothing to the tree.
pub proof fn law_known_move_adds_nothing(b: BoardView, at: Coord)
    requires
        b.wf(),
        b.nodes.len() < usize::MAX,
        b.played(at) is Ok,
        model::has_child_with(b.nodes, b.current, Action::Place(at)),
    ensures
        tree::same_core(b.nodes, b.played(at)->Ok_0.nodes),
{
    let (grid, gone) = b.tried(at)->Ok_0;
    assert(b.here().grid.len() == b.size.points());
    lemma_entered(
        b,
        RecordView { player: b.to_play(), action: Action::Place(at), captured: gone },
        grid,
    );
}

/// A move that the rules allow on the bare position is refused for ko exactly where it brings back
/// the position before the last move; any other is played. What the rules refuse is refused for
/// their reason.
pub proof fn law_ko(b: BoardView, at: Coord)
    ensures
        match rules::move_result(b.size, b.here().grid, b.to_play(), at) {
            Ok((after, gone)) => {
                let back = b.here().parent matches Some(p) && b.nodes[p as int].grid == after;
                &&& back <==> b.played(at) == Err::<BoardView, IllegalReason>(IllegalReason::Ko)
                &&& !back <==> b.played(at) is Ok
                &&& !back <==> b.tried(at) is Ok
                &&& b.tried(at) matches Ok(t) ==> t == (after, gone)
            },
            Err(e) => {
                &&& b.played(at) == Err::<BoardView, IllegalReason>(e)
                &&& b.tried(at) == Err::<(Seq<Option<Stone>>, Set<Coord>), IllegalReason>(e)
                &&& e != IllegalReason::Ko
            },
        },
{
}

/// A move puts a stone of the side to move on its point, empties the points of the stones it takes,
/// and leaves every other point as it was.
pub proof fn law_play_on_the_board(b: BoardView, at: Coord, c: Coord)
    requires
        b.wf(),
        b.nodes.len() < usize::MAX,
        b.played(at) is Ok,
        c.on(b.size),
    ensures
        ({
            let w = b.played(at)->Ok_0;
            let gone = w.here().record->0.captured;
            let placed = b.here().grid.update(at.idx(b.size), Some(b.to_play()));
            &&& w.here().grid[c.idx(b.size)] == if c == at {
                Some(b.to_play())
            } else if gone.contains(c) {
                None
            } else {
                b.here().grid[c.idx(b.size)]
            }
            &&& gone.contains(c) ==> b.here().grid[c.idx(b.size)] == Some(b.to_play().other())
            &&& gone.contains(c) ==> rules::liberties(b.size, placed, b.to_play().other(), c)
                == Set::<Coord>::empty()
            &&& gone.contains(c) ==> rules::chain(
                b.size,
                placed,
                b.to_play().other(),
                c,
            ).subset_of(gone)
            &&& coord::steps_apart(at, c) == 1 && b.here().grid[c.idx(b.size)] == Some(
                b.to_play().other(),
            ) && rules::liberties(b.size, placed, b.to_play().other(), c) == Set::<Coord>::empty()
                ==> gone.contains(c)
        }),
{
    law_play(b, at);
    let grid = b.here().grid;
    assert(grid.len() == b.size.points());
    let (after, gone) = rules::move_result(b.size, grid, b.to_play(), at)->Ok_0;
    rules::law_move_changes_little(b.size, grid, b.to_play(), at, c);
    rules::law_taken_is_without_liberty(b.size, grid, b.to_play(), at, c);
    if gone.contains(c) {
        rules::law_only_opponent_taken(b.size, grid, b.to_play(), at, c);
        rules::law_whole_chains_are_taken(b.size, grid, b.to_play(), at, c);
    }
}

/// The moves up to the cursor after a move are those before it and the move.
pub proof fn law_moves_are_listed_in_order(b: BoardView, at: Coord)
    requires
        b.wf(),
        b.nodes.len() < usize::MAX,
    ensures
        b.played(at) matches Ok(w) ==> model::path_records(w.nodes, w.current)
            == model::path_records(b.nodes, b.current).push(
            RecordView {
                player: b.to_play(),
                action: Action::Place(at),
                captured: w.here().record->0.captured,
            },
        ),
        model::path_records(b.passed().nodes, b.passed().current) == model::path_records(
            b.nodes,
            b.current,
        ).push(
            RecordView {
                player: b.to_play(),
                action: Action::Pass,
                captured: Set::<Coord>::empty(),
            },
        ),
{
    assert(b.here().grid.len() == b.size.points());
    law_moves_add(b, at);
    let r = RecordView {
        player: b.to_play(),
        action: Action::Pass,
        captured: Set::<Coord>::empty(),
    };
    lemma_entered(b, r, b.here().grid);
    let w = b.passed();
    lemma_entered_extends(b, r, b.here().grid);
    copies::lemma_path_push(w, w.current);
    lemma_extends_path(b, w, b.current);
    if let Ok(w) = b.played(at) {
        law_play(b, at);
        let (grid, gone) = b.tried(at)->Ok_0;
        let r = RecordView { player: b.to_play(), action: Action::Place(at), captured: gone };
        lemma_entered(b, r, grid);
        lemma_entered_extends(b, r, grid);
        copies::lemma_path_push(w, w.current);
        lemma_extends_path(b, w, b.current);
    }
}

/// After a pass the last move is that pass.
pub(crate) proof fn lemma_passed_record(b: BoardView)
    requires
        b.wf(),
        b.nodes.len() < usize::MAX,
    ensures
        b.passed().here().record == Some(
            RecordView {
                player: b.to_play(),
                action: Action::Pass,
                captured: Set::<Coord>::empty(),
            },
        ),
{
    assert(b.here().grid.len() == b.size.points());
    let r = RecordView {
        player: b.to_play(),
        action: Action::Pass,
        captured: Set::<Coord>::empty(),
    };
    lemma_entered(b, r, b.here().grid);
}

/// A new move is hung behind the variations that there are; every node but the one moved from has
/// the children it had.
pub proof fn law_new_move_comes_last(b: BoardView, at: Coord, i: int)
    requires
        b.wf(),
        b.nodes.len() < usize::MAX,
        b.played(at) is Ok,
        !model::has_child_with(b.nodes, b.current, Action::Place(at)),
        0 <= i < b.nodes.len(),
    ensures
        ({
            let w = b.played(at)->Ok_0;
            &&& w.nodes.len() == b.nodes.len() + 1
            &&& w.current == b.nodes.len()
            &&& w.nodes[i].children == if i == b.current {
                b.nodes[i].children.push(w.current)
            } else {
                b.nodes[i].children
            }
        }),
{
    let (grid, gone) = b.tried(at)->Ok_0;
    assert(b.here().grid.len() == b.size.points());
    let r = RecordView { player: b.to_play(), action: Action::Place(at), captured: gone };
    lemma_entered(b, r, grid);
    let g = model::grown(b.nodes, b.current, r, grid);
    assert(b.entered(r, grid).nodes == model::touched(g, b.nodes.len() as usize));
    assert(model::touched(g, b.nodes.len() as usize)[i].children == g[i].children);
}

/// A board set up anew holds the stones it was given: white where white was asked for, black where
/// black was, nothing where a point was cleared and nowhere else. It is refused exactly where a
/// point is off the board or asked for twice.
pub proof fn law_setup(
    size: Size,
    black: Seq<Coord>,
    white: Seq<Coord>,
    removed: Seq<Coord>,
    to_play: Stone,
    c: Coord,
)
    requires
        size.wf(),
        c.on(size),
    ensures
        match super::setup_result(size, black, white, removed, to_play) {
            Ok(b) => {
                &&& b.size == size
                &&& b.to_play() == to_play
                &&& b.nodes.len() == 1
                &&& b.here().record is None
                &&& b.here().parent is None
                &&& b.here().children.len() == 0
                &&& b.here().depth == 0
                &&& b.here().grid.len() == size.points()
                &&& b.here().grid[c.idx(size)] == if removed.contains(c) {
                    None
                } else if black.contains(c) {
                    Some(Stone::Black)
                } else if white.contains(c) {
                    Some(Stone::White)
                } else {
                    None
                }
                &&& !(black.contains(c) && white.contains(c))
            },
            Err(super::SetupError::OffBoard(d)) => !d.on(size) && (black.contains(d)
                || white.contains(d) || removed.contains(d)),
            Err(super::SetupError::Conflicting(d)) => black.contains(d) && white.contains(d)
                && d.on(size),
        },
{
    let all = black + white + removed;
    lemma_first_off(size, all);
    lemma_first_shared(black, white);
    match super::first_off(size, all) {
        Some(d) => {
            let i = choose|i: int| 0 <= i < all.len() && all[i] == d;
            if i < black.len() {
                assert(black[i] == d);
            } else if i < black.len() + white.len() {
                assert(white[i - black.len()] == d);
            } else {
                assert(removed[i - black.len() - white.len()] == d);
            }
        },
        None => {
            assert forall|k: int| 0 <= k < black.len() implies (#[trigger] black[k]).on(size) by {
                assert(all[k] == black[k]);
            }
            assert forall|k: int| 0 <= k < white.len() implies (#[trigger] white[k]).on(size) by {
                assert(all[black.len() + k] == white[k]);
            }
            assert forall|k: int| 0 <= k < removed.len() implies (#[trigger] removed[k]).on(size) by {
                assert(all[black.len() + white.len() + k] == removed[k]);
            }
            coord::lemma_idx_range(c, size);
            lemma_at_index(size, black, c);
            lemma_at_index(size, white, c);
            lemma_at_index(size, removed, c);
        },
    }
}

proof fn lemma_at_index(size: Size, s: Seq<Coord>, c: Coord)
    requires
        c.on(size),
        forall|k: int| 0 <= k < s.len() ==> (#[trigger] s[k]).on(size),
    ensures
        super::at_index(size, s, c.idx(size)) == s.contains(c),
{
    if super::at_index(size, s, c.idx(size)) {
        let k = choose|k: int| 0 <= k < s.len() && (#[trigger] s[k]).idx(size) == c.idx(size);
        coord::lemma_idx_injective(s[k], c, size);
    }
    if s.contains(c) {
        let k = choose|k: int| 0 <= k < s.len() && s[k] == c;
        assert(s[k].idx(size) == c.idx(size));
    }
}

proof fn lemma_first_off(size: Size, s: Seq<Coord>)
    ensures
        match super::first_off(size, s) {
            Some(d) => s.contains(d) && !d.on(size),
            None => forall|k: int| 0 <= k < s.len() ==> (#[trigger] s[k]).on(size),
        },
    decreases s.len(),
{
    if s.len() > 0 {
        lemma_first_off(size, s.skip(1));
        match super::first_off(size, s.skip(1)) {
            Some(d) => {
                let i = choose|i: int| 0 <= i < s.skip(1).len() && s.skip(1)[i] == d;
                assert(s[i + 1] == d);
                assert(s[0] == s[0]);
            },
            None => {
                assert forall|k: int| 0 <= k < s.len() && s[0].on(size) implies (
                #[trigger] s[k]).on(size) by {
                    if k > 0 {
                        assert(s.skip(1)[k - 1] == s[k]);
                    }
                }
            },
        }
    }
}

proof fn lemma_first_shared(a: Seq<Coord>, b: Seq<Coord>)
    ensures
        match super::first_shared(a, b) {
            Some(d) => a.contains(d) && b.contains(d),
            None => forall|d: Coord| #[trigger] a.contains(d) ==> !b.contains(d),
        },
    decreases a.len(),
{
    if a.len() > 0 {
        lemma_first_shared(a.skip(1), b);
        if !b.contains(a[0]) {
            match super::first_shared(a.skip(1), b) {
                Some(d) => {
                    let i = choose|i: int| 0 <= i < a.skip(1).len() && a.skip(1)[i] == d;
                    assert(a[i + 1] == d);
                },
                None => {
                    assert forall|d: Coord| #[trigger] a.contains(d) implies !b.contains(d) by {
                        let k = choose|k: int| 0 <= k < a.len() && a[k] == d;
                        if k > 0 {
                            assert(a.skip(1)[k - 1] == d);
                            assert(a.skip(1).contains(d));
                        }
                    }
                },
            }
        }
    }
}

/// A new board holds the position and the side to move that it was given, and no move.
pub proof fn law_fresh_board(size: Size, to_play: Stone, grid: Seq<Option<Stone>>)
    ensures
        ({
            let b = super::fresh_board(size, to_play, grid);
            &&& b.size == size
            &&& b.to_play() == to_play
            &&& b.here().grid == grid
            &&& b.here().record is None
            &&& b.here().parent is None
            &&& b.here().depth == 0
            &&& b.nodes.len() == 1
        }),
{
}

/// Moving the cursor puts it where it was asked to go and changes no move, position or variation.
pub proof fn law_cursor_goes_there(b: BoardView, id: usize)
    requires
        b.wf(),
        id < b.nodes.len(),
    ensures
        b.moved(id).current == id,
        b.jumped(id).current == id,
        b.moved(id).size == b.size,
        b.jumped(id).size == b.size,
        b.moved(id).root_to_play == b.root_to_play,
        b.jumped(id).root_to_play == b.root_to_play,
        b.moved(id).here().grid == b.nodes[id as int].grid,
        b.jumped(id).here().grid == b.nodes[id as int].grid,
        b.moved(id).here().record == b.nodes[id as int].record,
        b.jumped(id).here().record == b.nodes[id as int].record,
{
    tree::lemma_touched(b.size, b.root_to_play, b.nodes, id);
    tree::lemma_select_path(b.size, b.root_to_play, b.nodes, id);
    let p = model::select_path(b.nodes, id);
    tree::lemma_touched(b.size, b.root_to_play, p, id);
    assert(p[id as int].record == b.nodes[id as int].record);
    assert(model::touched(p, id)[id as int].record == p[id as int].record);
    assert(model::touched(b.nodes, id)[id as int].record == b.nodes[id as int].record);
}

/// After a pass, no move is ruled out by ko.
pub proof fn law_pass_lifts_ko(b: BoardView, at: Coord)
    requires
        b.wf(),
        b.here().record matches Some(r) && r.action == Action::Pass,
    ensures
        b.tried(at) != Err::<(Seq<Option<Stone>>, Set<Coord>), IllegalReason>(IllegalReason::Ko),
{
    let cur = b.current as int;
    assert(cur != 0);
    assert(model::hung(b.nodes, cur));
    assert(model::step_ok(b.size, b.root_to_play, b.nodes, cur));
    let grid = b.here().grid;
    assert(grid.len() == b.size.points());
    match rules::move_result(b.size, grid, b.to_play(), at) {
        Ok((after, gone)) => {
            rules::law_move_changes_little(b.size, grid, b.to_play(), at, at);
            coord::lemma_idx_range(at, b.size);
            assert(after[at.idx(b.size)] != grid[at.idx(b.size)]);
        },
        Err(e) => {},
    }
}

/// Moving the cursor leaves every move and every position of the tree as it was.
pub proof fn law_navigation_keeps_tree(b: BoardView, id: usize, i: usize)
    requires
        b.wf(),
        id < b.nodes.len(),
        i < b.here().children.len(),
    ensures
        tree::same_core(b.nodes, b.moved(id).nodes),
        tree::same_core(b.nodes, b.branched(i).nodes),
        tree::same_core(b.nodes, b.jumped(id).nodes),
{
    tree::lemma_touched(b.size, b.root_to_play, b.nodes, id);
    tree::lemma_select(b.size, b.root_to_play, b.nodes, b.current, i);
    let c = b.choosing(i);
    let child = b.here().children[i as int];
    let want = b.here().last_depth as nat;
    tree::lemma_descend(c.size, c.root_to_play, c.nodes, child, want);
    let e = model::descend(c.nodes, child, want);
    tree::lemma_touched(b.size, b.root_to_play, c.nodes, e);
    lemma_same_core_trans(b.nodes, c.nodes, c.moved(e).nodes);
    tree::lemma_select_path(b.size, b.root_to_play, b.nodes, id);
    let p = model::select_path(b.nodes, id);
    tree::lemma_touched(b.size, b.root_to_play, p, id);
    lemma_same_core_trans(b.nodes, p, b.jumped(id).nodes);
}

proof fn lemma_same_core_trans(a: Seq<NodeView>, b: Seq<NodeView>, c: Seq<NodeView>)
    requires
        tree::same_core(a, b),
        tree::same_core(b, c),
    ensures
        tree::same_core(a, c),
{
    assert forall|i: int|
        #![trigger a[i]]
        #![trigger c[i]]
        0 <= i < a.len() implies a[i].record == c[i].record && a[i].parent == c[i].parent
        && a[i].children == c[i].children && a[i].grid == c[i].grid && a[i].depth == c[i].depth by {
        assert(a[i].record == b[i].record);
    }
}

/// Going back and then forward returns to the same node.
pub proof fn law_back_then_forward(b: BoardView)
    requires
        b.wf(),
        b.here().parent is Some,
    ensures
        ({
            let back = b.moved(b.here().parent->0);
            &&& back.wf()
            &&& back.here().children.len() > 0
            &&& back.here().children[back.here().selected as int] == b.current
        }),
{
    let p = b.here().parent->0;
    let d = b.here().depth as nat;
    assert(b.current != 0 && model::hung(b.nodes, b.current as int));
    tree::lemma_line(b.size, b.root_to_play, b.nodes, d);
    tree::lemma_moved(b, p);
    tree::lemma_touched(b.size, b.root_to_play, b.nodes, p);
    tree::lemma_next(b.size, b.root_to_play, b.nodes, p);
    let back = b.moved(p);
    assert(back.here().children == b.nodes[p as int].children);
    assert(back.here().selected == b.nodes[p as int].selected);
}

/// Going forward and then back returns to the same node.
pub proof fn law_forward_then_back(b: BoardView)
    requires
        b.wf(),
        b.here().children.len() > 0,
    ensures
        ({
            let c = b.here().children[b.here().selected as int];
            let forth = b.moved(c);
            &&& forth.wf()
            &&& forth.here().parent == Some(b.current)
        }),
{
    let c = b.here().children[b.here().selected as int];
    tree::lemma_next(b.size, b.root_to_play, b.nodes, b.current);
    assert(model::line_at(b.nodes, (b.here().depth + 1) as nat) == Some(c));
    tree::lemma_moved(b, c);
    tree::lemma_touched(b.size, b.root_to_play, b.nodes, c);
    assert(b.moved(c).here().parent == b.nodes[c as int].parent);
}

/// Jumping to a node puts the cursor there, whatever line was selected before.
pub proof fn law_jump_reaches(b: BoardView, id: usize)
    requires
        b.wf(),
        id < b.nodes.len(),
    ensures
        b.jumped(id).wf(),
        b.jumped(id).current == id,
{
    tree::lemma_select_path(b.size, b.root_to_play, b.nodes, id);
    let p = BoardView { nodes: model::select_path(b.nodes, id), ..b };
    tree::lemma_moved(p, id);
}

/// Entering a child keeps a board well-formed.
pub proof fn law_branch_reaches(b: BoardView, i: usize)
    requires
        b.wf(),
        i < b.here().children.len(),
    ensures
        b.branched(i).wf(),
{
    tree::lemma_select(b.size, b.root_to_play, b.nodes, b.current, i);
    let c = b.choosing(i);
    let child = b.here().children[i as int];
    let want = b.here().last_depth as nat;
    tree::lemma_descend(c.size, c.root_to_play, c.nodes, child, want);
    tree::lemma_moved(c, model::descend(c.nodes, child, want));
}

/// Taking back a move removes one node and puts the cursor on its parent.
pub proof fn law_undo(b: BoardView)
    requires
        b.wf(),
        b.can_undo(),
    ensures
        ({
            let w = b.undone();
            let p = b.nodes[b.here().parent->0 as int];
            &&& w.wf()
            &&& w.nodes.len() == b.nodes.len() - 1
            &&& w.here().depth == b.here().depth - 1
            &&& w.here().depth == p.depth
            &&& w.here().grid == p.grid
            &&& w.here().record == p.record
        }),
{
    tree::lemma_pruned(b);
    let q = model::renamed(b.nodes, b.current, b.here().parent->0);
    let w = BoardView { nodes: model::pruned(b.nodes, b.current), ..b };
    assert(b.current != 0 && model::hung(b.nodes, b.current as int));
    tree::lemma_moved(w, q);
    tree::lemma_touched(b.size, b.root_to_play, w.nodes, q);
    assert(w.moved(q).here().grid == w.nodes[q as int].grid);
}

/// After a move is taken back the cursor's node hangs where its own parent did, with one child less.
pub(crate) proof fn lemma_undone_parent(b: BoardView)
    requires
        b.wf(),
        b.can_undo(),
    ensures
        ({
            let w = b.undone();
            let p = b.here().parent->0;
            &&& w.here().children.len() == b.nodes[p as int].children.len() - 1
            &&& w.here().parent is Some <==> b.nodes[p as int].parent is Some
            &&& b.nodes[p as int].parent matches Some(g) ==> {
                &&& w.nodes[w.here().parent->0 as int].grid == b.nodes[g as int].grid
                &&& w.nodes[w.here().parent->0 as int].record == b.nodes[g as int].record
                &&& w.nodes[w.here().parent->0 as int].depth == b.nodes[g as int].depth
            }
        }),
{
    tree::lemma_pruned(b);
    let p = b.here().parent->0;
    let cur = b.current;
    let q = model::renamed(b.nodes, cur, p);
    let w = BoardView { nodes: model::pruned(b.nodes, cur), ..b };
    assert(cur != 0 && model::hung(b.nodes, cur as int));
    tree::lemma_touched(b.size, b.root_to_play, w.nodes, q);
    let t = w.moved(q);
    assert(t.nodes[q as int].children == w.nodes[q as int].children);
    assert(t.nodes[q as int].parent == w.nodes[q as int].parent);
    assert(p != cur);
    assert(w.nodes[q as int] == model::trimmed_node(b.nodes, cur, p as int));
    assert(b.nodes[p as int].children.contains(cur));
    let pos = model::place_of(b.nodes, cur);
    assert(0 <= pos < b.nodes[p as int].children.len());
    if let Some(g) = b.nodes[p as int].parent {
        assert(p != 0 && model::hung(b.nodes, p as int));
        assert(g != cur) by {
            if g == cur {
                assert(b.nodes[cur as int].children.len() > 0);
            }
        }
        let h = model::renamed(b.nodes, cur, g);
        assert(w.nodes[h as int] == model::trimmed_node(b.nodes, cur, g as int));
        assert(t.nodes[h as int].grid == w.nodes[h as int].grid);
    }
}

/// Where going on along selected children ends: at a leaf, or as deep as wanted.
proof fn lemma_descend_end(size: Size, first: Stone, nodes: Seq<NodeView>, id: usize, want: nat)
    requires
        model::tree_ok(size, first, nodes),
        id < nodes.len(),
        model::line_at(nodes, nodes[id as int].depth as nat) == Some(id),
    ensures
        ({
            let e = model::descend(nodes, id, want);
            let d = nodes[id as int].depth;
            &&& e < nodes.len()
            &&& nodes[e as int].depth >= d
            &&& nodes[e as int].depth <= want || e == id
            &&& nodes[e as int].children.len() == 0 || nodes[e as int].depth >= want
        }),
    decreases want - nodes[id as int].depth,
{
    tree::lemma_next(size, first, nodes, id);
    match model::next_of(nodes, id) {
        None => {},
        Some(c) => {
            if nodes[id as int].depth < nodes[c as int].depth <= want {
                assert(model::line_at(nodes, nodes[c as int].depth as nat) == Some(c));
                lemma_descend_end(size, first, nodes, c, want);
            }
        },
    }
}

/// Choosing a variation puts it on the current line and the cursor on it, as deep as the cursor has
/// been below the branching or as deep as the variation goes.
pub proof fn law_branch_is_entered(b: BoardView, i: usize)
    requires
        b.wf(),
        i < b.here().children.len(),
    ensures
        ({
            let w = b.branched(i);
            let child = b.here().children[i as int];
            let d = b.here().depth;
            let deep = b.here().last_depth;
            &&& w.nodes[b.current as int].selected == i
            &&& model::line_at(w.nodes, d as nat) == Some(b.current)
            &&& model::line_at(w.nodes, (d + 1) as nat) == Some(child)
            &&& model::line_at(w.nodes, w.here().depth as nat) == Some(w.current)
            &&& w.here().depth > d
            &&& w.here().depth <= deep || w.current == child
            &&& w.here().children.len() == 0 || w.here().depth >= deep
        }),
{
    tree::lemma_select(b.size, b.root_to_play, b.nodes, b.current, i);
    let c = b.choosing(i);
    let child = b.here().children[i as int];
    let want = b.here().last_depth as nat;
    tree::lemma_descend(c.size, c.root_to_play, c.nodes, child, want);
    lemma_descend_end(c.size, c.root_to_play, c.nodes, child, want);
    let e = model::descend(c.nodes, child, want);
    tree::lemma_touched(c.size, c.root_to_play, c.nodes, e);
    assert(c.moved(e).nodes[e as int].depth == c.nodes[e as int].depth);
    assert(c.moved(e).nodes[e as int].children == c.nodes[e as int].children);
    assert(model::touched(c.nodes, e)[b.current as int].selected == c.nodes[b.current as int].selected);
    assert(c.nodes[child as int].depth == b.nodes[child as int].depth);
}

/// Moving the cursor remembers at each node on the way from the root how deep the cursor has been,
/// and nothing at any other.
pub proof fn law_depth_is_remembered(b: BoardView, id: usize, x: int)
    requires
        b.wf(),
        id < b.nodes.len(),
        0 <= x < b.nodes.len(),
    ensures
        ({
            let (old_depth, d) = (b.nodes[x].last_depth, b.nodes[id as int].depth);
            &&& b.moved(id).nodes[x].selected == b.nodes[x].selected
            &&& b.moved(id).nodes[x].last_depth == if model::is_ancestor(b.nodes, x as usize, id)
                && old_depth < d {
                d
            } else {
                old_depth
            }
        }),
{
}

/// Jumping to a node selects another variation at the nodes above it only.
pub proof fn law_jump_bends_the_way_only(b: BoardView, id: usize, x: int)
    requires
        b.wf(),
        id < b.nodes.len(),
        0 <= x < b.nodes.len(),
        forall|s: usize|
            s < b.nodes[x].children.len() ==> !model::is_ancestor(
                b.nodes,
                #[trigger] b.nodes[x].children[s as int],
                id,
            ),
    ensures
        b.jumped(id).nodes[x].selected == b.nodes[x].selected,
{
    assert forall|s: usize| !#[trigger] model::leads_to(b.nodes, x, s, id) by {
        if s < b.nodes[x].children.len() {
            assert(!model::is_ancestor(b.nodes, b.nodes[x].children[s as int], id));
        }
    }
    let p = model::select_path(b.nodes, id);
    assert(p[x].selected == b.nodes[x].selected);
    assert(model::touched(p, id)[x].selected == p[x].selected);
}

/// Taking a move back leaves every other move, its position and its number as they were.
pub proof fn law_undo_keeps_the_rest(b: BoardView, x: usize)
    requires
        b.wf(),
        b.can_undo(),
        x < b.nodes.len(),
        x != b.current,
    ensures
        ({
            let w = b.undone();
            let y = if x as int == b.nodes.len() - 1 {
                b.current
            } else {
                x
            };
            &&& w.nodes[y as int].record == b.nodes[x as int].record
            &&& w.nodes[y as int].grid == b.nodes[x as int].grid
            &&& w.nodes[y as int].depth == b.nodes[x as int].depth
            &&& x != b.here().parent->0 ==> w.nodes[y as int].children.len()
                == b.nodes[x as int].children.len()
        }),
{
    tree::lemma_pruned(b);
    let w = BoardView { nodes: model::pruned(b.nodes, b.current), ..b };
    let q = model::renamed(b.nodes, b.current, b.here().parent->0);
    assert(b.current != 0 && model::hung(b.nodes, b.current as int));
    tree::lemma_touched(b.size, b.root_to_play, w.nodes, q);
    let y = model::renamed(b.nodes, b.current, x);
    assert(w.nodes[y as int] == model::trimmed_node(b.nodes, b.current, x as int));
    assert(w.moved(q).nodes[y as int].record == w.nodes[y as int].record);
}

/// The model of a move shows its fields as they are, the stones taken as a set.
pub proof fn law_move_model(m: MoveRecord)
    ensures
        m@.player == m.player,
        m@.action == m.action,
        m@.captured == m.captured@.to_set(),
{
}

/// The node after some moves of the current line is the selected child of the one before it.
pub proof fn law_line_follows_selection(b: BoardView, n: nat)
    ensures
        model::line_at(b.nodes, 0) == Some(0usize),
        model::line_at(b.nodes, n) matches Some(id) ==> model::line_at(b.nodes, n + 1) == if b.nodes[id as int].selected
            < b.nodes[id as int].children.len() {
            Some(b.nodes[id as int].children[b.nodes[id as int].selected as int])
        } else {
            None
        },
        model::line_at(b.nodes, n) is None ==> model::line_at(b.nodes, n + 1) is None,
{
}

/// Whether `b` holds all moves and positions of `a`, under the same names, and perhaps more.
pub open spec fn extends(a: BoardView, b: BoardView) -> bool {
    &&& a.size == b.size
    &&& a.root_to_play == b.root_to_play
    &&& a.nodes.len() <= b.nodes.len()
    &&& forall|i: int|
        #![trigger a.nodes[i]]
        #![trigger b.nodes[i]]
        0 <= i < a.nodes.len() ==> {
            &&& a.nodes[i].record == b.nodes[i].record
            &&& a.nodes[i].parent == b.nodes[i].parent
            &&& a.nodes[i].grid == b.nodes[i].grid
            &&& a.nodes[i].depth == b.nodes[i].depth
        }
}

pub proof fn lemma_extends_trans(a: BoardView, b: BoardView, c: BoardView)
    requires
        extends(a, b),
        extends(b, c),
    ensures
        extends(a, c),
{
    assert forall|i: int|
        #![trigger a.nodes[i]]
        #![trigger c.nodes[i]]
        0 <= i < a.nodes.len() implies a.nodes[i].record == c.nodes[i].record
        && a.nodes[i].parent == c.nodes[i].parent && a.nodes[i].grid == c.nodes[i].grid
        && a.nodes[i].depth == c.nodes[i].depth by {
        assert(a.nodes[i].record == b.nodes[i].record);
    }
}

/// What was added changes nothing of the moves that lead to a node.
pub proof fn lemma_extends_path(a: BoardView, b: BoardView, id: usize)
    requires
        a.wf(),
        b.wf(),
        extends(a, b),
        id < a.nodes.len(),
    ensures
        model::path_records(a.nodes, id) == model::path_records(b.nodes, id),
    decreases a.nodes[id as int].depth,
{
    assert(a.nodes[id as int].depth == b.nodes[id as int].depth);
    if id == 0 {
        assert(model::path_records(a.nodes, 0) =~= model::path_records(b.nodes, 0));
    } else {
        assert(model::hung(a.nodes, id as int));
        copies::lemma_path_push(a, id);
        copies::lemma_path_push(b, id);
        lemma_extends_path(a, b, a.nodes[id as int].parent->0);
    }
}

proof fn lemma_entered_extends(b: BoardView, r: RecordView, grid: Seq<Option<Stone>>)
    requires
        b.wf(),
        enterable(b, r, grid),
        b.entered(r, grid).nodes.len() <= usize::MAX,
    ensures
        b.entered(r, grid).wf(),
        extends(b, b.entered(r, grid)),
        b.entered(r, grid).current != 0,
{
    let w = b.entered(r, grid);
    if !model::has_child_with(b.nodes, b.current, r.action) {
        let g = model::grown(b.nodes, b.current, r, grid);
        let id = b.nodes.len() as usize;
        assert(w.nodes.len() == b.nodes.len() + 1);
        lemma_entered(b, r, grid);
        tree::lemma_grown(b, r, grid);
        tree::lemma_touched(b.size, b.root_to_play, g, id);
        assert forall|i: int|
            #![trigger b.nodes[i]]
            #![trigger w.nodes[i]]
            0 <= i < b.nodes.len() implies b.nodes[i].record == w.nodes[i].record
            && b.nodes[i].parent == w.nodes[i].parent && b.nodes[i].grid == w.nodes[i].grid
            && b.nodes[i].depth == w.nodes[i].depth by {
            assert(g[i].record == w.nodes[i].record);
        }
    } else {
        lemma_entered(b, r, grid);
    }
    assert(w.here().parent is Some);
}

/// A move or a pass keeps all there was, and leads away from the start.
pub proof fn law_moves_add(b: BoardView, at: Coord)
    requires
        b.wf(),
    ensures
        b.passed().nodes.len() <= usize::MAX ==> b.passed().wf() && extends(b, b.passed())
            && b.passed().current != 0,
        b.played(at) matches Ok(w) ==> (w.nodes.len() <= usize::MAX ==> w.wf() && extends(b, w)
            && w.current != 0),
{
    assert(b.here().grid.len() == b.size.points());
    if b.passed().nodes.len() <= usize::MAX {
        lemma_entered_extends(
            b,
            RecordView {
                player: b.to_play(),
                action: Action::Pass,
                captured: Set::<Coord>::empty(),
            },
            b.here().grid,
        );
    }
    if let Ok(w) = b.played(at) {
        if w.nodes.len() <= usize::MAX {
            let (grid, gone) = b.tried(at)->Ok_0;
            lemma_entered_extends(
                b,
                RecordView { player: b.to_play(), action: Action::Place(at), captured: gone },
                grid,
            );
        }
    }
}

/// Jumping and going back to the start keep all there was.
pub proof fn law_jumps_keep(b: BoardView, id: usize)
    requires
        b.wf(),
        id < b.nodes.len(),
    ensures
        b.jumped(id).wf(),
        extends(b, b.jumped(id)),
        b.moved(0).wf(),
        extends(b, b.moved(0)),
{
    law_jump_reaches(b, id);
    tree::lemma_select_path(b.size, b.root_to_play, b.nodes, id);
    let p = model::select_path(b.nodes, id);
    tree::lemma_touched(b.size, b.root_to_play, p, id);
    lemma_same_core_trans(b.nodes, p, b.jumped(id).nodes);
    assert(model::line_at(b.nodes, 0) == Some(0usize));
    tree::lemma_moved(b, 0);
    tree::lemma_touched(b.size, b.root_to_play, b.nodes, 0);
}

/// Whether two boards hold the same moves and positions, with the cursor at the same place of them:
/// they differ in which children are selected and in how deep the cursor has been, nothing else.
pub open spec fn same_standing(a: BoardView, b: BoardView) -> bool {
    &&& a.size == b.size
    &&& a.root_to_play == b.root_to_play
    &&& a.current == b.current
    &&& tree::same_core(a.nodes, b.nodes)
}

/// Boards that stand alike look the same: the position, the number of the
/// move, the side to move, the moves up to it and the stones taken by them.
pub proof fn law_same_standing(a: BoardView, b: BoardView, color: Stone)
    requires
        a.wf(),
        b.wf(),
        same_standing(a, b),
    ensures
        a.here().grid == b.here().grid,
        a.here().depth == b.here().depth,
        a.here().children == b.here().children,
        a.to_play() == b.to_play(),
        a.nodes.len() == b.nodes.len(),
        model::path_records(a.nodes, a.current) == model::path_records(b.nodes, b.current),
        super::count_u32(a, color) == super::count_u32(b, color),
{
    assert(a.nodes[a.current as int].record == b.nodes[b.current as int].record);
    lemma_extends_path(a, b, a.current);
}

/// A move that added a node, taken back.
proof fn lemma_enter_then_undo(b: BoardView, r: RecordView, grid: Seq<Option<Stone>>)
    requires
        b.wf(),
        b.nodes.len() < usize::MAX,
        enterable(b, r, grid),
        !model::has_child_with(b.nodes, b.current, r.action),
    ensures
        b.entered(r, grid).can_undo(),
        b.entered(r, grid).here().record == Some(r),
        b.entered(r, grid).undone().wf(),
        same_standing(b, b.entered(r, grid).undone()),
{
    lemma_entered(b, r, grid);
    let w = b.entered(r, grid);
    let nodes = b.nodes;
    let id = nodes.len() as usize;
    let g = model::grown(nodes, b.current, r, grid);
    tree::lemma_grown(b, r, grid);
    tree::lemma_touched(b.size, b.root_to_play, g, id);
    assert(w.here().children == g[id as int].children);
    assert(w.can_undo());
    tree::lemma_pruned(w);
    let u = model::pruned(w.nodes, id);
    let cur = b.current;
    assert(model::renamed(w.nodes, id, cur) == cur);
    let kids = nodes[cur as int].children;
    assert(w.nodes[cur as int].children == g[cur as int].children);
    assert(g[cur as int].children == kids.push(id));
    assert(w.nodes[cur as int].children.no_duplicates());
    assert(model::place_of(w.nodes, id) == kids.len()) by {
        assert(kids.push(id)[kids.len() as int] == id);
    }
    assert forall|x: int| #![trigger nodes[x]] #![trigger u[x]] 0 <= x < nodes.len() implies nodes[x].record
        == u[x].record && nodes[x].parent == u[x].parent && nodes[x].children == u[x].children
        && nodes[x].grid == u[x].grid && nodes[x].depth == u[x].depth by {
        assert(u[x] == model::trimmed_node(w.nodes, id, x));
        assert(w.nodes[x].record == g[x].record);
        let left = if x == cur {
            kids.push(id).remove(kids.len() as int)
        } else {
            w.nodes[x].children
        };
        assert(left =~= nodes[x].children);
        assert(u[x].children =~= left.map_values(|c: usize| model::renamed(w.nodes, id, c)));
        assert forall|k: int| 0 <= k < left.len() implies #[trigger] left[k] < id by {
            assert(model::child_of(nodes, nodes[x].children[k], x));
        }
        assert(u[x].children =~= left);
        if x != 0 {
            assert(model::hung(nodes, x));
        }
    }
    let un = BoardView { nodes: u, ..w };
    tree::lemma_touched(b.size, b.root_to_play, u, cur);
    assert(tree::same_core(nodes, u));
    lemma_same_core_trans(nodes, u, un.moved(cur).nodes);
    law_undo(w);
}

/// Playing a new move and taking it back leaves every move and every position of the tree as it
/// was, with the cursor where it was; what is taken back is the move played.
pub proof fn law_play_then_undo(b: BoardView, at: Coord)
    requires
        b.wf(),
        b.nodes.len() < usize::MAX,
        b.played(at) is Ok,
        !model::has_child_with(b.nodes, b.current, Action::Place(at)),
    ensures
        ({
            let w = b.played(at)->Ok_0;
            &&& w.can_undo()
            &&& w.here().record == Some(
                RecordView {
                    player: b.to_play(),
                    action: Action::Place(at),
                    captured: b.tried(at)->Ok_0.1,
                },
            )
            &&& w.undone().wf()
            &&& same_standing(b, w.undone())
        }),
{
    let (grid, gone) = b.tried(at)->Ok_0;
    assert(b.here().grid.len() == b.size.points());
    lemma_enter_then_undo(
        b,
        RecordView { player: b.to_play(), action: Action::Place(at), captured: gone },
        grid,
    );
}

/// Passing anew and taking the pass back leaves every move and every position of the tree as it
/// was, with the cursor where it was; what is taken back is the pass.
pub proof fn law_pass_then_undo(b: BoardView)
    requires
        b.wf(),
        b.nodes.len() < usize::MAX,
        !model::has_child_with(b.nodes, b.current, Action::Pass),
    ensures
        ({
            let w = b.passed();
            &&& w.can_undo()
            &&& w.here().record == Some(
                RecordView {
                    player: b.to_play(),
                    action: Action::Pass,
                    captured: Set::<Coord>::empty(),
                },
            )
            &&& w.undone().wf()
            &&& same_standing(b, w.undone())
        }),
{
    assert(b.here().grid.len() == b.size.points());
    lemma_enter_then_undo(
        b,
        RecordView {
            player: b.to_play(),
            action: Action::Pass,
            captured: Set::<Coord>::empty(),
        },
        b.here().grid,
    );
}

// ---- counting stones ----

/// How many stones the lists of the moves of `color` hold in all.
pub open spec fn listed_count(records: Seq<MoveRecord>, color: Stone) -> nat
    decreases records.len(),
{
    if records.len() == 0 {
        0
    } else {
        listed_count(records.drop_last(), color) + if records.last().player == color {
            records.last().captured@.len()
        } else {
            0
        }
    }
}

/// The stones taken are the stones that the moves list, where every move lists a stone once.
pub proof fn law_taken_are_listed(records: Seq<MoveRecord>, color: Stone)
    requires
        forall|i: int| 0 <= i < records.len() ==> (#[trigger] records[i]).wf(),
    ensures
        model::taken_count(super::record_views(records), color) == listed_count(records, color),
    decreases records.len(),
{
    if records.len() > 0 {
        let front = records.drop_last();
        assert forall|i: int| 0 <= i < front.len() implies (#[trigger] front[i]).wf() by {
            assert(records[i].wf());
        }
        law_taken_are_listed(front, color);
        let views = super::record_views(records);
        assert(views.drop_last() =~= super::record_views(front));
        assert(records[records.len() - 1].wf());
        records.last().captured@.unique_seq_to_set();
    }
}

/// Changing one point changes the number of stones by what was and what is there.
proof fn lemma_count_update(
    grid: Seq<Option<Stone>>,
    i: int,
    v: Option<Stone>,
    color: Stone,
)
    requires
        0 <= i < grid.len(),
    ensures
        model::stone_count(grid.update(i, v), color) + (if grid[i] == Some(color) {
            1nat
        } else {
            0
        }) == model::stone_count(grid, color) + (if v == Some(color) {
            1nat
        } else {
            0
        }),
    decreases grid.len(),
{
    let next = grid.update(i, v);
    if i == grid.len() - 1 {
        assert(next.drop_last() =~= grid.drop_last());
    } else {
        assert(next.drop_last() =~= grid.drop_last().update(i, v));
        lemma_count_update(grid.drop_last(), i, v, color);
    }
}

/// The stones of `gone` before point `k`.
spec fn gone_before(size: Size, gone: Set<Coord>, k: int) -> Set<Coord> {
    gone.filter(|c: Coord| c.idx(size) < k)
}

/// Removing stones of one colour, counted up to point `k`.
proof fn lemma_count_without(
    size: Size,
    grid: Seq<Option<Stone>>,
    gone: Set<Coord>,
    lost: Stone,
    k: int,
)
    requires
        size.wf(),
        grid.len() == size.points(),
        0 <= k <= grid.len(),
        forall|c: Coord| #[trigger]
            gone.contains(c) ==> c.on(size) && grid[c.idx(size)] == Some(lost),
    ensures
        ({
            let after = rules::without(size, grid, gone).take(k);
            let part = gone_before(size, gone, k);
            &&& part.finite()
            &&& model::stone_count(after, lost) + part.len() == model::stone_count(
                grid.take(k),
                lost,
            )
            &&& model::stone_count(after, lost.other()) == model::stone_count(
                grid.take(k),
                lost.other(),
            )
        }),
    decreases k,
{
    let after = rules::without(size, grid, gone);
    if k == 0 {
        assert forall|c: Coord| !(#[trigger] gone_before(size, gone, 0).contains(c)) by {
            if gone.contains(c) {
                coord::lemma_idx_range(c, size);
            }
        }
        assert(gone_before(size, gone, 0) =~= Set::<Coord>::empty());
    } else {
        let j = k - 1;
        lemma_count_without(size, grid, gone, lost, j);
        assert(after.take(k).drop_last() =~= after.take(j));
        assert(grid.take(k).drop_last() =~= grid.take(j));
        assert(after.take(k).last() == after[j]);
        assert(grid.take(k).last() == grid[j]);
        let c = coord::point_at(size, j);
        coord::lemma_point_at(size, j);
        let before = gone_before(size, gone, j);
        let now = gone_before(size, gone, k);
        assert forall|d: Coord| gone.contains(d) && d.idx(size) == j implies d == c by {
            coord::lemma_idx_injective(c, d, size);
        }
        if gone.contains(c) {
            assert(now =~= before.insert(c));
            assert(!before.contains(c));
            assert(after[j] is None);
        } else {
            assert(now =~= before);
            assert(after[j] == grid[j]);
        }
    }
}

/// A legal move adds one stone of the side that plays it and removes the stones it takes.
proof fn lemma_count_move(size: Size, grid: Seq<Option<Stone>>, player: Stone, at: Coord)
    requires
        size.wf(),
        grid.len() == size.points(),
        rules::move_result(size, grid, player, at) is Ok,
    ensures
        ({
            let (after, gone) = rules::move_result(size, grid, player, at)->Ok_0;
            &&& model::stone_count(after, player) == model::stone_count(grid, player) + 1
            &&& model::stone_count(after, player.other()) + gone.len() == model::stone_count(
                grid,
                player.other(),
            )
        }),
{
    let (after, gone) = rules::move_result(size, grid, player, at)->Ok_0;
    let placed = grid.update(at.idx(size), Some(player));
    let n = grid.len() as int;
    coord::lemma_idx_range(at, size);
    lemma_count_update(grid, at.idx(size), Some(player), player);
    lemma_count_update(grid, at.idx(size), Some(player), player.other());
    assert forall|c: Coord| #[trigger] gone.contains(c) implies c.on(size) && placed[c.idx(size)]
        == Some(player.other()) by {
        rules::law_only_opponent_taken(size, grid, player, at, c);
        coord::lemma_idx_range(c, size);
        if c.idx(size) == at.idx(size) {
            coord::lemma_idx_injective(c, at, size);
        }
    }
    lemma_count_without(size, placed, gone, player.other(), n);
    assert(gone_before(size, gone, n) =~= gone) by {
        assert forall|c: Coord| gone.contains(c) implies gone_before(size, gone, n).contains(c) by {
            coord::lemma_idx_range(c, size);
        }
    }
    assert(after.take(n) =~= after);
    assert(placed.take(n) =~= placed);
    rules::law_other_involutive(player);
}

/// Stones are conserved along a line: the stones of a colour on the board and those it has lost
/// are those it started with and those it has played.
pub proof fn law_stones_conserved(b: BoardView, id: usize, color: Stone)
    requires
        b.wf(),
        id < b.nodes.len(),
    ensures
        ({
            let records = model::path_records(b.nodes, id);
            model::stone_count(b.nodes[id as int].grid, color) + model::taken_count(
                records,
                color.other(),
            ) == model::stone_count(b.nodes[0].grid, color) + model::placed_count(records, color)
        }),
    decreases b.nodes[id as int].depth,
{
    let records = model::path_records(b.nodes, id);
    if id == 0 {
        assert(records.len() == 0);
    } else {
        assert(model::hung(b.nodes, id as int));
        assert(model::step_ok(b.size, b.root_to_play, b.nodes, id as int));
        let p = b.nodes[id as int].parent->0;
        let r = b.nodes[id as int].record->0;
        copies::lemma_path_push(b, id);
        law_stones_conserved(b, p, color);
        assert(records.drop_last() =~= model::path_records(b.nodes, p));
        assert(b.nodes[p as int].grid.len() == b.size.points());
        match r.action {
            Action::Pass => {},
            Action::Place(at) => {
                lemma_count_move(b.size, b.nodes[p as int].grid, r.player, at);
            },
        }
    }
}

proof fn lemma_counts_bound(grid: Seq<Option<Stone>>, records: Seq<RecordView>, color: Stone)
    ensures
        model::stone_count(grid, color) <= grid.len(),
        model::placed_count(records, color) <= records.len(),
    decreases grid.len() + records.len(),
{
    if grid.len() > 0 {
        lemma_counts_bound(grid.drop_last(), records, color);
    }
    if records.len() > 0 {
        lemma_counts_bound(grid, records.drop_last(), color);
    }
}

/// The numbers of stones lost are whole up to four thousand million moves, and with them the
/// stones on the board and the stones lost are those there were and those played.
pub proof fn law_lost_are_counted(b: BoardView, color: Stone)
    requires
        b.wf(),
        b.here().depth < 4_000_000_000,
    ensures
        ({
            let records = model::path_records(b.nodes, b.current);
            let lost = super::count_u32(b, color.other());
            &&& lost == model::taken_count(records, color.other())
            &&& model::stone_count(b.here().grid, color) + lost == model::stone_count(
                b.nodes[0].grid,
                color,
            ) + model::placed_count(records, color)
        }),
{
    let records = model::path_records(b.nodes, b.current);
    law_stones_conserved(b, b.current, color);
    lemma_counts_bound(b.nodes[0].grid, records, color);
    coord::lemma_points_range(b.size);
    assert(b.nodes[0].grid.len() == b.size.points());
}

/// A setup is taken if and only if all its points are on the board and none is both black and white;
/// of points that are off the board, the first is named.
pub proof fn law_when_a_setup_is_taken(
    size: Size,
    black: Seq<Coord>,
    white: Seq<Coord>,
    removed: Seq<Coord>,
    to_play: Stone,
)
    ensures
        super::setup_result(size, black, white, removed, to_play) is Ok <==> (forall|i: int|
            0 <= i < (black + white + removed).len() ==> (#[trigger] (black + white + removed)[i]).on(
                size,
            )) && (forall|i: int| 0 <= i < black.len() ==> !white.contains(#[trigger] black[i])),
        super::setup_result(size, black, white, removed, to_play) matches Err(
            super::SetupError::OffBoard(c),
        ) ==> exists|i: int|
            0 <= i < (black + white + removed).len() && (#[trigger] (black + white + removed)[i])
                == c && !c.on(size) && forall|k: int|
                0 <= k < i ==> (#[trigger] (black + white + removed)[k]).on(size),
{
    lemma_first_point_off(size, black + white + removed);
    lemma_first_shared(black, white);
    match super::first_shared(black, white) {
        Some(d) => {
            let i = choose|i: int| 0 <= i < black.len() && black[i] == d;
            assert(white.contains(black[i]));
        },
        None => {
            assert forall|i: int| 0 <= i < black.len() implies !white.contains(
                #[trigger] black[i],
            ) by {
                assert(black.contains(black[i]));
            }
        },
    }
}

proof fn lemma_first_point_off(size: Size, s: Seq<Coord>)
    ensures
        match super::first_off(size, s) {
            Some(c) => exists|i: int|
                0 <= i < s.len() && (#[trigger] s[i]) == c && !c.on(size) && forall|k: int|
                    0 <= k < i ==> (#[trigger] s[k]).on(size),
            None => forall|i: int| 0 <= i < s.len() ==> (#[trigger] s[i]).on(size),
        },
    decreases s.len(),
{
    if s.len() > 0 {
        if s[0].on(size) {
            let t = s.skip(1);
            lemma_first_point_off(size, t);
            match super::first_off(size, t) {
                Some(c) => {
                    let j = choose|j: int|
                        0 <= j < t.len() && (#[trigger] t[j]) == c && !c.on(size) && forall|k: int|
                            0 <= k < j ==> (#[trigger] t[k]).on(size);
                    assert(s[j + 1] == c);
                    assert forall|k: int| 0 <= k < j + 1 implies (#[trigger] s[k]).on(size) by {
                        if k > 0 {
                            assert(t[k - 1] == s[k]);
                        }
                    }
                },
                None => {
                    assert forall|i: int| 0 <= i < s.len() implies (#[trigger] s[i]).on(size) by {
                        if i > 0 {
                            assert(t[i - 1] == s[i]);
                        }
                    }
                },
            }
        } else {
            assert(s[0] == super::first_off(size, s)->0);
        }
    }
}

} // verus!
