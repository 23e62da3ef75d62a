//! Copies of game trees: when one tree holds a part of another, under other names for the nodes,
//! and how replaying moves makes the part grow.

use vstd::prelude::*;
use super::model::{self, BoardView, NodeView, RecordView};
use super::rules::IllegalReason;
use super::{tree, Action, Coord, Stone};

verus! {

/// Whether child `k` of node `i` of `a` is named in `f` for child `k` of the node that `i` copies.
pub open spec fn child_copied(
    a: Seq<NodeView>,
    b: Seq<NodeView>,
    f: Seq<usize>,
    i: int,
    k: int,
) -> bool {
    &&& a[i].children[k] < f.len()
    &&& f[a[i].children[k] as int] == b[f[i] as int].children[k]
}

/// Whether node `i` of `a` is a copy of node `f[i]` of `b`: the same move and position, the same
/// place in the tree, and its children are copies of the first children there.
pub open spec fn copied(a: Seq<NodeView>, b: Seq<NodeView>, f: Seq<usize>, i: int) -> bool {
    let x = a[i];
    let y = b[f[i] as int];
    &&& f[i] < b.len()
    &&& x.record == y.record
    &&& x.grid == y.grid
    &&& x.depth == y.depth
    &&& match (x.parent, y.parent) {
        (None, None) => true,
        (Some(p), Some(q)) => p < f.len() && f[p as int] == q,
        _ => false,
    }
    &&& x.children.len() <= y.children.len()
    &&& forall|k: int| 0 <= k < x.children.len() ==> #[trigger] child_copied(a, b, f, i, k)
}

/// Whether `a` is a part of `b`: node `i` of `a` is a copy of node `f[i]` of `b`.
pub open spec fn is_part(a: BoardView, b: BoardView, f: Seq<usize>) -> bool {
    &&& a.wf()
    &&& b.wf()
    &&& a.size == b.size
    &&& a.root_to_play == b.root_to_play
    &&& f.len() == a.nodes.len()
    &&& f.no_duplicates()
    &&& f[0] == 0
    &&& forall|i: int| 0 <= i < f.len() ==> #[trigger] copied(a.nodes, b.nodes, f, i)
}

/// Whether node `i` of `a` has as many children as the node that it copies.
pub open spec fn full_at(a: BoardView, b: BoardView, f: Seq<usize>, i: int) -> bool {
    a.nodes[i].children.len() == b.nodes[f[i] as int].children.len()
}

/// Whether `a` and `b` hold the same game: the same size, side to begin and tree of moves and
/// positions. Only the names of the nodes, the selections and the cursor may differ.
pub open spec fn same_game(a: BoardView, b: BoardView) -> bool {
    exists|f: Seq<usize>| #[trigger] is_copy(a, b, f)
}

/// Whether `a` is all of `b`, node `i` of `a` being a copy of node `f[i]` of `b`.
pub open spec fn is_copy(a: BoardView, b: BoardView, f: Seq<usize>) -> bool {
    &&& is_part(a, b, f)
    &&& a.nodes.len() == b.nodes.len()
    &&& forall|i: int| 0 <= i < f.len() ==> #[trigger] full_at(a, b, f, i)
}

/// Different numbers below a bound are no more than the bound.
proof fn lemma_no_more_than(f: Seq<usize>, n: nat)
    requires
        f.no_duplicates(),
        forall|i: int| 0 <= i < f.len() ==> (#[trigger] f[i]) < n,
    ensures
        f.len() <= n,
    decreases n,
{
    if f.len() > 0 {
        if n == 0 {
            assert(f[0] < n);
        } else {
            if f.contains((n - 1) as usize) {
                let j = choose|j: int| 0 <= j < f.len() && f[j] == (n - 1) as usize;
                let g = f.remove(j);
                assert forall|i: int| 0 <= i < g.len() implies (#[trigger] g[i]) < n - 1 by {
                    let k = if i < j {
                        i
                    } else {
                        i + 1
                    };
                    assert(g[i] == f[k]);
                    assert(f[k] != f[j]);
                }
                assert(g.no_duplicates()) by {
                    assert forall|x: int, y: int|
                        0 <= x < g.len() && 0 <= y < g.len() && x != y implies g[x] != g[y] by {
                        let u = if x < j {
                            x
                        } else {
                            x + 1
                        };
                        let v = if y < j {
                            y
                        } else {
                            y + 1
                        };
                        assert(g[x] == f[u] && g[y] == f[v]);
                    }
                }
                lemma_no_more_than(g, (n - 1) as nat);
            } else {
                assert forall|i: int| 0 <= i < f.len() implies (#[trigger] f[i]) < n - 1 by {
                    assert(f[i] != (n - 1) as usize);
                }
                lemma_no_more_than(f, (n - 1) as nat);
            }
        }
    }
}

/// A child that has not been copied yet is named by no copy.
proof fn lemma_not_yet(a: BoardView, b: BoardView, f: Seq<usize>, u: int)
    requires
        is_part(a, b, f),
        0 <= u < f.len(),
        a.nodes[u].children.len() < b.nodes[f[u] as int].children.len(),
    ensures
        ({
            let c = b.nodes[f[u] as int].children[a.nodes[u].children.len() as int];
            &&& 0 < c < b.nodes.len()
            &&& b.nodes[c as int].parent == Some(f[u])
            &&& !f.contains(c)
            &&& a.nodes.len() < b.nodes.len()
            &&& f.push(c).no_duplicates()
        }),
{
    let p = f[u];
    let n = a.nodes[u].children.len() as int;
    let c = b.nodes[p as int].children[n];
    assert(copied(a.nodes, b.nodes, f, u));
    assert(model::child_of(b.nodes, b.nodes[p as int].children[n], p as int));
    if f.contains(c) {
        let v = choose|v: int| 0 <= v < f.len() && f[v] == c;
        assert(copied(a.nodes, b.nodes, f, v));
        let q = a.nodes[v].parent->0;
        assert(f[q as int] == p);
        assert(q as int == u);
        assert(v != 0);
        assert(model::hung(a.nodes, v));
        assert(a.nodes[u].children.contains(v as usize));
        let k = choose|k: int| 0 <= k < a.nodes[u].children.len() && a.nodes[u].children[k] == v as usize;
        assert(child_copied(a.nodes, b.nodes, f, u, k));
        assert(b.nodes[p as int].children[k] == c);
        assert(b.nodes[p as int].children.no_duplicates());
    }
    let g = f.push(c);
    assert forall|i: int| 0 <= i < g.len() implies (#[trigger] g[i]) < b.nodes.len() by {
        if i < f.len() {
            assert(copied(a.nodes, b.nodes, f, i));
        }
    }
    assert(g.no_duplicates()) by {
        assert forall|x: int, y: int|
            0 <= x < g.len() && 0 <= y < g.len() && x != y implies g[x] != g[y] by {
            if x < f.len() && y < f.len() {
                assert(f[x] != f[y]);
            } else if x < f.len() {
                assert(f.contains(f[x]));
            } else {
                assert(f.contains(f[y]));
            }
        }
    }
    lemma_no_more_than(g, b.nodes.len());
}

/// Trees that differ in selections and visit records only are parts of the same tree.
pub proof fn lemma_part_core(a: BoardView, c: BoardView, b: BoardView, f: Seq<usize>)
    requires
        is_part(a, b, f),
        c.wf(),
        c.size == a.size,
        c.root_to_play == a.root_to_play,
        tree::same_core(a.nodes, c.nodes),
    ensures
        is_part(c, b, f),
        forall|i: int| 0 <= i < f.len() && full_at(a, b, f, i) ==> #[trigger] full_at(c, b, f, i),
{
    assert forall|i: int| 0 <= i < f.len() implies #[trigger] copied(c.nodes, b.nodes, f, i) by {
        assert(copied(a.nodes, b.nodes, f, i));
        assert(a.nodes[i].record == c.nodes[i].record);
        assert forall|k: int| 0 <= k < c.nodes[i].children.len() implies #[trigger] child_copied(
            c.nodes,
            b.nodes,
            f,
            i,
            k,
        ) by {
            assert(child_copied(a.nodes, b.nodes, f, i, k));
        }
    }
    assert forall|i: int| 0 <= i < f.len() && full_at(a, b, f, i) implies #[trigger] full_at(
        c,
        b,
        f,
        i,
    ) by {
        assert(a.nodes[i].record == c.nodes[i].record);
    }
}

/// The board after the move of a record.
pub open spec fn after_record(a: BoardView, r: RecordView) -> Option<BoardView> {
    match r.action {
        Action::Pass => Some(a.passed()),
        Action::Place(at) => match a.played(at) {
            Ok(v) => Some(v),
            Err(_) => None,
        },
    }
}

/// The moves of the node that the cursor's node copies can be played there too.
proof fn lemma_legal_again(a: BoardView, b: BoardView, f: Seq<usize>, k: int)
    requires
        is_part(a, b, f),
        0 <= k < b.nodes[f[a.current as int] as int].children.len(),
    ensures
        ({
            let c = b.nodes[f[a.current as int] as int].children[k];
            let r = b.nodes[c as int].record->0;
            &&& 0 < c < b.nodes.len()
            &&& b.nodes[c as int].record is Some
            &&& b.nodes[c as int].depth == a.here().depth + 1
            &&& b.nodes[c as int].parent == Some(f[a.current as int])
            &&& b.nodes[c as int].grid.len() == a.size.points()
            &&& r.player == a.to_play()
            &&& match r.action {
                Action::Pass => b.nodes[c as int].grid == a.here().grid && r.captured == Set::<
                    Coord,
                >::empty(),
                Action::Place(at) => a.tried(at) == Ok::<
                    (Seq<Option<Stone>>, Set<Coord>),
                    IllegalReason,
                >((b.nodes[c as int].grid, r.captured)),
            }
            &&& after_record(a, r) == Some(a.entered(r, b.nodes[c as int].grid))
        }),
{
    let u = a.current as int;
    let p = f[u];
    let c = b.nodes[p as int].children[k];
    assert(copied(a.nodes, b.nodes, f, u));
    assert(model::child_of(b.nodes, b.nodes[p as int].children[k], p as int));
    assert(c != 0);
    assert(model::hung(b.nodes, c as int));
    assert(model::step_ok(b.size, b.root_to_play, b.nodes, c as int));
    let r = b.nodes[c as int].record->0;
    if a.here().parent is Some {
        assert(copied(a.nodes, b.nodes, f, a.here().parent->0 as int));
    }
    match r.action {
        Action::Pass => {
            assert(r == RecordView {
                player: a.to_play(),
                action: Action::Pass,
                captured: Set::<Coord>::empty(),
            });
        },
        Action::Place(at) => {
            assert(r == RecordView {
                player: a.to_play(),
                action: Action::Place(at),
                captured: r.captured,
            });
        },
    }
}

/// The first move of the node that the cursor's node copies enters the copy of the first child,
/// where there is one.
pub proof fn lemma_enter_again(a: BoardView, b: BoardView, f: Seq<usize>)
    requires
        is_part(a, b, f),
        a.here().children.len() > 0,
    ensures
        ({
            let c = b.nodes[f[a.current as int] as int].children[0];
            let r = b.nodes[c as int].record->0;
            &&& 0 < c < b.nodes.len()
            &&& r.player == a.to_play()
            &&& after_record(a, r) matches Some(n) && {
                &&& n.wf()
                &&& n.size == a.size
                &&& n.root_to_play == a.root_to_play
                &&& tree::same_core(a.nodes, n.nodes)
                &&& n.current == a.here().children[0]
                &&& n.current < f.len()
                &&& f[n.current as int] == c
            }
        }),
{
    let u = a.current as int;
    assert(copied(a.nodes, b.nodes, f, u));
    assert(child_copied(a.nodes, b.nodes, f, u, 0));
    lemma_legal_again(a, b, f, 0);
    let c = b.nodes[f[u] as int].children[0];
    let r = b.nodes[c as int].record->0;
    let v = a.here().children[0];
    assert(copied(a.nodes, b.nodes, f, v as int));
    assert(model::child_is(a.nodes, a.current, r.action, 0));
    let i = model::child_with(a.nodes, a.current, r.action);
    let j = choose|j: int| #[trigger] model::child_is(a.nodes, a.current, r.action, j);
    tree::lemma_children_bound(a.size, a.root_to_play, a.nodes, a.current);
    assert(i == 0) by {
        assert(model::children_differ(a.nodes, u));
        if j != 0 {
            assert(a.nodes[a.nodes[u].children[0] as int].record->0.action
                != a.nodes[a.nodes[u].children[j] as int].record->0.action);
        }
    }
    let mid = a.choosing(0);
    tree::lemma_select(a.size, a.root_to_play, a.nodes, a.current, 0);
    tree::lemma_touched(a.size, a.root_to_play, mid.nodes, v);
    tree::lemma_moved(mid, v);
    let n = mid.moved(v);
    assert forall|x: int|
        #![trigger a.nodes[x]]
        #![trigger n.nodes[x]]
        0 <= x < a.nodes.len() implies a.nodes[x].record == n.nodes[x].record && a.nodes[x].parent
        == n.nodes[x].parent && a.nodes[x].children == n.nodes[x].children && a.nodes[x].grid
        == n.nodes[x].grid && a.nodes[x].depth == n.nodes[x].depth by {
        assert(a.nodes[x].record == mid.nodes[x].record);
        assert(mid.nodes[x].record == n.nodes[x].record);
    }
}

/// The next move of the node that the cursor's node copies can be played, and makes a copy of the
/// next child.
pub proof fn lemma_copy_next(a: BoardView, b: BoardView, f: Seq<usize>)
    requires
        is_part(a, b, f),
        a.here().children.len() < b.nodes[f[a.current as int] as int].children.len(),
    ensures
        ({
            let c = b.nodes[f[a.current as int] as int].children[a.here().children.len() as int];
            let r = b.nodes[c as int].record->0;
            &&& b.nodes[c as int].record is Some
            &&& 0 < c < b.nodes.len()
            &&& r.player == a.to_play()
            &&& after_record(a, r) matches Some(n) && {
                &&& is_part(n, b, f.push(c))
                &&& n.current == a.nodes.len()
                &&& n.nodes.len() == a.nodes.len() + 1
                &&& n.nodes[n.current as int].children.len() == 0
                &&& forall|i: int|
                    0 <= i < a.nodes.len() && i != a.current ==> (#[trigger] n.nodes[i]).children
                        == a.nodes[i].children
                &&& n.nodes[a.current as int].children == a.here().children.push(n.current)
            }
        }),
{
    let u = a.current as int;
    let p = f[u];
    let k = a.here().children.len() as int;
    let c = b.nodes[p as int].children[k];
    lemma_not_yet(a, b, f, u);
    assert(copied(a.nodes, b.nodes, f, u));
    lemma_legal_again(a, b, f, k);
    let r = b.nodes[c as int].record->0;
    let grid = b.nodes[c as int].grid;
    assert(!model::has_child_with(a.nodes, a.current, r.action)) by {
        assert forall|i: int| !#[trigger] model::child_is(a.nodes, a.current, r.action, i) by {
            if 0 <= i < a.here().children.len() {
                assert(child_copied(a.nodes, b.nodes, f, u, i));
                let v = a.here().children[i];
                assert(copied(a.nodes, b.nodes, f, v as int));
                assert(model::children_differ(b.nodes, p as int));
                assert(b.nodes[b.nodes[p as int].children[i] as int].record->0.action
                    != b.nodes[b.nodes[p as int].children[k] as int].record->0.action);
            }
        }
    }
    tree::lemma_grown(a, r, grid);
    let grown = model::grown(a.nodes, a.current, r, grid);
    let id = a.nodes.len() as usize;
    let mid = BoardView { nodes: grown, ..a };
    let n = mid.moved(id);
    tree::lemma_touched(a.size, a.root_to_play, grown, id);
    tree::lemma_moved(mid, id);
    assert(after_record(a, r) == Some(n));
    let g = f.push(c);
    assert forall|i: int| 0 <= i < g.len() implies #[trigger] copied(n.nodes, b.nodes, g, i) by {
        assert(grown[i].record == n.nodes[i].record);
        if i < f.len() {
            assert(copied(a.nodes, b.nodes, f, i));
            assert(g[i] == f[i]);
            if a.nodes[i].parent is Some {
                let q = a.nodes[i].parent->0;
                assert(g[q as int] == f[q as int]);
            }
            assert forall|j: int| 0 <= j < n.nodes[i].children.len() implies #[trigger] child_copied(
                n.nodes,
                b.nodes,
                g,
                i,
                j,
            ) by {
                if j < a.nodes[i].children.len() {
                    assert(child_copied(a.nodes, b.nodes, f, i, j));
                    assert(n.nodes[i].children[j] == a.nodes[i].children[j]);
                }
            }
        } else {
            assert(n.nodes[i].depth == a.here().depth + 1);
        }
    }
    assert(g[0] == f[0]);
}

/// The moves to a node are those to its parent and its own.
pub proof fn lemma_path_push(b: BoardView, id: usize)
    requires
        b.wf(),
        0 < id < b.nodes.len(),
    ensures
        b.nodes[id as int].parent is Some,
        b.nodes[id as int].record is Some,
        model::path_records(b.nodes, id) == model::path_records(
            b.nodes,
            b.nodes[id as int].parent->0,
        ).push(b.nodes[id as int].record->0),
{
    assert(model::hung(b.nodes, id as int));
    let p = b.nodes[id as int].parent->0;
    let d = b.nodes[p as int].depth as nat;
    let long = model::path_records(b.nodes, id);
    let short = model::path_records(b.nodes, p).push(b.nodes[id as int].record->0);
    assert forall|k: int| 0 <= k < long.len() implies long[k] == short[k] by {
        if k < d {
            tree::lemma_up_parent(b.nodes, id, p, (d - 1 - k) as nat);
        } else {
            assert(model::up(b.nodes, id, 0) == id);
        }
    }
    assert(long =~= short);
}

/// Copies are reached by the same moves.
pub proof fn lemma_same_path(a: BoardView, b: BoardView, f: Seq<usize>, i: int)
    requires
        is_part(a, b, f),
        0 <= i < f.len(),
    ensures
        model::path_records(a.nodes, i as usize) == model::path_records(b.nodes, f[i]),
    decreases a.nodes[i].depth,
{
    assert(copied(a.nodes, b.nodes, f, i));
    if i == 0 {
        assert(model::path_records(a.nodes, 0) =~= model::path_records(b.nodes, 0));
    } else {
        assert(f[i] != f[0]);
        assert(model::hung(a.nodes, i));
        lemma_path_push(a, i as usize);
        lemma_path_push(b, f[i]);
        lemma_same_path(a, b, f, a.nodes[i].parent->0 as int);
    }
}

/// Every node is named by a part that is full everywhere.
pub proof fn lemma_all_named(a: BoardView, b: BoardView, f: Seq<usize>, x: usize)
    requires
        is_part(a, b, f),
        forall|i: int| 0 <= i < f.len() ==> #[trigger] full_at(a, b, f, i),
        x < b.nodes.len(),
    ensures
        f.contains(x),
    decreases b.nodes[x as int].depth,
{
    if x == 0 {
        assert(f[0] == x);
    } else {
        assert(model::hung(b.nodes, x as int));
        let q = b.nodes[x as int].parent->0;
        lemma_all_named(a, b, f, q);
        let u = choose|u: int| 0 <= u < f.len() && f[u] == q;
        assert(copied(a.nodes, b.nodes, f, u));
        assert(full_at(a, b, f, u));
        let k = choose|k: int| 0 <= k < b.nodes[q as int].children.len() && b.nodes[q as int].children[k] == x;
        assert(child_copied(a.nodes, b.nodes, f, u, k));
        assert(f[a.nodes[u].children[k] as int] == x);
    }
}

/// A part that is full everywhere is the same game.
pub proof fn lemma_full_is_same(a: BoardView, b: BoardView, f: Seq<usize>)
    requires
        is_part(a, b, f),
        forall|i: int| 0 <= i < f.len() ==> #[trigger] full_at(a, b, f, i),
    ensures
        is_copy(a, b, f),
        same_game(a, b),
{
    let g = Seq::new(
        b.nodes.len(),
        |x: int| (choose|u: int| 0 <= u < f.len() && f[u] == x as usize) as usize,
    );
    assert forall|x: int| 0 <= x < g.len() implies g[x] < f.len() && f[#[trigger] g[x] as int]
        == x as usize by {
        lemma_all_named(a, b, f, x as usize);
        let u = choose|u: int| 0 <= u < f.len() && f[u] == x as usize;
        assert(0 <= u < f.len());
    }
    assert(g.no_duplicates()) by {
        assert forall|x: int, y: int|
            0 <= x < g.len() && 0 <= y < g.len() && x != y implies g[x] != g[y] by {
            assert(f[g[x] as int] == x as usize);
            assert(f[g[y] as int] == y as usize);
        }
    }
    lemma_no_more_than(g, f.len());
    assert forall|i: int| 0 <= i < f.len() implies (#[trigger] f[i]) < b.nodes.len() by {
        assert(copied(a.nodes, b.nodes, f, i));
    }
    lemma_no_more_than(f, b.nodes.len());
    assert(is_copy(a, b, f));
}

// ---- the first moves of a line ----

/// Whether node `i` of `a` is a copy of the node after `i` moves of the current line of `b`, in a
/// chain of `n` moves.
pub open spec fn in_chain(a: Seq<NodeView>, b: Seq<NodeView>, n: nat, i: int) -> bool {
    let y = b[model::line_at(b, i as nat)->0 as int];
    &&& a[i].record == y.record
    &&& a[i].grid == y.grid
    &&& a[i].depth == i
    &&& a[i].parent == if i == 0 {
        None
    } else {
        Some((i - 1) as usize)
    }
    &&& a[i].children == if i < n {
        seq![(i + 1) as usize]
    } else {
        Seq::empty()
    }
}

/// Whether `a` holds the first `n` moves of the current line of `b` and nothing else, with the
/// cursor after the last of them.
pub open spec fn is_prefix(a: BoardView, b: BoardView, n: nat) -> bool {
    &&& a.wf()
    &&& a.size == b.size
    &&& a.root_to_play == b.root_to_play
    &&& a.nodes.len() == n + 1
    &&& a.current == n
    &&& forall|i: int| 0 <= i <= n ==> #[trigger] in_chain(a.nodes, b.nodes, n, i)
}

/// A board with nothing but the starting position is a prefix of no moves.
pub proof fn lemma_prefix_start(b: BoardView)
    requires
        b.wf(),
    ensures
        is_prefix(super::fresh_board(b.size, b.root_to_play, b.nodes[0].grid), b, 0),
{
    let v = super::fresh_board(b.size, b.root_to_play, b.nodes[0].grid);
    assert(model::line_at(v.nodes, 0) == Some(0usize));
    assert(v.wf());
    assert(in_chain(v.nodes, b.nodes, 0, 0));
}

/// The next move of the line can be played after a prefix, and makes it longer.
pub proof fn lemma_prefix_next(a: BoardView, b: BoardView, n: nat)
    requires
        b.wf(),
        is_prefix(a, b, n),
        model::line_at(b.nodes, n + 1) is Some,
    ensures
        ({
            let r = b.nodes[model::line_at(b.nodes, n + 1)->0 as int].record->0;
            after_record(a, r) matches Some(v) && is_prefix(v, b, n + 1)
        }),
{
    let c = model::line_at(b.nodes, n + 1)->0;
    let p = model::line_at(b.nodes, n)->0;
    tree::lemma_line(b.size, b.root_to_play, b.nodes, n + 1);
    tree::lemma_line(b.size, b.root_to_play, b.nodes, n);
    tree::lemma_depth_bound(b.size, b.root_to_play, b.nodes, c);
    assert(c != 0);
    assert(model::hung(b.nodes, c as int));
    assert(model::step_ok(b.size, b.root_to_play, b.nodes, c as int));
    assert(in_chain(a.nodes, b.nodes, n, n as int));
    let r = b.nodes[c as int].record->0;
    let grid = b.nodes[c as int].grid;
    if n > 0 {
        assert(in_chain(a.nodes, b.nodes, n, n - 1));
    }
    assert(!model::has_child_with(a.nodes, a.current, r.action)) by {
        assert forall|i: int| !#[trigger] model::child_is(a.nodes, a.current, r.action, i) by {}
    }
    match r.action {
        Action::Pass => {
            assert(r == RecordView {
                player: a.to_play(),
                action: Action::Pass,
                captured: Set::<Coord>::empty(),
            });
        },
        Action::Place(at) => {
            assert(r == RecordView {
                player: a.to_play(),
                action: Action::Place(at),
                captured: r.captured,
            });
        },
    }
    tree::lemma_grown(a, r, grid);
    let grown = model::grown(a.nodes, a.current, r, grid);
    let id = a.nodes.len() as usize;
    let mid = BoardView { nodes: grown, ..a };
    let v = mid.moved(id);
    tree::lemma_touched(a.size, a.root_to_play, grown, id);
    tree::lemma_moved(mid, id);
    assert(after_record(a, r) == Some(v));
    assert forall|i: int| 0 <= i <= n + 1 implies #[trigger] in_chain(v.nodes, b.nodes, n + 1, i) by {
        assert(grown[i].record == v.nodes[i].record);
        if i <= n {
            assert(in_chain(a.nodes, b.nodes, n, i));
            if i == n {
                assert(v.nodes[i].children =~= seq![id]);
            }
        }
    }
}

} // verus!
