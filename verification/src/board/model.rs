//! The mathematical model of the game tree.
//!
//! A tree is a list of nodes; a node's position in the list is its name, and the root is node 0.
//! Every other node holds one move and the position after it. Each node selects one of its
//! children, and following the selections from the root gives the current line.

use vstd::prelude::*;
use super::coord::{Coord, Size};
use super::rules::{self, IllegalReason, Stone};
use super::Action;

verus! {

/// A move, with the set of stones that it took.
#[verifier::ext_equal]
pub struct RecordView {
    pub player: Stone,
    pub action: Action,
    pub captured: Set<Coord>,
}

/// A node of the game tree.
#[verifier::ext_equal]
pub struct NodeView {
    /// The move that leads here; `None` for the root.
    pub record: Option<RecordView>,
    /// The parent; `None` for the root.
    pub parent: Option<usize>,
    /// The children; the first is the main variation.
    pub children: Seq<usize>,
    /// The position after the move.
    pub grid: Seq<Option<Stone>>,
    /// The number of moves from the root.
    pub depth: usize,
    /// Which child is selected.
    pub selected: usize,
    /// The deepest move number that the cursor has reached at or below this node.
    pub last_depth: usize,
}

/// A board: its size, who moves first, the game tree and the node where the cursor is.
#[verifier::ext_equal]
pub struct BoardView {
    pub size: Size,
    pub root_to_play: Stone,
    pub nodes: Seq<NodeView>,
    pub current: usize,
}

// ---- walking the tree ----

/// The node `k` steps above `id`.
pub open spec fn up(nodes: Seq<NodeView>, id: usize, k: nat) -> usize
    decreases k,
{
    if k == 0 {
        id
    } else {
        match nodes[up(nodes, id, (k - 1) as nat) as int].parent {
            Some(p) => p,
            None => up(nodes, id, (k - 1) as nat),
        }
    }
}

/// Whether `a` is `id` itself or one of the nodes above it.
pub open spec fn is_ancestor(nodes: Seq<NodeView>, a: usize, id: usize) -> bool {
    exists|k: nat| k <= nodes[id as int].depth && #[trigger] up(nodes, id, k) == a
}

/// The selected child of a node, where it has children.
pub open spec fn next_of(nodes: Seq<NodeView>, id: usize) -> Option<usize> {
    let n = nodes[id as int];
    if n.selected < n.children.len() {
        Some(n.children[n.selected as int])
    } else {
        None
    }
}

/// The node after `n` moves of the current line; `None` where the line is shorter.
pub open spec fn line_at(nodes: Seq<NodeView>, n: nat) -> Option<usize>
    decreases n,
{
    if n == 0 {
        Some(0)
    } else {
        match line_at(nodes, (n - 1) as nat) {
            None => None,
            Some(id) => next_of(nodes, id),
        }
    }
}

/// Whether move `k + 1` of the current line is `r`.
pub open spec fn line_move(nodes: Seq<NodeView>, k: int, r: RecordView) -> bool {
    &&& line_at(nodes, (k + 1) as nat) is Some
    &&& nodes[line_at(nodes, (k + 1) as nat)->0 as int].record == Some(r)
}

/// Whether `records` are the moves of the whole current line.
pub open spec fn is_line(nodes: Seq<NodeView>, records: Seq<RecordView>) -> bool {
    &&& line_at(nodes, records.len()) is Some
    &&& line_at(nodes, records.len() + 1) is None
    &&& forall|k: int| 0 <= k < records.len() ==> line_move(nodes, k, #[trigger] records[k])
}

/// The moves from the root to `id`.
pub open spec fn path_records(nodes: Seq<NodeView>, id: usize) -> Seq<RecordView> {
    let d = nodes[id as int].depth as nat;
    Seq::new(d, |k: int| nodes[up(nodes, id, (d - 1 - k) as nat) as int].record->0)
}

/// How many stones the moves of `color` take in all.
pub open spec fn taken_count(records: Seq<RecordView>, color: Stone) -> nat
    decreases records.len(),
{
    if records.len() == 0 {
        0
    } else {
        taken_count(records.drop_last(), color) + if records.last().player == color {
            records.last().captured.len()
        } else {
            0
        }
    }
}

/// How many stones the moves of `color` put on the board.
pub open spec fn placed_count(records: Seq<RecordView>, color: Stone) -> nat
    decreases records.len(),
{
    if records.len() == 0 {
        0
    } else {
        placed_count(records.drop_last(), color) + if records.last().player == color
            && records.last().action != Action::Pass {
            1nat
        } else {
            0
        }
    }
}

/// How many stones of `color` stand on a position.
pub open spec fn stone_count(grid: Seq<Option<Stone>>, color: Stone) -> nat
    decreases grid.len(),
{
    if grid.len() == 0 {
        0
    } else {
        stone_count(grid.drop_last(), color) + if grid.last() == Some(color) {
            1nat
        } else {
            0
        }
    }
}

/// Who moves at a node.
pub open spec fn mover(root_to_play: Stone, nodes: Seq<NodeView>, id: usize) -> Stone {
    match nodes[id as int].record {
        Some(r) => r.player.other(),
        None => root_to_play,
    }
}

// ---- well-formed trees ----

/// Whether node `i` is consistent with its parent: the right side moved, and the position follows
/// from the parent's by a legal move.
pub open spec fn step_ok(
    size: Size,
    root_to_play: Stone,
    nodes: Seq<NodeView>,
    i: int,
) -> bool {
    let n = nodes[i];
    let p = n.parent->0;
    let r = n.record->0;
    let before = nodes[p as int].grid;
    &&& r.player == mover(root_to_play, nodes, p)
    &&& match r.action {
        Action::Pass => n.grid == before && r.captured == Set::<Coord>::empty(),
        Action::Place(at) => {
            &&& rules::move_result(size, before, r.player, at) == Ok::<
                (Seq<Option<Stone>>, Set<Coord>),
                IllegalReason,
            >((n.grid, r.captured))
            &&& nodes[p as int].parent is Some ==> nodes[nodes[p as int].parent->0 as int].grid
                != n.grid
        },
    }
}

/// Whether node `i` is properly attached to its parent.
pub open spec fn hung(nodes: Seq<NodeView>, i: int) -> bool {
    let n = nodes[i];
    &&& n.parent is Some
    &&& n.parent->0 < nodes.len()
    &&& n.record is Some
    &&& n.depth == nodes[n.parent->0 as int].depth + 1
    &&& nodes[n.parent->0 as int].children.contains(i as usize)
}

/// Whether `c` is a node that names `i` as its parent.
pub open spec fn child_of(nodes: Seq<NodeView>, c: usize, i: int) -> bool {
    c < nodes.len() && nodes[c as int].parent == Some(i as usize)
}

/// Whether the selection of a node makes sense and its record of visits does.
pub open spec fn counters_ok(n: NodeView) -> bool {
    &&& n.selected < n.children.len() || (n.children.len() == 0 && n.selected == 0)
    &&& n.depth <= n.last_depth
}

/// No two children of a node are the same move.
pub open spec fn children_differ(nodes: Seq<NodeView>, i: int) -> bool {
    forall|j: int, k: int|
        0 <= j < k < nodes[i].children.len() ==> nodes[#[trigger] nodes[i].children[j] as int].record->0.action
            != nodes[#[trigger] nodes[i].children[k] as int].record->0.action
}

/// A well-formed game tree.
pub open spec fn tree_ok(size: Size, root_to_play: Stone, nodes: Seq<NodeView>) -> bool {
    &&& size.wf()
    &&& 0 < nodes.len() <= usize::MAX
    &&& nodes[0].parent is None
    &&& nodes[0].record is None
    &&& nodes[0].depth == 0
    &&& forall|i: int| 0 < i < nodes.len() ==> #[trigger] hung(nodes, i)
    &&& forall|i: int| 0 < i < nodes.len() ==> #[trigger] step_ok(size, root_to_play, nodes, i)
    &&& forall|i: int, k: int|
        0 <= i < nodes.len() && 0 <= k < nodes[i].children.len() ==> child_of(
            nodes,
            #[trigger] nodes[i].children[k],
            i,
        )
    &&& forall|i: int| 0 <= i < nodes.len() ==> (#[trigger] nodes[i]).children.no_duplicates()
    &&& forall|i: int| 0 <= i < nodes.len() ==> (#[trigger] nodes[i]).grid.len() == size.points()
    &&& forall|i: int| 0 <= i < nodes.len() ==> counters_ok(#[trigger] nodes[i])
    &&& forall|i: int| 0 <= i < nodes.len() ==> #[trigger] children_differ(nodes, i)
}

impl BoardView {
    /// A well-formed board: the tree is, and the cursor is on the current line.
    pub open spec fn wf(self) -> bool {
        &&& tree_ok(self.size, self.root_to_play, self.nodes)
        &&& self.current < self.nodes.len()
        &&& line_at(self.nodes, self.here().depth as nat) == Some(self.current)
    }

    /// The node where the cursor is.
    pub open spec fn here(self) -> NodeView {
        self.nodes[self.current as int]
    }

    /// Who moves at the cursor.
    pub open spec fn to_play(self) -> Stone {
        mover(self.root_to_play, self.nodes, self.current)
    }

    /// The board with the cursor at `id`. The nodes from the root to `id` remember how deep the
    /// cursor has been.
    pub open spec fn moved(self, id: usize) -> BoardView {
        BoardView { nodes: touched(self.nodes, id), current: id, ..self }
    }

    /// The board with child `i` of the cursor's node selected.
    pub open spec fn choosing(self, i: usize) -> BoardView {
        BoardView { nodes: select(self.nodes, self.current, i), ..self }
    }

    /// The board after the move `record`, which leads to `grid`: an existing child with that move
    /// is entered, otherwise a new one is added behind the others.
    pub open spec fn entered(self, record: RecordView, grid: Seq<Option<Stone>>) -> BoardView {
        if has_child_with(self.nodes, self.current, record.action) {
            let i = child_with(self.nodes, self.current, record.action);
            self.choosing(i).moved(self.here().children[i as int])
        } else {
            BoardView { nodes: grown(self.nodes, self.current, record, grid), ..self }.moved(
                self.nodes.len() as usize,
            )
        }
    }

    /// What playing on `at` leads to.
    pub open spec fn tried(self, at: Coord) -> Result<
        (Seq<Option<Stone>>, Set<Coord>),
        IllegalReason,
    > {
        match rules::move_result(self.size, self.here().grid, self.to_play(), at) {
            Err(e) => Err(e),
            Ok((grid, gone)) => if self.here().parent is Some
                && self.nodes[self.here().parent->0 as int].grid == grid {
                Err(IllegalReason::Ko)
            } else {
                Ok((grid, gone))
            },
        }
    }

    /// The board after the side to move plays on `at`, or why it cannot.
    pub open spec fn played(self, at: Coord) -> Result<BoardView, IllegalReason> {
        match self.tried(at) {
            Err(e) => Err(e),
            Ok((grid, gone)) => Ok(
                self.entered(
                    RecordView {
                        player: self.to_play(),
                        action: Action::Place(at),
                        captured: gone,
                    },
                    grid,
                ),
            ),
        }
    }

    /// The board after the side to move passes.
    pub open spec fn passed(self) -> BoardView {
        self.entered(
            RecordView {
                player: self.to_play(),
                action: Action::Pass,
                captured: Set::<Coord>::empty(),
            },
            self.here().grid,
        )
    }

    /// The board after entering child `i` of the cursor's node: the cursor goes on along the
    /// selected children as deep as it has been below that node.
    pub open spec fn branched(self, i: usize) -> BoardView {
        let b = self.choosing(i);
        let want = self.here().last_depth as nat;
        b.moved(descend(b.nodes, self.here().children[i as int], want))
    }

    /// The board with the cursor at node `id`, every node above it selecting the way to it.
    pub open spec fn jumped(self, id: usize) -> BoardView {
        BoardView { nodes: select_path(self.nodes, id), ..self }.moved(id)
    }

    /// Whether the last move can be taken back: the cursor is at a leaf that is not the root.
    pub open spec fn can_undo(self) -> bool {
        self.here().parent is Some && self.here().children.len() == 0
    }

    /// The board after taking back the move at the cursor. The last node of the list takes the
    /// place of the removed one.
    pub open spec fn undone(self) -> BoardView {
        let p = self.here().parent->0;
        BoardView { nodes: pruned(self.nodes, self.current), ..self }.moved(
            renamed(self.nodes, self.current, p),
        )
    }
}

/// The nodes from the root to `id` remember that the cursor has been at `id`.
pub open spec fn touched(nodes: Seq<NodeView>, id: usize) -> Seq<NodeView> {
    Seq::new(
        nodes.len(),
        |i: int|
            if is_ancestor(nodes, i as usize, id) && nodes[i].last_depth < nodes[id as int].depth {
                NodeView { last_depth: nodes[id as int].depth, ..nodes[i] }
            } else {
                nodes[i]
            },
    )
}

/// Node `at` selects its child number `i`.
pub open spec fn select(nodes: Seq<NodeView>, at: usize, i: usize) -> Seq<NodeView> {
    nodes.update(at as int, NodeView { selected: i, ..nodes[at as int] })
}

/// Whether child `i` of node `at` holds the move `action`.
pub open spec fn child_is(nodes: Seq<NodeView>, at: usize, action: Action, i: int) -> bool {
    &&& 0 <= i < nodes[at as int].children.len()
    &&& nodes[nodes[at as int].children[i] as int].record->0.action == action
}

/// Whether a child of node `at` holds the move `action`.
pub open spec fn has_child_with(nodes: Seq<NodeView>, at: usize, action: Action) -> bool {
    exists|i: int| #[trigger] child_is(nodes, at, action, i)
}

/// Which child of node `at` holds the move `action`.
pub open spec fn child_with(nodes: Seq<NodeView>, at: usize, action: Action) -> usize {
    (choose|i: int| #[trigger] child_is(nodes, at, action, i)) as usize
}

/// The tree with a new last child of node `at`, which is selected.
pub open spec fn grown(
    nodes: Seq<NodeView>,
    at: usize,
    record: RecordView,
    grid: Seq<Option<Stone>>,
) -> Seq<NodeView> {
    let n = nodes[at as int];
    let depth = (n.depth + 1) as usize;
    nodes.update(
        at as int,
        NodeView {
            children: n.children.push(nodes.len() as usize),
            selected: n.children.len() as usize,
            ..n
        },
    ).push(
        NodeView {
            record: Some(record),
            parent: Some(at),
            children: Seq::empty(),
            grid,
            depth,
            selected: 0,
            last_depth: depth,
        },
    )
}

/// The node reached from `id` along selected children, no deeper than `want`.
pub open spec fn descend(nodes: Seq<NodeView>, id: usize, want: nat) -> usize
    decreases want - nodes[id as int].depth,
{
    match next_of(nodes, id) {
        None => id,
        Some(c) => if nodes[id as int].depth < nodes[c as int].depth <= want {
            descend(nodes, c, want)
        } else {
            id
        },
    }
}

/// Whether child `s` of node `i` leads to `id`.
pub open spec fn leads_to(nodes: Seq<NodeView>, i: int, s: usize, id: usize) -> bool {
    s < nodes[i].children.len() && is_ancestor(nodes, nodes[i].children[s as int], id)
}

/// Every node above `id` selects the child that leads to `id`.
pub open spec fn select_path(nodes: Seq<NodeView>, id: usize) -> Seq<NodeView> {
    Seq::new(
        nodes.len(),
        |i: int|
            if exists|s: usize| #[trigger] leads_to(nodes, i, s, id) {
                NodeView {
                    selected: choose|s: usize| #[trigger] leads_to(nodes, i, s, id),
                    ..nodes[i]
                }
            } else {
                nodes[i]
            },
    )
}

/// The name of node `x` after `cur` has been removed: the last node takes its place.
pub open spec fn renamed(nodes: Seq<NodeView>, cur: usize, x: usize) -> usize {
    if x as int == nodes.len() - 1 {
        cur
    } else {
        x
    }
}

/// The selection of a node after its child number `pos` of `count + 1` has been removed.
pub open spec fn reselected(sel: usize, pos: int, count: nat) -> usize {
    if count == 0 {
        0
    } else if sel > pos {
        (sel - 1) as usize
    } else if sel == pos {
        if pos <= count - 1 {
            pos as usize
        } else {
            (count - 1) as usize
        }
    } else {
        sel
    }
}

/// Where node `cur` stands among the children of its parent.
pub open spec fn place_of(nodes: Seq<NodeView>, cur: usize) -> int {
    nodes[nodes[cur as int].parent->0 as int].children.index_of(cur)
}

/// What becomes of node `x` when the leaf `cur` is removed.
pub open spec fn trimmed_node(nodes: Seq<NodeView>, cur: usize, x: int) -> NodeView {
    let n = nodes[x];
    let pos = place_of(nodes, cur);
    let left = if nodes[cur as int].parent == Some(x as usize) {
        n.children.remove(pos)
    } else {
        n.children
    };
    NodeView {
        parent: match n.parent {
            Some(p) => Some(renamed(nodes, cur, p)),
            None => None,
        },
        children: left.map_values(|c: usize| renamed(nodes, cur, c)),
        selected: if nodes[cur as int].parent == Some(x as usize) {
            reselected(n.selected, pos, left.len())
        } else {
            n.selected
        },
        ..n
    }
}

/// The tree without the leaf `cur`; the last node takes its place in the list.
pub open spec fn pruned(nodes: Seq<NodeView>, cur: usize) -> Seq<NodeView> {
    Seq::new(
        (nodes.len() - 1) as nat,
        |j: int|
            trimmed_node(
                nodes,
                cur,
                if j == cur {
                    nodes.len() - 1
                } else {
                    j
                },
            ),
    )
}

} // verus!
