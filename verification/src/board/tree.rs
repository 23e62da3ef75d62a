//! Proofs about game trees: every operation of the model keeps a tree well-formed.

use vstd::prelude::*;
use super::coord::{Coord, Size};
use super::model::{self, BoardView, NodeView, RecordView};
use super::rules::{self, IllegalReason, Stone};
use super::Action;

verus! {

/// Going `k` steps up from a node lowers the depth by `k`.
pub proof fn lemma_up_depth(size: Size, first: Stone, nodes: Seq<NodeView>, id: usize, k: nat)
    requires
        model::tree_ok(size, first, nodes),
        id < nodes.len(),
        k <= nodes[id as int].depth,
    ensures
        model::up(nodes, id, k) < nodes.len(),
        nodes[model::up(nodes, id, k) as int].depth == nodes[id as int].depth - k,
        k < nodes[id as int].depth ==> model::up(nodes, id, k) != 0 && nodes[model::up(
            nodes,
            id,
            k,
        ) as int].parent == Some(model::up(nodes, id, k + 1)),
    decreases k,
{
    if k > 0 {
        lemma_up_depth(size, first, nodes, id, (k - 1) as nat);
    }
    if k > 0 {
        let below = model::up(nodes, id, (k - 1) as nat);
        assert(model::hung(nodes, below as int));
    }
    let at = model::up(nodes, id, k);
    if k < nodes[id as int].depth && at != 0 {
        assert(model::hung(nodes, at as int));
    }
}

/// Steps up from a node continue those from its parent.
pub proof fn lemma_up_parent(nodes: Seq<NodeView>, id: usize, p: usize, k: nat)
    requires
        nodes[id as int].parent == Some(p),
    ensures
        model::up(nodes, id, k + 1) == model::up(nodes, p, k),
    decreases k,
{
    if k > 0 {
        lemma_up_parent(nodes, id, p, (k - 1) as nat);
    } else {
        assert(model::up(nodes, id, 0) == id);
    }
}

/// Trees with the same parents have the same ways up.
pub proof fn lemma_up_same(a: Seq<NodeView>, b: Seq<NodeView>, id: usize, k: nat)
    requires
        a.len() == b.len(),
        forall|i: int| 0 <= i < a.len() ==> (#[trigger] a[i]).parent == b[i].parent,
        forall|j: nat| j <= k ==> #[trigger] model::up(a, id, j) < a.len(),
    ensures
        model::up(a, id, k) == model::up(b, id, k),
    decreases k,
{
    if k > 0 {
        assert forall|j: nat| j <= k - 1 implies #[trigger] model::up(a, id, j) < a.len() by {}
        lemma_up_same(a, b, id, (k - 1) as nat);
        assert(model::up(a, id, (k - 1) as nat) < a.len());
        let at = model::up(a, id, (k - 1) as nat) as int;
        assert(a[at].parent == b[at].parent);
    }
}

/// No node lies as deep as the tree has nodes.
pub proof fn lemma_depth_bound(size: Size, first: Stone, nodes: Seq<NodeView>, id: usize)
    requires
        model::tree_ok(size, first, nodes),
        id < nodes.len(),
    ensures
        nodes[id as int].depth < nodes.len(),
{
    let d = nodes[id as int].depth as nat;
    let path = Seq::new(d + 1, |k: int| model::up(nodes, id, k as nat) as int);
    assert forall|i: int, j: int| 0 <= i < path.len() && 0 <= j < path.len() && i != j implies path[i]
        != path[j] by {
        lemma_up_depth(size, first, nodes, id, i as nat);
        lemma_up_depth(size, first, nodes, id, j as nat);
    }
    path.unique_seq_to_set();
    let range = vstd::set_lib::set_int_range(0, nodes.len() as int);
    assert forall|x: int| path.to_set().contains(x) implies range.contains(x) by {
        let i = choose|i: int| 0 <= i < path.len() && path[i] == x;
        lemma_up_depth(size, first, nodes, id, i as nat);
    }
    vstd::set_lib::lemma_int_range(0, nodes.len() as int);
    vstd::set_lib::lemma_len_subset(path.to_set(), range);
}

/// Above every node, `depth` steps up, is the root.
pub proof fn lemma_up_root(size: Size, first: Stone, nodes: Seq<NodeView>, id: usize)
    requires
        model::tree_ok(size, first, nodes),
        id < nodes.len(),
    ensures
        model::up(nodes, id, nodes[id as int].depth as nat) == 0,
{
    lemma_up_depth(size, first, nodes, id, nodes[id as int].depth as nat);
    let top = model::up(nodes, id, nodes[id as int].depth as nat);
    if top != 0 {
        assert(model::hung(nodes, top as int));
    }
}

/// The selected child of a node is one level deeper.
pub proof fn lemma_next(size: Size, first: Stone, nodes: Seq<NodeView>, id: usize)
    requires
        model::tree_ok(size, first, nodes),
        id < nodes.len(),
    ensures
        model::next_of(nodes, id) is Some <==> nodes[id as int].children.len() > 0,
        model::next_of(nodes, id) matches Some(c) ==> {
            &&& 0 < c < nodes.len()
            &&& nodes[c as int].parent == Some(id)
            &&& nodes[c as int].depth == nodes[id as int].depth + 1
        },
{
    let n = nodes[id as int];
    assert(model::counters_ok(n));
    if n.selected < n.children.len() {
        let c = n.children[n.selected as int];
        assert(model::child_of(nodes, c, id as int));
        assert(model::hung(nodes, c as int));
    }
}

/// The `n`-th node of the current line has depth `n`, and its parent is the node before it.
pub proof fn lemma_line(size: Size, first: Stone, nodes: Seq<NodeView>, n: nat)
    requires
        model::tree_ok(size, first, nodes),
        model::line_at(nodes, n) is Some,
    ensures
        model::line_at(nodes, n)->0 < nodes.len(),
        nodes[model::line_at(nodes, n)->0 as int].depth == n,
        n > 0 ==> model::line_at(nodes, (n - 1) as nat) is Some && nodes[model::line_at(
            nodes,
            n,
        )->0 as int].parent == model::line_at(nodes, (n - 1) as nat),
    decreases n,
{
    if n > 0 {
        lemma_line(size, first, nodes, (n - 1) as nat);
        lemma_next(size, first, nodes, model::line_at(nodes, (n - 1) as nat)->0);
    }
}

/// Going up from a node of the current line stays on it.
pub proof fn lemma_line_up(size: Size, first: Stone, nodes: Seq<NodeView>, n: nat, k: nat)
    requires
        model::tree_ok(size, first, nodes),
        model::line_at(nodes, n) is Some,
        k <= n,
    ensures
        model::line_at(nodes, (n - k) as nat) == Some(
            model::up(nodes, model::line_at(nodes, n)->0, k),
        ),
    decreases k,
{
    if k > 0 {
        lemma_line_up(size, first, nodes, n, (k - 1) as nat);
        lemma_line(size, first, nodes, (n - (k - 1)) as nat);
    }
}

/// The current line is as long as its longest prefix: beyond its end nothing is on it.
pub proof fn lemma_line_short(nodes: Seq<NodeView>, n: nat, m: nat)
    requires
        model::line_at(nodes, n) is None,
        n <= m,
    ensures
        model::line_at(nodes, m) is None,
    decreases m,
{
    if m > n {
        lemma_line_short(nodes, n, (m - 1) as nat);
    }
}

/// Two trees agree on the current line up to move `n` where they agree on the selections above.
pub proof fn lemma_line_same(a: Seq<NodeView>, b: Seq<NodeView>, n: nat)
    requires
        forall|k: nat|
            k < n ==> (#[trigger] model::line_at(a, k) matches Some(id) ==> model::next_of(a, id)
                == model::next_of(b, id)),
    ensures
        model::line_at(a, n) == model::line_at(b, n),
    decreases n,
{
    if n > 0 {
        lemma_line_same(a, b, (n - 1) as nat);
        assert(model::line_at(a, (n - 1) as nat) == model::line_at(b, (n - 1) as nat));
    }
}

/// Whether two trees differ in selections and visit records only.
pub open spec fn same_core(a: Seq<NodeView>, b: Seq<NodeView>) -> bool {
    &&& a.len() == b.len()
    &&& forall|i: int|
        #![trigger a[i]]
        #![trigger b[i]]
        0 <= i < a.len() ==> {
            &&& a[i].record == b[i].record
            &&& a[i].parent == b[i].parent
            &&& a[i].children == b[i].children
            &&& a[i].grid == b[i].grid
            &&& a[i].depth == b[i].depth
        }
}

/// Changing selections and visit records to sensible values keeps a tree well-formed.
pub proof fn lemma_core_ok(size: Size, first: Stone, a: Seq<NodeView>, b: Seq<NodeView>)
    requires
        model::tree_ok(size, first, a),
        same_core(a, b),
        forall|i: int| 0 <= i < b.len() ==> model::counters_ok(#[trigger] b[i]),
    ensures
        model::tree_ok(size, first, b),
{
    assert(a[0].parent == b[0].parent);
    assert forall|i: int| 0 < i < b.len() implies #[trigger] model::hung(b, i) by {
        assert(model::hung(a, i));
        assert(a[i].parent == b[i].parent);
        assert(a[b[i].parent->0 as int].children == b[b[i].parent->0 as int].children);
    }
    assert forall|i: int| 0 < i < b.len() implies #[trigger] model::step_ok(size, first, b, i) by {
        assert(model::hung(a, i));
        assert(model::step_ok(size, first, a, i));
        let p = a[i].parent->0;
        assert(a[p as int].record == b[p as int].record);
        if a[p as int].parent is Some {
            assert(p != 0);
            assert(model::hung(a, p as int));
            let g = a[p as int].parent->0;
            assert(a[g as int].grid == b[g as int].grid);
        }
    }
    assert forall|i: int, k: int|
        0 <= i < b.len() && 0 <= k < b[i].children.len() implies model::child_of(
        b,
        #[trigger] b[i].children[k],
        i,
    ) by {
        assert(a[i].children == b[i].children);
        assert(model::child_of(a, a[i].children[k], i));
    }
    assert forall|i: int| 0 <= i < b.len() implies #[trigger] model::children_differ(b, i) by {
        assert(a[i].children == b[i].children);
        assert(model::children_differ(a, i));
        assert forall|j: int, k: int|
            0 <= j < k < b[i].children.len() implies b[#[trigger] b[i].children[j] as int].record->0.action
            != b[#[trigger] b[i].children[k] as int].record->0.action by {
            let (x, y) = (a[i].children[j], a[i].children[k]);
            assert(model::child_of(a, x, i) && model::child_of(a, y, i));
            assert(a[x as int].record == b[x as int].record);
            assert(a[y as int].record == b[y as int].record);
        }
    }
}

/// Remembering a visit changes nothing but the visit records.
pub proof fn lemma_touched(size: Size, first: Stone, nodes: Seq<NodeView>, id: usize)
    requires
        model::tree_ok(size, first, nodes),
        id < nodes.len(),
    ensures
        same_core(nodes, model::touched(nodes, id)),
        model::tree_ok(size, first, model::touched(nodes, id)),
        forall|n: nat| #[trigger]
            model::line_at(model::touched(nodes, id), n) == model::line_at(nodes, n),
        forall|i: int|
            0 <= i < nodes.len() ==> (#[trigger] model::touched(nodes, id)[i]).selected
                == nodes[i].selected,
{
    let b = model::touched(nodes, id);
    assert forall|i: int| 0 <= i < b.len() implies model::counters_ok(#[trigger] b[i]) by {
        assert(model::counters_ok(nodes[i]));
    }
    lemma_core_ok(size, first, nodes, b);
    assert forall|n: nat| #[trigger] model::line_at(b, n) == model::line_at(nodes, n) by {
        assert forall|k: nat|
            k < n implies (#[trigger] model::line_at(nodes, k) matches Some(at) ==> model::next_of(
            nodes,
            at,
        ) == model::next_of(b, at)) by {
            if model::line_at(nodes, k) is Some {
                lemma_line(size, first, nodes, k);
            }
        }
        lemma_line_same(nodes, b, n);
    }
}

/// Moving the cursor along the current line keeps a board well-formed.
pub proof fn lemma_moved(v: BoardView, id: usize)
    requires
        model::tree_ok(v.size, v.root_to_play, v.nodes),
        id < v.nodes.len(),
        model::line_at(v.nodes, v.nodes[id as int].depth as nat) == Some(id),
    ensures
        v.moved(id).wf(),
{
    lemma_touched(v.size, v.root_to_play, v.nodes, id);
}

/// Selecting a child of a node on the current line bends the line there.
pub proof fn lemma_select(size: Size, first: Stone, nodes: Seq<NodeView>, at: usize, i: usize)
    requires
        model::tree_ok(size, first, nodes),
        at < nodes.len(),
        i < nodes[at as int].children.len(),
    ensures
        model::tree_ok(size, first, model::select(nodes, at, i)),
        same_core(nodes, model::select(nodes, at, i)),
        model::line_at(nodes, nodes[at as int].depth as nat) == Some(at) ==> {
            let b = model::select(nodes, at, i);
            let c = nodes[at as int].children[i as int];
            &&& model::line_at(b, nodes[at as int].depth as nat) == Some(at)
            &&& model::line_at(b, (nodes[at as int].depth + 1) as nat) == Some(c)
            &&& c < nodes.len()
            &&& nodes[c as int].depth == nodes[at as int].depth + 1
        },
{
    let b = model::select(nodes, at, i);
    assert forall|k: int| 0 <= k < b.len() implies model::counters_ok(#[trigger] b[k]) by {
        assert(model::counters_ok(nodes[k]));
    }
    lemma_core_ok(size, first, nodes, b);
    let d = nodes[at as int].depth as nat;
    if model::line_at(nodes, d) == Some(at) {
        assert forall|k: nat|
            k < d implies (#[trigger] model::line_at(nodes, k) matches Some(x) ==> model::next_of(
            nodes,
            x,
        ) == model::next_of(b, x)) by {
            if model::line_at(nodes, k) is Some {
                lemma_line(size, first, nodes, k);
            }
        }
        lemma_line_same(nodes, b, d);
        let c = nodes[at as int].children[i as int];
        assert(model::child_of(nodes, c, at as int));
        assert(model::hung(nodes, c as int));
        assert(model::next_of(b, at) == Some(c));
    }
}

/// Adding a legal new move below the cursor keeps a board well-formed.
pub proof fn lemma_grown(v: BoardView, record: RecordView, grid: Seq<Option<Stone>>)
    requires
        v.wf(),
        v.nodes.len() < usize::MAX,
        grid.len() == v.size.points(),
        record.player == v.to_play(),
        !model::has_child_with(v.nodes, v.current, record.action),
        match record.action {
            Action::Pass => grid == v.here().grid && record.captured == Set::<Coord>::empty(),
            Action::Place(at) => v.tried(at) == Ok::<
                (Seq<Option<Stone>>, Set<Coord>),
                IllegalReason,
            >((grid, record.captured)),
        },
    ensures
        ({
            let b = model::grown(v.nodes, v.current, record, grid);
            let id = v.nodes.len() as usize;
            &&& model::tree_ok(v.size, v.root_to_play, b)
            &&& id < b.len()
            &&& b[id as int].depth == v.here().depth + 1
            &&& model::line_at(b, b[id as int].depth as nat) == Some(id)
        }),
{
    let nodes = v.nodes;
    let cur = v.current;
    let b = model::grown(nodes, cur, record, grid);
    let id = nodes.len() as usize;
    lemma_depth_bound(v.size, v.root_to_play, nodes, cur);
    lemma_children_bound(v.size, v.root_to_play, nodes, cur);
    assert forall|i: int| 0 < i < b.len() implies #[trigger] model::hung(b, i) by {
        if i < nodes.len() {
            assert(model::hung(nodes, i));
            let p = nodes[i].parent->0;
            assert(nodes[p as int].children.contains(i as usize));
            let k = choose|k: int|
                0 <= k < nodes[p as int].children.len() && nodes[p as int].children[k] == i as usize;
            assert(b[p as int].children[k] == i as usize);
        } else {
            assert(b[cur as int].children[nodes[cur as int].children.len() as int] == id);
        }
    }
    assert forall|i: int| 0 < i < b.len() implies #[trigger] model::step_ok(
        v.size,
        v.root_to_play,
        b,
        i,
    ) by {
        if i < nodes.len() {
            assert(model::hung(nodes, i));
            assert(model::step_ok(v.size, v.root_to_play, nodes, i));
            let p = nodes[i].parent->0;
            if p != 0 {
                assert(model::hung(nodes, p as int));
            }
        } else {
            if cur != 0 {
                assert(model::hung(nodes, cur as int));
            }
        }
    }
    assert forall|i: int, k: int|
        0 <= i < b.len() && 0 <= k < b[i].children.len() implies model::child_of(
        b,
        #[trigger] b[i].children[k],
        i,
    ) by {
        if i < nodes.len() {
            if k < nodes[i].children.len() {
                assert(model::child_of(nodes, nodes[i].children[k], i));
            }
        }
    }
    assert forall|i: int| 0 <= i < b.len() implies (#[trigger] b[i]).children.no_duplicates() by {
        if i < nodes.len() {
            assert(nodes[i].children.no_duplicates());
            if i == cur {
                assert forall|j: int, k: int|
                    0 <= j < b[i].children.len() && 0 <= k < b[i].children.len() && j
                        != k implies b[i].children[j] != b[i].children[k] by {
                    if j < nodes[i].children.len() {
                        assert(model::child_of(nodes, nodes[i].children[j], i));
                    }
                    if k < nodes[i].children.len() {
                        assert(model::child_of(nodes, nodes[i].children[k], i));
                    }
                }
            }
        }
    }
    assert forall|i: int| 0 <= i < b.len() implies model::counters_ok(#[trigger] b[i]) by {
        if i < nodes.len() {
            assert(model::counters_ok(nodes[i]));
        }
    }
    assert forall|i: int| 0 <= i < b.len() implies (#[trigger] b[i]).grid.len()
        == v.size.points() by {
        if i < nodes.len() {
            assert(nodes[i].grid.len() == v.size.points());
        }
    }
    assert forall|i: int| 0 <= i < b.len() implies #[trigger] model::children_differ(b, i) by {
        if i < nodes.len() {
            assert(model::children_differ(nodes, i));
            assert forall|j: int, k: int|
                0 <= j < k
                    < b[i].children.len() implies b[#[trigger] b[i].children[j] as int].record->0.action
                != b[#[trigger] b[i].children[k] as int].record->0.action by {
                let x = nodes[i].children[j];
                assert(model::child_of(nodes, x, i));
                if k < nodes[i].children.len() {
                    let y = nodes[i].children[k];
                    assert(model::child_of(nodes, y, i));
                } else {
                    assert(!model::child_is(nodes, cur, record.action, j));
                }
            }
        }
    }
    let d = v.here().depth as nat;
    assert forall|k: nat|
        k < d implies (#[trigger] model::line_at(nodes, k) matches Some(x) ==> model::next_of(
        nodes,
        x,
    ) == model::next_of(b, x)) by {
        if model::line_at(nodes, k) is Some {
            lemma_line(v.size, v.root_to_play, nodes, k);
        }
    }
    lemma_line_same(nodes, b, d);
    assert(model::next_of(b, cur) == Some(id));
    assert(model::line_at(b, d + 1) == Some(id));
}

/// Following selected children stays on the line that runs through the starting node.
pub proof fn lemma_descend(size: Size, first: Stone, nodes: Seq<NodeView>, id: usize, want: nat)
    requires
        model::tree_ok(size, first, nodes),
        id < nodes.len(),
        model::line_at(nodes, nodes[id as int].depth as nat) == Some(id),
    ensures
        model::descend(nodes, id, want) < nodes.len(),
        ({
            let e = model::descend(nodes, id, want);
            model::line_at(nodes, nodes[e as int].depth as nat) == Some(e)
        }),
    decreases want - nodes[id as int].depth,
{
    lemma_next(size, first, nodes, id);
    match model::next_of(nodes, id) {
        None => {},
        Some(c) => {
            if nodes[id as int].depth < nodes[c as int].depth <= want {
                assert(model::line_at(nodes, nodes[c as int].depth as nat) == Some(c));
                lemma_descend(size, first, nodes, c, want);
            }
        },
    }
}

/// At most one child of a node leads to a given node.
pub proof fn lemma_one_way_down(
    size: Size,
    first: Stone,
    nodes: Seq<NodeView>,
    i: int,
    s: usize,
    t: usize,
    id: usize,
)
    requires
        model::tree_ok(size, first, nodes),
        0 <= i < nodes.len(),
        id < nodes.len(),
        model::leads_to(nodes, i, s, id),
        model::leads_to(nodes, i, t, id),
    ensures
        s == t,
{
    let (x, y) = (nodes[i].children[s as int], nodes[i].children[t as int]);
    assert(model::child_of(nodes, x, i) && model::child_of(nodes, y, i));
    if x != 0 {
        assert(model::hung(nodes, x as int));
    }
    if y != 0 {
        assert(model::hung(nodes, y as int));
    }
    let j = choose|k: nat|
        k <= nodes[id as int].depth && #[trigger] model::up(nodes, id, k) == x;
    let k = choose|k: nat|
        k <= nodes[id as int].depth && #[trigger] model::up(nodes, id, k) == y;
    lemma_up_depth(size, first, nodes, id, j);
    lemma_up_depth(size, first, nodes, id, k);
    assert(nodes[i].children.no_duplicates());
}

/// With every node above `id` selecting the way to it, `id` is on the current line.
pub proof fn lemma_select_path(size: Size, first: Stone, nodes: Seq<NodeView>, id: usize)
    requires
        model::tree_ok(size, first, nodes),
        id < nodes.len(),
    ensures
        model::tree_ok(size, first, model::select_path(nodes, id)),
        same_core(nodes, model::select_path(nodes, id)),
        model::line_at(model::select_path(nodes, id), nodes[id as int].depth as nat) == Some(id),
{
    let b = model::select_path(nodes, id);
    assert forall|i: int| 0 <= i < b.len() implies model::counters_ok(#[trigger] b[i]) by {
        assert(model::counters_ok(nodes[i]));
    }
    lemma_core_ok(size, first, nodes, b);
    lemma_path_on_line(size, first, nodes, id, nodes[id as int].depth as nat);
}

proof fn lemma_path_on_line(size: Size, first: Stone, nodes: Seq<NodeView>, id: usize, n: nat)
    requires
        model::tree_ok(size, first, nodes),
        id < nodes.len(),
        n <= nodes[id as int].depth,
    ensures
        model::line_at(model::select_path(nodes, id), n) == Some(
            model::up(nodes, id, (nodes[id as int].depth - n) as nat),
        ),
    decreases n,
{
    let b = model::select_path(nodes, id);
    let d = nodes[id as int].depth;
    if n == 0 {
        lemma_up_root(size, first, nodes, id);
    } else {
        lemma_path_on_line(size, first, nodes, id, (n - 1) as nat);
        let p = model::up(nodes, id, (d - n + 1) as nat);
        let c = model::up(nodes, id, (d - n) as nat);
        lemma_up_depth(size, first, nodes, id, (d - n) as nat);
        lemma_up_depth(size, first, nodes, id, (d - n + 1) as nat);
        assert(model::hung(nodes, c as int));
        assert(nodes[p as int].children.contains(c));
        let s = choose|s: int|
            0 <= s < nodes[p as int].children.len() && nodes[p as int].children[s] == c;
        assert(nodes[p as int].children.len() <= usize::MAX) by {
            lemma_children_bound(size, first, nodes, p);
        }
        assert(model::leads_to(nodes, p as int, s as usize, id));
        let t = choose|t: usize| #[trigger] model::leads_to(nodes, p as int, t, id);
        lemma_one_way_down(size, first, nodes, p as int, s as usize, t, id);
        assert(b[p as int].selected == t);
    }
}

/// A node has fewer children than the tree has nodes.
pub proof fn lemma_children_bound(size: Size, first: Stone, nodes: Seq<NodeView>, p: usize)
    requires
        model::tree_ok(size, first, nodes),
        p < nodes.len(),
    ensures
        nodes[p as int].children.len() < nodes.len(),
{
    let kids = nodes[p as int].children.map_values(|c: usize| c as int);
    assert(nodes[p as int].children.no_duplicates());
    assert forall|i: int, j: int| 0 <= i < kids.len() && 0 <= j < kids.len() && i != j implies kids[i]
        != kids[j] by {}
    kids.unique_seq_to_set();
    let range = vstd::set_lib::set_int_range(1, nodes.len() as int);
    assert forall|x: int| kids.to_set().contains(x) implies range.contains(x) by {
        let i = choose|i: int| 0 <= i < kids.len() && kids[i] == x;
        assert(model::child_of(nodes, nodes[p as int].children[i], p as int));
    }
    vstd::set_lib::lemma_int_range(1, nodes.len() as int);
    vstd::set_lib::lemma_len_subset(kids.to_set(), range);
}

/// The children of node `x` without the leaf `cur`.
spec fn left_of(nodes: Seq<NodeView>, cur: usize, x: int) -> Seq<usize> {
    if nodes[cur as int].parent == Some(x as usize) {
        nodes[x].children.remove(model::place_of(nodes, cur))
    } else {
        nodes[x].children
    }
}

/// The children that are left are the old ones but for `cur`, in the old order.
proof fn lemma_left(size: Size, first: Stone, nodes: Seq<NodeView>, cur: usize, x: int)
    requires
        model::tree_ok(size, first, nodes),
        0 < cur < nodes.len(),
        0 <= x < nodes.len(),
    ensures
        forall|k: int|
            0 <= k < left_of(nodes, cur, x).len() ==> {
                let c = #[trigger] left_of(nodes, cur, x)[k];
                &&& c != cur
                &&& model::child_of(nodes, c, x)
                &&& nodes[x].children.contains(c)
            },
        forall|c: usize|
            c != cur && #[trigger] nodes[x].children.contains(c) ==> left_of(
                nodes,
                cur,
                x,
            ).contains(c),
        left_of(nodes, cur, x).no_duplicates(),
        forall|j: int, k: int|
            0 <= j < k < left_of(nodes, cur, x).len() ==> nodes[#[trigger] left_of(
                nodes,
                cur,
                x,
            )[j] as int].record->0.action != nodes[#[trigger] left_of(
                nodes,
                cur,
                x,
            )[k] as int].record->0.action,
        nodes[cur as int].parent == Some(x as usize) ==> {
            &&& 0 <= model::place_of(nodes, cur) < nodes[x].children.len()
            &&& nodes[x].children[model::place_of(nodes, cur)] == cur
        },
{
    let kids = nodes[x].children;
    let left = left_of(nodes, cur, x);
    assert(kids.no_duplicates());
    assert(model::hung(nodes, cur as int));
    assert(model::children_differ(nodes, x));
    if nodes[cur as int].parent == Some(x as usize) {
        let pos = model::place_of(nodes, cur);
        assert(kids.contains(cur));
        assert(0 <= pos < kids.len() && kids[pos] == cur);
        assert forall|k: int| 0 <= k < left.len() implies {
            let c = #[trigger] left[k];
            &&& c != cur
            &&& model::child_of(nodes, c, x)
            &&& kids.contains(c)
        } by {
            let o = if k < pos {
                k
            } else {
                k + 1
            };
            assert(left[k] == kids[o]);
            assert(model::child_of(nodes, kids[o], x));
        }
        assert forall|c: usize| c != cur && #[trigger] kids.contains(c) implies left.contains(c) by {
            let k = choose|k: int| 0 <= k < kids.len() && kids[k] == c;
            if k < pos {
                assert(left[k] == c);
            } else {
                assert(left[k - 1] == c);
            }
        }
        assert forall|j: int, k: int|
            0 <= j < k < left.len() implies nodes[#[trigger] left[j] as int].record->0.action
            != nodes[#[trigger] left[k] as int].record->0.action by {
            let a = if j < pos {
                j
            } else {
                j + 1
            };
            let b = if k < pos {
                k
            } else {
                k + 1
            };
            assert(left[j] == kids[a] && left[k] == kids[b]);
        }
    } else {
        assert forall|k: int| 0 <= k < left.len() implies {
            let c = #[trigger] left[k];
            &&& c != cur
            &&& model::child_of(nodes, c, x)
            &&& kids.contains(c)
        } by {
            assert(model::child_of(nodes, kids[k], x));
        }
    }
}

/// Removing a leaf other than the root keeps the tree well-formed, and its parent stays on the
/// current line if the leaf was on it.
#[verifier::rlimit(40)]
pub proof fn lemma_pruned(v: BoardView)
    requires
        v.wf(),
        v.can_undo(),
    ensures
        ({
            let b = model::pruned(v.nodes, v.current);
            let p = v.here().parent->0;
            let q = model::renamed(v.nodes, v.current, p);
            &&& model::tree_ok(v.size, v.root_to_play, b)
            &&& q < b.len()
            &&& p < v.nodes.len()
            &&& b[q as int].depth == v.nodes[p as int].depth
            &&& b[q as int].grid == v.nodes[p as int].grid
            &&& b[q as int].record == v.nodes[p as int].record
            &&& model::line_at(b, b[q as int].depth as nat) == Some(q)
        }),
{
    let nodes = v.nodes;
    let cur = v.current;
    let (size, first) = (v.size, v.root_to_play);
    let b = model::pruned(nodes, cur);
    let last = nodes.len() - 1;
    assert(cur != 0);
    assert(model::hung(nodes, cur as int));
    let p = v.here().parent->0;
    let src = |j: int|
        if j == cur {
            last
        } else {
            j
        };
    let ren = |x: usize| model::renamed(nodes, cur, x);
    // Nodes keep their contents under the new names.
    assert forall|x: int| 0 <= x < nodes.len() && x != cur implies {
        let j = #[trigger] ren(x as usize) as int;
        &&& 0 <= j < b.len()
        &&& b[j].record == nodes[x].record
        &&& b[j].grid == nodes[x].grid
        &&& b[j].depth == nodes[x].depth
        &&& b[j].last_depth == nodes[x].last_depth
        &&& b[j].parent == match nodes[x].parent {
            Some(q) => Some(ren(q)),
            None => None,
        }
        &&& b[j].children == left_of(nodes, cur, x).map_values(ren)
        &&& x != p ==> b[j].selected == nodes[x].selected
    } by {
        let j = ren(x as usize) as int;
        assert(b[j] == model::trimmed_node(nodes, cur, x));
        assert(b[j].children =~= left_of(nodes, cur, x).map_values(ren));
    }
    // A node that has children is not the removed one.
    assert forall|x: int| 0 < x < nodes.len() implies #[trigger] nodes[x].parent is Some
        && nodes[x].parent->0 != cur by {
        assert(model::hung(nodes, x));
    }
    assert(ren(0) == 0);
    assert(b[0].parent is None);
    assert forall|j: int| 0 < j < b.len() implies #[trigger] model::hung(b, j) by {
        let x = src(j);
        assert(ren(x as usize) == j);
        assert(model::hung(nodes, x));
        let px = nodes[x].parent->0;
        assert(nodes[x].parent is Some);
        let q = ren(px);
        assert(b[q as int].depth == nodes[px as int].depth);
        lemma_left(size, first, nodes, cur, px as int);
        let left = left_of(nodes, cur, px as int);
        assert(left.contains(x as usize));
        let k = choose|k: int| 0 <= k < left.len() && left[k] == x as usize;
        assert(b[q as int].children[k] == j as usize);
    }
    assert forall|j: int| 0 < j < b.len() implies #[trigger] model::step_ok(size, first, b, j) by {
        let x = src(j);
        assert(ren(x as usize) == j);
        assert(model::hung(nodes, x));
        assert(model::step_ok(size, first, nodes, x));
        let px = nodes[x].parent->0;
        assert(nodes[x].parent is Some);
        let q = ren(px);
        assert(b[q as int].grid == nodes[px as int].grid);
        if px != 0 {
            assert(model::hung(nodes, px as int));
            let g = nodes[px as int].parent->0;
            assert(nodes[px as int].parent is Some);
            assert(b[ren(g) as int].grid == nodes[g as int].grid);
        }
    }
    assert forall|i: int, k: int|
        0 <= i < b.len() && 0 <= k < b[i].children.len() implies model::child_of(
        b,
        #[trigger] b[i].children[k],
        i,
    ) by {
        let x = src(i);
        assert(ren(x as usize) == i);
        lemma_left(size, first, nodes, cur, x);
        let c = left_of(nodes, cur, x)[k];
        assert(model::child_of(nodes, c, x));
        assert(b[i].children[k] == ren(c));
        assert(b[ren(c) as int].record == nodes[c as int].record);
    }
    assert forall|i: int| 0 <= i < b.len() implies (#[trigger] b[i]).children.no_duplicates() by {
        let x = src(i);
        assert(ren(x as usize) == i);
        lemma_left(size, first, nodes, cur, x);
        let left = left_of(nodes, cur, x);
        assert forall|j: int, k: int|
            0 <= j < left.len() && 0 <= k < left.len() && j != k implies b[i].children[j]
            != b[i].children[k] by {
            assert(left[j] != left[k] && left[j] != cur && left[k] != cur);
        }
    }
    assert forall|i: int| 0 <= i < b.len() implies (#[trigger] b[i]).grid.len()
        == size.points() by {
        let x = src(i);
        assert(ren(x as usize) == i);
        assert(nodes[x].grid.len() == size.points());
    }
    assert forall|i: int| 0 <= i < b.len() implies model::counters_ok(#[trigger] b[i]) by {
        let x = src(i);
        assert(ren(x as usize) == i);
        assert(model::counters_ok(nodes[x]));
        lemma_left(size, first, nodes, cur, x);
    }
    assert forall|i: int| 0 <= i < b.len() implies #[trigger] model::children_differ(b, i) by {
        let x = src(i);
        assert(ren(x as usize) == i);
        lemma_left(size, first, nodes, cur, x);
        let left = left_of(nodes, cur, x);
        assert forall|j: int, k: int|
            0 <= j < k < b[i].children.len() implies b[#[trigger] b[i].children[j] as int].record->0.action
            != b[#[trigger] b[i].children[k] as int].record->0.action by {
            let (y, z) = (left[j], left[k]);
            assert(model::child_of(nodes, y, x) && model::child_of(nodes, z, x));
            assert(b[i].children[j] == ren(y) && b[i].children[k] == ren(z));
            assert(b[ren(y) as int].record == nodes[y as int].record);
            assert(b[ren(z) as int].record == nodes[z as int].record);
        }
    }
    lemma_line(size, first, nodes, v.here().depth as nat);
    lemma_pruned_line(v, nodes[p as int].depth as nat);
}

/// Removing the leaf at the cursor leaves the line above it in place.
proof fn lemma_pruned_line(v: BoardView, n: nat)
    requires
        v.wf(),
        v.can_undo(),
        n < v.here().depth,
    ensures
        model::line_at(v.nodes, n) is Some,
        model::line_at(model::pruned(v.nodes, v.current), n) == Some(
            model::renamed(v.nodes, v.current, model::line_at(v.nodes, n)->0),
        ),
    decreases n,
{
    let nodes = v.nodes;
    let cur = v.current;
    let (size, first) = (v.size, v.root_to_play);
    let b = model::pruned(nodes, cur);
    let d = v.here().depth as nat;
    lemma_line_up(size, first, nodes, d, (d - n) as nat);
    lemma_line(size, first, nodes, n);
    lemma_line(size, first, nodes, d);
    if n > 0 {
        lemma_pruned_line(v, (n - 1) as nat);
        lemma_line(size, first, nodes, (n - 1) as nat);
        let y = model::line_at(nodes, (n - 1) as nat)->0;
        let z = model::line_at(nodes, n)->0;
        let j = model::renamed(nodes, cur, y);
        lemma_left(size, first, nodes, cur, y as int);
        assert(cur != 0 && model::hung(nodes, cur as int));
        assert(nodes[v.here().parent->0 as int].depth == d - 1);
        assert(b[j as int] == model::trimmed_node(nodes, cur, y as int));
        assert(b[j as int].selected == nodes[y as int].selected);
        assert(b[j as int].children.len() == nodes[y as int].children.len());
    }
}

/// The stones that a recorded move took are points of the board.
pub proof fn lemma_captured_on_board(
    size: Size,
    first: Stone,
    nodes: Seq<NodeView>,
    i: int,
    c: Coord,
)
    requires
        model::tree_ok(size, first, nodes),
        0 < i < nodes.len(),
        nodes[i].record->0.captured.contains(c),
    ensures
        c.on(size),
{
    assert(model::hung(nodes, i));
    assert(model::step_ok(size, first, nodes, i));
    let before = nodes[nodes[i].parent->0 as int].grid;
    assert(nodes[nodes[i].parent->0 as int].grid.len() == size.points());
    match nodes[i].record->0.action {
        Action::Pass => {},
        Action::Place(at) => {
            rules::law_only_opponent_taken(size, before, nodes[i].record->0.player, at, c);
        },
    }
}

/// The moves to a node of the current line are the first moves of the line.
pub proof fn lemma_path_is_line(
    size: Size,
    first: Stone,
    nodes: Seq<NodeView>,
    id: usize,
    records: Seq<RecordView>,
)
    requires
        model::tree_ok(size, first, nodes),
        id < nodes.len(),
        model::line_at(nodes, nodes[id as int].depth as nat) == Some(id),
        model::is_line(nodes, records),
    ensures
        nodes[id as int].depth <= records.len(),
        model::path_records(nodes, id) == records.take(nodes[id as int].depth as int),
{
    let d = nodes[id as int].depth as nat;
    if records.len() < d {
        lemma_line_short(nodes, records.len() + 1, d);
    }
    assert forall|k: int| 0 <= k < d implies model::path_records(nodes, id)[k] == records[k] by {
        lemma_line_up(size, first, nodes, d, (d - 1 - k) as nat);
        assert(model::line_move(nodes, k, records[k]));
    }
    assert(model::path_records(nodes, id) =~= records.take(d as int));
}

/// The tree after the leaf at the cursor has been cut off its parent, but is still in the list.
pub open spec fn cut_off(v: BoardView) -> Seq<NodeView> {
    let p = v.here().parent->0;
    let pos = model::place_of(v.nodes, v.current);
    let n = v.nodes[p as int];
    v.nodes.update(
        p as int,
        NodeView {
            children: n.children.remove(pos),
            selected: model::reselected(n.selected, pos, (n.children.len() - 1) as nat),
            ..n
        },
    )
}

/// The list after the last node has been put in the place of the leaf.
pub open spec fn swapped(v: BoardView) -> Seq<NodeView> {
    Seq::new(
        (v.nodes.len() - 1) as nat,
        |j: int|
            cut_off(v)[if j == v.current {
                v.nodes.len() - 1
            } else {
                j
            }],
    )
}

/// The list after the parent of the node that was moved names it by its new place.
pub open spec fn reparented(v: BoardView) -> Seq<NodeView> {
    let last = (v.nodes.len() - 1) as usize;
    let m = swapped(v);
    let q = m[v.current as int].parent->0;
    m.update(
        q as int,
        NodeView {
            children: m[q as int].children.map_values(
                |c: usize|
                    if c == last {
                        v.current
                    } else {
                        c
                    },
            ),
            ..m[q as int]
        },
    )
}

/// What the steps of removing a leaf rely on.
pub proof fn lemma_swapped(v: BoardView)
    requires
        v.wf(),
        v.can_undo(),
    ensures
        v.current != v.nodes.len() - 1 ==> {
            let m = swapped(v);
            let q = m[v.current as int].parent->0;
            let kids = m[v.current as int].children;
            &&& m[v.current as int].parent is Some
            &&& q < m.len()
            &&& q != v.current
            &&& forall|k: int|
                0 <= k < kids.len() ==> (#[trigger] kids[k]) < m.len() && kids[k] != v.current
        },
        v.current == v.nodes.len() - 1 ==> swapped(v) == model::pruned(v.nodes, v.current),
{
    let nodes = v.nodes;
    let cur = v.current;
    let (size, first) = (v.size, v.root_to_play);
    let last = (nodes.len() - 1) as usize;
    let m = swapped(v);
    assert(cur != 0 && model::hung(nodes, cur as int));
    if cur != last {
        assert(model::hung(nodes, last as int));
        assert(m[cur as int] == cut_off(v)[last as int]);
        let q = nodes[last as int].parent->0;
        assert(q != cur);
        lemma_left(size, first, nodes, cur, last as int);
        let kids = m[cur as int].children;
        assert(kids =~= left_of(nodes, cur, last as int));
        assert forall|k: int| 0 <= k < kids.len() implies (#[trigger] kids[k]) < m.len() && kids[k]
            != cur by {
            let c = left_of(nodes, cur, last as int)[k];
            assert(model::child_of(nodes, c, last as int));
            assert(c != 0 && model::hung(nodes, c as int));
        }
    } else {
        assert forall|j: int| 0 <= j < m.len() implies m[j] == model::pruned(nodes, cur)[j] by {
            lemma_left(size, first, nodes, cur, j);
            let left = left_of(nodes, cur, j);
            assert(left.map_values(|c: usize| model::renamed(nodes, cur, c)) =~= left);
            if j != 0 {
                assert(model::hung(nodes, j));
            }
            assert(model::trimmed_node(nodes, cur, j) =~= m[j]);
        }
        assert(m =~= model::pruned(nodes, cur));
    }
}

/// Once the node that was moved has been renamed everywhere, the leaf is gone from the tree.
pub proof fn lemma_adopted(v: BoardView)
    requires
        v.wf(),
        v.can_undo(),
        v.current != v.nodes.len() - 1,
    ensures
        Seq::new(
            reparented(v).len(),
            |i: int|
                if reparented(v)[v.current as int].children.contains(i as usize) {
                    NodeView { parent: Some(v.current), ..reparented(v)[i] }
                } else {
                    reparented(v)[i]
                },
        ) == model::pruned(v.nodes, v.current),
{
    let nodes = v.nodes;
    let cur = v.current;
    let (size, first) = (v.size, v.root_to_play);
    let last = (nodes.len() - 1) as usize;
    let m = swapped(v);
    let w = reparented(v);
    let b = model::pruned(nodes, cur);
    lemma_swapped(v);
    assert(cur != 0 && model::hung(nodes, cur as int));
    assert(model::hung(nodes, last as int));
    let q = m[cur as int].parent->0;
    assert(q == nodes[last as int].parent->0);
    let ren = |c: usize| model::renamed(nodes, cur, c);
    let kids = w[cur as int].children;
    lemma_left(size, first, nodes, cur, last as int);
    assert(kids =~= left_of(nodes, cur, last as int));
    let done = Seq::new(
        w.len(),
        |i: int|
            if kids.contains(i as usize) {
                NodeView { parent: Some(cur), ..w[i] }
            } else {
                w[i]
            },
    );
    assert forall|j: int| 0 <= j < b.len() implies #[trigger] done[j] == b[j] by {
        let x = if j == cur {
            last as int
        } else {
            j
        };
        let t = model::trimmed_node(nodes, cur, x);
        assert(b[j] == t);
        lemma_left(size, first, nodes, cur, x);
        let left = left_of(nodes, cur, x);
        assert(t.children =~= left.map_values(ren));
        if j == q {
            assert(w[j].children =~= left.map_values(ren));
        } else {
            assert forall|k: int| 0 <= k < left.len() implies #[trigger] left[k] != last by {
                assert(model::child_of(nodes, left[k], x));
            }
            assert(left.map_values(ren) =~= left);
        }
        if x != 0 {
            assert(model::hung(nodes, x));
        }
        if kids.contains(j as usize) {
            let k = choose|k: int| 0 <= k < kids.len() && kids[k] == j as usize;
            assert(model::child_of(nodes, kids[k], last as int));
        } else if nodes[x].parent == Some(last) {
            assert(nodes[last as int].children.contains(x as usize));
            assert(left_of(nodes, cur, last as int).contains(x as usize));
        }
        assert(done[j] =~= t);
    }
    assert(done =~= b);
}

} // verus!
