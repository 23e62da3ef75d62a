//! What loading, saving and loading again keep: a record that was loaded can be saved, and then
//! loads as the same game.

use vstd::prelude::*;
use super::heading;
use super::info;
use super::keeping;
use super::laws;
use super::load::{self, LoadView, LoadedView, MetaView};
use super::model::{self, NodeView, PropView, TreeView};
use super::save;
use crate::board::{self, coord, copies, model as game, Action, BoardView, Coord, RecordView, Stone};
use crate::number;
use crate::text;

verus! {

/// Everything kept of a record so far can be saved, and the side that moves first is `first`.
pub open spec fn good(st: LoadView, first: Stone) -> bool {
    &&& st.board.root_to_play == first
    &&& forall|sig: u64, i: int|
        st.extras.contains_key(sig) && 0 <= i < st.extras[sig].len() ==> keeping::can_keep(
            #[trigger] st.extras[sig][i],
        )
}

proof fn lemma_kept(ps: Seq<PropView>, i: int)
    requires
        forall|k: int| 0 <= k < ps.len() ==> laws::prop_canonical(#[trigger] ps[k]),
        0 <= i < load::kept_props(ps).len(),
    ensures
        keeping::can_keep(load::kept_props(ps)[i]),
    decreases ps.len(),
{
    if ps.len() > 0 {
        let rest = ps.drop_last();
        assert forall|k: int| 0 <= k < rest.len() implies laws::prop_canonical(
            #[trigger] rest[k],
        ) by {
            assert(rest[k] == ps[k]);
        }
        if i < load::kept_props(rest).len() {
            lemma_kept(rest, i);
        } else {
            assert(laws::prop_canonical(ps[ps.len() - 1]));
        }
    }
}

proof fn lemma_node_good(st: LoadView, n: NodeView, label: Option<Seq<char>>, first: Stone)
    requires
        good(st, first),
        laws::node_canonical(n),
    ensures
        good(load::after_node(st, n, label).0, first),
{
    let next = load::after_node(st, n, label).0;
    let kept = load::kept_props(n.props);
    assert forall|sig: u64, i: int|
        next.extras.contains_key(sig) && 0 <= i < next.extras[sig].len() implies keeping::can_keep(
        #[trigger] next.extras[sig][i],
    ) by {
        if st.extras.contains_key(sig) && next.extras[sig] == st.extras[sig] {
            assert(keeping::can_keep(st.extras[sig][i]));
        } else {
            assert(next.extras[sig] == kept);
            lemma_kept(n.props, i);
        }
    }
}

proof fn lemma_nodes_good(st: LoadView, ns: Seq<NodeView>, label: Option<Seq<char>>, first: Stone)
    requires
        good(st, first),
        forall|i: int| 0 <= i < ns.len() ==> laws::node_canonical(#[trigger] ns[i]),
    ensures
        good(load::after_nodes(st, ns, label).0, first),
    decreases ns.len(),
{
    if ns.len() > 0 {
        lemma_node_good(st, ns[0], label, first);
        let (next, on) = load::after_node(st, ns[0], label);
        if on {
            lemma_nodes_good(next, ns.skip(1), label, first);
        }
    }
}

proof fn lemma_tree_good(
    st: LoadView,
    t: TreeView,
    label: Option<Seq<char>>,
    skip_first: bool,
    first: Stone,
)
    requires
        good(st, first),
        laws::canonical(t),
    ensures
        good(load::after_tree(st, t, label, skip_first), first),
    decreases t, 0int,
{
    let ns = if skip_first && t.nodes.len() > 0 {
        t.nodes.skip(1)
    } else {
        t.nodes
    };
    assert forall|i: int| 0 <= i < ns.len() implies laws::node_canonical(#[trigger] ns[i]) by {
        assert(ns[i] == t.nodes[if skip_first {
            i + 1
        } else {
            i
        }]);
    }
    lemma_nodes_good(st, ns, label, first);
    let (next, on) = load::after_nodes(st, ns, label);
    if on {
        lemma_children_good(next, t.children, 0, next.board.current, label, first);
    }
}

proof fn lemma_children_good(
    st: LoadView,
    ts: Seq<TreeView>,
    i: nat,
    fork: usize,
    label: Option<Seq<char>>,
    first: Stone,
)
    requires
        good(st, first),
        forall|k: int| 0 <= k < ts.len() ==> laws::canonical(#[trigger] ts[k]),
    ensures
        good(load::after_children(st, ts, i, fork, label), first),
    decreases ts, 1int,
{
    if ts.len() > 0 {
        let back = load::back_to(st, fork);
        let name = load::child_label(label, (back.board.here().depth + 1) as nat, i);
        assert(good(back, first));
        lemma_tree_good(back, ts[0], name, false, first);
        lemma_children_good(
            load::after_tree(back, ts[0], name, false),
            ts.skip(1),
            i + 1,
            fork,
            label,
            first,
        );
    }
}

proof fn lemma_replayed_first(b: BoardView, ns: Seq<NodeView>)
    ensures
        load::replayed(b, ns).root_to_play == b.root_to_play,
    decreases ns.len(),
{
    if ns.len() > 0 {
        match load::played_node(b, ns[0]) {
            Ok(Some(next)) => {
                lemma_replayed_first(next, ns.skip(1));
            },
            Ok(None) => {
                lemma_replayed_first(b, ns.skip(1));
            },
            Err(_) => {},
        }
    }
}

/// Whether it is known of a board who moves first once it is saved with what is known of its
/// game: it holds a move, the record names a side, or the side is the usual one.
pub open spec fn first_known(l: LoadedView) -> bool {
    ||| l.board.nodes[0].children.len() > 0
    ||| l.meta.info.initial_player is Some
    ||| l.board.root_to_play == save::usual_first(l.board)
}

/// A record that was loaded can be saved, unless it is without a move and without a side to move
/// first, and its stones were all removed again.
pub proof fn law_loaded_is_savable(source: Seq<char>, bytes: Seq<u8>, l: LoadedView)
    requires
        load::loaded(source, bytes) == Ok::<LoadedView, load::LoadErrorView>(l),
        l.board.wf(),
        first_known(l),
    ensures
        keeping::savable(l.board, Some(l.meta)),
{
    let s = super::decoded(bytes)->Ok_0;
    let t = model::parsed(s)->Ok_0;
    laws::law_read_is_canonical(s);
    let root = t.nodes[0];
    let b = load::start_board(t)->Ok_0;
    let first = b.root_to_play;
    let start = load::start_state(b, root);
    assert(laws::node_canonical(root));
    assert forall|sig: u64, i: int|
        start.extras.contains_key(sig) && 0 <= i < start.extras[sig].len() implies keeping::can_keep(
        #[trigger] start.extras[sig][i],
    ) by {
        lemma_kept(root.props, i);
    }
    lemma_tree_good(start, t, None, true, first);
    let st = load::after_tree(start, t, None, true);
    lemma_replayed_first(load::rewound(st.board), super::tree::main_nodes(t).skip(1));
    assert(l.board.root_to_play == first);
    let meta = Some(l.meta);
    assert forall|sig: u64, i: int|
        0 <= i < save::extras_for(meta, sig).len() implies keeping::can_keep(
        #[trigger] save::extras_for(meta, sig)[i],
    ) by {
        assert(keeping::can_keep(st.extras[sig][i]));
    }
    lemma_first(l, t);
    match root.text("KM"@) {
        Some(v) => {
            number::law_shown_is_stable(text::trimmed(v));
        },
        None => {},
    }
}

/// Who moves first reads back as it is on the board.
proof fn lemma_first(l: LoadedView, t: TreeView)
    requires
        l.board.wf(),
        load::start_board(t) is Ok,
        l.board.root_to_play == load::start_board(t)->Ok_0.root_to_play,
        l.meta.info == info::info_in(t.nodes[0]),
        first_known(l),
    ensures
        save::first_player(l.board, Some(l.meta)) == l.board.root_to_play,
{
    let b = l.board;
    let kids = b.nodes[0].children;
    if kids.len() > 0 {
        assert(game::child_of(b.nodes, kids[0], 0));
        assert(game::step_ok(b.size, b.root_to_play, b.nodes, kids[0] as int));
    }
}

// ---- where comments and properties belong ----

/// Whether every comment and every property belongs to a position, the comments have no white
/// space around them, and the starting position has the comment `root` if it has none from a
/// position with the same signature.
spec fn placed(st: LoadView, root: Option<Seq<char>>) -> bool {
    &&& st.board.wf()
    &&& forall|s: u64| #[trigger]
        st.comments.contains_key(s) ==> {
            &&& keeping::read_comment(Some(st.comments[s])) == Some(st.comments[s])
            &&& keeping::has_position(st.board, s) || (s == load::SIG_INIT && root == Some(
                st.comments[s],
            ))
        }
    &&& root is Some ==> st.comments.contains_key(load::SIG_INIT)
    &&& forall|s: u64| #[trigger]
        st.extras.contains_key(s) ==> {
            &&& st.extras[s].len() > 0
            &&& keeping::has_position(st.board, s) || s == load::SIG_INIT
        }
}

proof fn lemma_position_stays(a: BoardView, b: BoardView, sig: u64)
    requires
        a.wf(),
        b.wf(),
        board::laws::extends(a, b),
        keeping::has_position(a, sig),
    ensures
        keeping::has_position(b, sig),
{
    let id = choose|id: usize|
        0 < id < a.nodes.len() && #[trigger] keeping::sig_at(a, id) == sig;
    board::laws::lemma_extends_path(a, b, id);
    assert(keeping::sig_at(b, id) == sig);
}

/// A state with nothing new but moves and positions.
proof fn lemma_board_extended(st: LoadView, next: LoadView, root: Option<Seq<char>>)
    requires
        placed(st, root),
        next.board.wf(),
        board::laws::extends(st.board, next.board),
        next.comments == st.comments,
        next.extras == st.extras,
    ensures
        placed(next, root),
{
    assert forall|s: u64| #[trigger] next.comments.contains_key(s) implies keeping::has_position(
        next.board,
        s,
    ) || (s == load::SIG_INIT && root == Some(next.comments[s])) by {
        assert(st.comments.contains_key(s));
        if keeping::has_position(st.board, s) {
            lemma_position_stays(st.board, next.board, s);
        }
    }
    assert forall|s: u64| #[trigger] next.extras.contains_key(s) implies keeping::has_position(
        next.board,
        s,
    ) || s == load::SIG_INIT by {
        assert(st.extras.contains_key(s));
        if keeping::has_position(st.board, s) {
            lemma_position_stays(st.board, next.board, s);
        }
    }
}

proof fn lemma_text_trimmed(n: NodeView, ident: Seq<char>)
    ensures
        keeping::read_comment(info::text_in(n, ident)) == info::text_in(n, ident),
{
    if let Some(v) = n.text(ident) {
        text::lemma_trimmed_ends(v);
        text::lemma_trimmed_id(text::trimmed(v));
    }
}

proof fn lemma_played_extends(b: BoardView, n: NodeView)
    requires
        b.wf(),
    ensures
        load::played_node(b, n) matches Ok(Some(w)) ==> w.nodes.len() >= b.nodes.len() && (
        w.nodes.len() <= usize::MAX ==> w.wf() && board::laws::extends(b, w) && w.current != 0),
{
    if let Ok(Some((stone, action))) = super::tree::move_in(b.size, n.props) {
        match action {
            Action::Place(at) => {
                board::laws::law_moves_add(b, at);
            },
            Action::Pass => {
                board::laws::law_moves_add(b, Coord::at(0, 0));
            },
        }
    }
    lemma_wf_ranged(b);
    lemma_played_grows(b, n);
}

/// Whether the cursor and all children are nodes that there are.
spec fn ranged(b: BoardView) -> bool {
    &&& b.current < b.nodes.len()
    &&& forall|i: int, k: int|
        0 <= i < b.nodes.len() && 0 <= k < b.nodes[i].children.len() ==> (
        #[trigger] b.nodes[i].children[k]) < b.nodes.len()
}

proof fn lemma_wf_ranged(b: BoardView)
    requires
        b.wf(),
    ensures
        ranged(b),
{
    assert forall|i: int, k: int|
        0 <= i < b.nodes.len() && 0 <= k < b.nodes[i].children.len() implies (
    #[trigger] b.nodes[i].children[k]) < b.nodes.len() by {
        assert(game::child_of(b.nodes, b.nodes[i].children[k], i));
    }
}

proof fn lemma_entered_grows(b: BoardView, r: RecordView, grid: Seq<Option<Stone>>)
    requires
        ranged(b),
    ensures
        ranged(b.entered(r, grid)),
        b.entered(r, grid).nodes.len() >= b.nodes.len(),
{
    let w = b.entered(r, grid);
    if game::has_child_with(b.nodes, b.current, r.action) {
        let k = choose|k: int| #[trigger] game::child_is(b.nodes, b.current, r.action, k);
        let i = game::child_with(b.nodes, b.current, r.action);
        assert(0 <= k < b.here().children.len());
        assert(i < b.here().children.len());
        assert(b.nodes[b.current as int].children[i as int] < b.nodes.len());
        let s = b.choosing(i);
        assert forall|x: int, y: int|
            0 <= x < w.nodes.len() && 0 <= y < w.nodes[x].children.len() implies (
        #[trigger] w.nodes[x].children[y]) < w.nodes.len() by {
            assert(w.nodes[x].children == s.nodes[x].children);
            assert(s.nodes[x].children == b.nodes[x].children);
            assert(b.nodes[x].children[y] < b.nodes.len());
        }
    } else {
        let g = game::grown(b.nodes, b.current, r, grid);
        assert forall|x: int, y: int|
            0 <= x < w.nodes.len() && 0 <= y < w.nodes[x].children.len() implies (
        #[trigger] w.nodes[x].children[y]) < w.nodes.len() by {
            assert(w.nodes[x].children == g[x].children);
            if x < b.nodes.len() && y < b.nodes[x].children.len() {
                assert(b.nodes[x].children[y] < b.nodes.len());
            }
        }
    }
}

/// Playing the move of a node takes no node away.
proof fn lemma_played_grows(b: BoardView, n: NodeView)
    requires
        ranged(b),
    ensures
        load::played_node(b, n) matches Ok(Some(w)) ==> ranged(w) && w.nodes.len()
            >= b.nodes.len(),
{
    if let Ok(Some((stone, action))) = super::tree::move_in(b.size, n.props) {
        match action {
            Action::Place(at) => {
                if let Ok((grid, gone)) = b.tried(at) {
                    lemma_entered_grows(
                        b,
                        RecordView {
                            player: b.to_play(),
                            action: Action::Place(at),
                            captured: gone,
                        },
                        grid,
                    );
                }
            },
            Action::Pass => {
                lemma_entered_grows(
                    b,
                    RecordView {
                        player: b.to_play(),
                        action: Action::Pass,
                        captured: Set::<Coord>::empty(),
                    },
                    b.here().grid,
                );
            },
        }
    }
}

proof fn lemma_back_ranged(st: LoadView, fork: usize)
    requires
        ranged(st.board),
    ensures
        ranged(load::back_to(st, fork).board),
        load::back_to(st, fork).board.nodes.len() == st.board.nodes.len(),
{
    let b = st.board;
    let w = load::back_to(st, fork).board;
    assert forall|x: int, y: int|
        0 <= x < w.nodes.len() && 0 <= y < w.nodes[x].children.len() implies (
    #[trigger] w.nodes[x].children[y]) < w.nodes.len() by {
        assert(w.nodes[x].children == b.nodes[x].children);
        assert(b.nodes[x].children[y] < b.nodes.len());
    }
}

proof fn lemma_node_placed(st: LoadView, n: NodeView, label: Option<Seq<char>>, root: Option<Seq<char>>)
    requires
        placed(st, root),
        load::after_node(st, n, label).0.board.nodes.len() <= usize::MAX,
    ensures
        placed(load::after_node(st, n, label).0, root),
        board::laws::extends(st.board, load::after_node(st, n, label).0.board),
{
    let next = load::after_node(st, n, label).0;
    lemma_played_extends(st.board, n);
    lemma_text_trimmed(n, "C"@);
    if let Ok(Some(w)) = load::played_node(st.board, n) {
        let mid = LoadView { board: w, ..st };
        lemma_board_extended(st, mid, root);
        let sig = load::sig_here(w);
        assert(keeping::sig_at(w, w.current) == sig);
        assert(keeping::has_position(w, sig));
        assert forall|s: u64| #[trigger] next.comments.contains_key(s) implies keeping::read_comment(
            Some(next.comments[s]),
        ) == Some(next.comments[s]) && (keeping::has_position(w, s) || (s == load::SIG_INIT && root
            == Some(next.comments[s]))) by {
            if s != sig || info::text_in(n, "C"@) is None {
                assert(mid.comments.contains_key(s));
            }
        }
        assert forall|s: u64| #[trigger] next.extras.contains_key(s) implies next.extras[s].len()
            > 0 && (keeping::has_position(w, s) || s == load::SIG_INIT) by {
            if s != sig || load::kept_props(n.props).len() == 0 {
                assert(mid.extras.contains_key(s));
            }
        }
    } else {
        lemma_board_extended(st, next, root);
    }
}

proof fn lemma_nodes_grow(st: LoadView, ns: Seq<NodeView>, label: Option<Seq<char>>)
    requires
        ranged(st.board),
    ensures
        ranged(load::after_nodes(st, ns, label).0.board),
        load::after_nodes(st, ns, label).0.board.nodes.len() >= st.board.nodes.len(),
    decreases ns.len(),
{
    if ns.len() > 0 {
        lemma_played_grows(st.board, ns[0]);
        lemma_nodes_grow(load::after_node(st, ns[0], label).0, ns.skip(1), label);
    }
}

proof fn lemma_tree_grows(st: LoadView, t: TreeView, label: Option<Seq<char>>, skip_first: bool)
    requires
        ranged(st.board),
    ensures
        ranged(load::after_tree(st, t, label, skip_first).board),
        load::after_tree(st, t, label, skip_first).board.nodes.len() >= st.board.nodes.len(),
    decreases t, 0int,
{
    let ns = if skip_first && t.nodes.len() > 0 {
        t.nodes.skip(1)
    } else {
        t.nodes
    };
    lemma_nodes_grow(st, ns, label);
    let (next, on) = load::after_nodes(st, ns, label);
    if on {
        lemma_children_grow(next, t.children, 0, next.board.current, label);
    }
}

proof fn lemma_children_grow(
    st: LoadView,
    ts: Seq<TreeView>,
    i: nat,
    fork: usize,
    label: Option<Seq<char>>,
)
    requires
        ranged(st.board),
    ensures
        ranged(load::after_children(st, ts, i, fork, label).board),
        load::after_children(st, ts, i, fork, label).board.nodes.len() >= st.board.nodes.len(),
    decreases ts, 1int,
{
    if ts.len() > 0 {
        let back = load::back_to(st, fork);
        let name = load::child_label(label, (back.board.here().depth + 1) as nat, i);
        lemma_back_ranged(st, fork);
        lemma_tree_grows(back, ts[0], name, false);
        lemma_children_grow(
            load::after_tree(back, ts[0], name, false),
            ts.skip(1),
            i + 1,
            fork,
            label,
        );
    }
}

proof fn lemma_nodes_placed(
    st: LoadView,
    ns: Seq<NodeView>,
    label: Option<Seq<char>>,
    root: Option<Seq<char>>,
)
    requires
        placed(st, root),
        load::after_nodes(st, ns, label).0.board.nodes.len() <= usize::MAX,
    ensures
        placed(load::after_nodes(st, ns, label).0, root),
        board::laws::extends(st.board, load::after_nodes(st, ns, label).0.board),
    decreases ns.len(),
{
    if ns.len() > 0 {
        let (next, on) = load::after_node(st, ns[0], label);
        lemma_wf_ranged(st.board);
        lemma_played_grows(st.board, ns[0]);
        lemma_nodes_grow(next, ns.skip(1), label);
        lemma_node_placed(st, ns[0], label, root);
        let end = load::after_nodes(st, ns, label).0;
        if on {
            lemma_nodes_placed(next, ns.skip(1), label, root);
            board::laws::lemma_extends_trans(st.board, next.board, end.board);
        } else {
            lemma_board_extended(next, end, root);
        }
    }
}

proof fn lemma_tree_placed(
    st: LoadView,
    t: TreeView,
    label: Option<Seq<char>>,
    skip_first: bool,
    root: Option<Seq<char>>,
)
    requires
        placed(st, root),
        load::after_tree(st, t, label, skip_first).board.nodes.len() <= usize::MAX,
    ensures
        placed(load::after_tree(st, t, label, skip_first), root),
        board::laws::extends(st.board, load::after_tree(st, t, label, skip_first).board),
    decreases t, 0int,
{
    let ns = if skip_first && t.nodes.len() > 0 {
        t.nodes.skip(1)
    } else {
        t.nodes
    };
    let (next, on) = load::after_nodes(st, ns, label);
    let end = load::after_tree(st, t, label, skip_first);
    lemma_wf_ranged(st.board);
    lemma_nodes_grow(st, ns, label);
    if on {
        lemma_children_grow(next, t.children, 0, next.board.current, label);
        lemma_nodes_placed(st, ns, label, root);
        lemma_children_placed(next, t.children, 0, next.board.current, label, root);
        board::laws::lemma_extends_trans(st.board, next.board, end.board);
    } else {
        lemma_nodes_placed(st, ns, label, root);
        lemma_board_extended(next, end, root);
    }
}

proof fn lemma_children_placed(
    st: LoadView,
    ts: Seq<TreeView>,
    i: nat,
    fork: usize,
    label: Option<Seq<char>>,
    root: Option<Seq<char>>,
)
    requires
        placed(st, root),
        load::after_children(st, ts, i, fork, label).board.nodes.len() <= usize::MAX,
    ensures
        placed(load::after_children(st, ts, i, fork, label), root),
        board::laws::extends(st.board, load::after_children(st, ts, i, fork, label).board),
    decreases ts, 1int,
{
    if ts.len() > 0 {
        let back = load::back_to(st, fork);
        let name = load::child_label(label, (back.board.here().depth + 1) as nat, i);
        let mid = load::after_tree(back, ts[0], name, false);
        let end = load::after_children(st, ts, i, fork, label);
        if fork < st.board.nodes.len() {
            board::laws::law_jumps_keep(st.board, fork);
        }
        lemma_board_extended(st, back, root);
        lemma_wf_ranged(back.board);
        lemma_tree_grows(back, ts[0], name, false);
        lemma_children_grow(mid, ts.skip(1), i + 1, fork, label);
        lemma_tree_placed(back, ts[0], name, false, root);
        lemma_children_placed(mid, ts.skip(1), i + 1, fork, label, root);
        board::laws::lemma_extends_trans(st.board, back.board, mid.board);
        board::laws::lemma_extends_trans(st.board, mid.board, end.board);
    }
}

proof fn lemma_replayed_grows(b: BoardView, ns: Seq<NodeView>)
    requires
        ranged(b),
    ensures
        ranged(load::replayed(b, ns)),
        load::replayed(b, ns).nodes.len() >= b.nodes.len(),
    decreases ns.len(),
{
    if ns.len() > 0 {
        lemma_played_grows(b, ns[0]);
        match load::played_node(b, ns[0]) {
            Ok(Some(next)) => {
                lemma_replayed_grows(next, ns.skip(1));
            },
            Ok(None) => {
                lemma_replayed_grows(b, ns.skip(1));
            },
            Err(_) => {},
        }
    }
}

proof fn lemma_replayed_extends(b: BoardView, ns: Seq<NodeView>)
    requires
        b.wf(),
        load::replayed(b, ns).nodes.len() <= usize::MAX,
    ensures
        load::replayed(b, ns).wf(),
        board::laws::extends(b, load::replayed(b, ns)),
    decreases ns.len(),
{
    if ns.len() > 0 {
        lemma_played_extends(b, ns[0]);
        lemma_wf_ranged(b);
        lemma_played_grows(b, ns[0]);
        match load::played_node(b, ns[0]) {
            Ok(Some(next)) => {
                lemma_replayed_grows(next, ns.skip(1));
                lemma_replayed_extends(next, ns.skip(1));
                board::laws::lemma_extends_trans(b, next, load::replayed(b, ns));
            },
            Ok(None) => {
                lemma_replayed_extends(b, ns.skip(1));
            },
            Err(_) => {},
        }
    }
}

/// What loading keeps belongs to the positions of the board it gives, which starts as the record
/// says.
proof fn lemma_loaded_placed(source: Seq<char>, t: TreeView, l: LoadedView)
    requires
        load::loaded_tree(source, t) == Ok::<LoadedView, load::LoadErrorView>(l),
        l.board.wf(),
    ensures
        placed(load::loaded_state(load::start_board(t)->Ok_0, t), info::text_in(t.nodes[0], "C"@)),
        board::laws::extends(load::start_board(t)->Ok_0, l.board),
{
    let b = load::start_board(t)->Ok_0;
    let root = t.nodes[0];
    let told = info::text_in(root, "C"@);
    let start = load::start_state(b, root);
    lemma_start_wf(t);
    lemma_text_trimmed(root, "C"@);
    assert(placed(start, told));
    let st = load::after_tree(start, t, None, true);
    let main = super::tree::main_nodes(t).skip(1);
    let back = load::rewound(st.board);
    let line = load::replayed(back, main);
    lemma_wf_ranged(b);
    lemma_tree_grows(start, t, None, true);
    lemma_rewound_ranged(st.board);
    lemma_replayed_grows(back, main);
    lemma_tree_placed(start, t, None, true, told);
    board::laws::law_jumps_keep(st.board, 0);
    lemma_replayed_extends(back, main);
    board::laws::law_jumps_keep(line, 0);
    board::laws::lemma_extends_trans(st.board, back, line);
    board::laws::lemma_extends_trans(st.board, line, l.board);
    board::laws::lemma_extends_trans(b, st.board, l.board);
    lemma_board_extended(st, load::loaded_state(b, t), told);
}

proof fn lemma_rewound_ranged(b: BoardView)
    requires
        ranged(b),
    ensures
        ranged(load::rewound(b)),
        load::rewound(b).nodes.len() == b.nodes.len(),
{
    let w = load::rewound(b);
    assert forall|x: int, y: int|
        0 <= x < w.nodes.len() && 0 <= y < w.nodes[x].children.len() implies (
    #[trigger] w.nodes[x].children[y]) < w.nodes.len() by {
        assert(w.nodes[x].children == b.nodes[x].children);
        assert(b.nodes[x].children[y] < b.nodes.len());
    }
}

/// The board that a record starts with is well-formed.
proof fn lemma_start_wf(t: TreeView)
    requires
        info::info_error(t) is None,
        load::start_board(t) is Ok,
    ensures
        load::start_board(t)->Ok_0.wf(),
{
    let b = load::start_board(t)->Ok_0;
    let what = info::info_in(t.nodes[0]);
    coord::lemma_side_of(info::size_in(t.nodes[0])->Ok_0);
    assert(b.size == what.size);
    assert(b.nodes[0].grid.len() == b.size.points());
    assert(game::line_at(b.nodes, 0) == Some(0usize));
}

/// Whether a record says nothing of stones removed before the first move.
pub open spec fn removes_none(bytes: Seq<u8>) -> bool {
    match super::decoded(bytes) {
        Ok(s) => match model::parsed(s) {
            Ok(t) => t.nodes[0].get("AE"@) is None,
            Err(_) => false,
        },
        Err(_) => false,
    }
}

/// Who moves first is known of every record that removes no stones before the first move.
pub proof fn law_first_known(source: Seq<char>, bytes: Seq<u8>, l: LoadedView)
    requires
        load::loaded(source, bytes) == Ok::<LoadedView, load::LoadErrorView>(l),
        l.board.wf(),
        removes_none(bytes),
    ensures
        first_known(l),
{
    let t = model::parsed(super::decoded(bytes)->Ok_0)->Ok_0;
    let root = t.nodes[0];
    let what = info::info_in(root);
    lemma_loaded_placed(source, t, l);
    let b = load::start_board(t)->Ok_0;
    let black = super::tree::node_points(what.size, root, "AB"@)->Ok_0;
    let white = super::tree::node_points(what.size, root, "AW"@)->Ok_0;
    let removed = super::tree::node_points(what.size, root, "AE"@)->Ok_0;
    assert(removed.len() == 0);
    assert(b.nodes[0].grid == l.board.nodes[0].grid);
    heading::lemma_setup_seen(l.board, black, white, removed);
}

/// A record that was loaded and saved untouched loads as the same game: the same size, side to
/// begin and tree of moves and positions, the same information, and at every position, the
/// starting position among them, the same comment and the same kept properties. Only the sign of a komi
/// of zero is lost.
pub proof fn law_load_save_load(source: Seq<char>, bytes: Seq<u8>, l: LoadedView, path: Seq<char>)
    requires
        load::loaded(source, bytes) == Ok::<LoadedView, load::LoadErrorView>(l),
        l.board.wf(),
        first_known(l) || removes_none(bytes),
    ensures
        ({
            let saved = save::saved_tree(l.board, Some(l.meta));
            let again = load::loaded(path, vstd::utf8::encode_utf8(model::written(saved)));
            again matches Ok(m) && {
                &&& copies::same_game(m.board, l.board)
                &&& m.board.current == 0
                &&& m.meta.comments == l.meta.comments
                &&& m.meta.extras == l.meta.extras
                &&& load::total_props(m.meta.extras) == load::total_props(l.meta.extras)
                &&& m.meta.info == heading::told(l.board, Some(l.meta))
                &&& m.meta.info.komi == l.meta.info.komi || l.meta.info.komi == Some("-0"@)
                &&& m.meta.info.root_comment == l.meta.info.root_comment
                &&& m.warning is None
                &&& !m.partial
                &&& m.unplaced_props == 0
                &&& m.dropped_comments == 0
            }
        }),
{
    let meta = Some(l.meta);
    if removes_none(bytes) {
        law_first_known(source, bytes, l);
    }
    law_loaded_is_savable(source, bytes, l);
    keeping::law_save_then_load(path, l.board, meta);
    keeping::law_saved_bytes_load(path, l.board, meta);
    let m = load::loaded_tree(path, save::saved_tree(l.board, meta))->Ok_0;
    let t = model::parsed(super::decoded(bytes)->Ok_0)->Ok_0;
    let root = t.nodes[0];
    let told = info::text_in(root, "C"@);
    lemma_loaded_placed(source, t, l);
    lemma_text_trimmed(root, "C"@);
    let st = load::loaded_state(load::start_board(t)->Ok_0, t);
    reveal(info::komi_text);
    if let Some(k) = root.text("KM"@) {
        number::law_shown_is_stable(text::trimmed(k));
    }
    assert(placed(st, told));
    lemma_comments_again(l.board, l.meta, m.meta, st, told);
    assert forall|s: u64| #[trigger] m.meta.extras.contains_key(s) implies m.meta.extras[s].len()
        > 0 by {
        lemma_again_some(path, l, m, s);
    }
    lemma_extras_again(l.board, l.meta, m.meta, st, told);
}

/// Comments that belong to positions come back.
proof fn lemma_comments_again(
    b: BoardView,
    had: MetaView,
    kept: MetaView,
    st: LoadView,
    root: Option<Seq<char>>,
)
    requires
        placed(st, root),
        st.board == b,
        st.comments == had.comments,
        had.info.root_comment == root,
        keeping::read_comment(root) == root,
        keeping::same_notes(kept, b, Some(had)),
    ensures
        kept.comments == had.comments,
{
    let meta = Some(had);
    assert forall|s: u64| #![trigger kept.comments.contains_key(s)] kept.comments.contains_key(s)
        == had.comments.contains_key(s) && (had.comments.contains_key(s) ==> kept.comments[s]
        == had.comments[s]) by {
        if had.comments.contains_key(s) {
            assert(st.comments.contains_key(s));
        }
        if s == load::SIG_INIT {
            assert(save::comment_for(Some(kept), s) == keeping::start_comment(b, meta));
        } else if had.comments.contains_key(s) {
            let id = choose|id: usize|
                0 < id < b.nodes.len() && #[trigger] keeping::sig_at(b, id) == s;
            assert(keeping::sig_at(b, id) != load::SIG_INIT);
        }
    }
    assert(kept.comments =~= had.comments);
}

/// Kept properties that belong to positions come back.
proof fn lemma_extras_again(
    b: BoardView,
    had: MetaView,
    kept: MetaView,
    st: LoadView,
    root: Option<Seq<char>>,
)
    requires
        placed(st, root),
        st.board == b,
        st.extras == had.extras,
        keeping::same_notes(kept, b, Some(had)),
        forall|s: u64| #[trigger] kept.extras.contains_key(s) ==> kept.extras[s].len() > 0,
    ensures
        kept.extras == had.extras,
{
    let meta = Some(had);
    assert forall|s: u64| #![trigger kept.extras.contains_key(s)] kept.extras.contains_key(s)
        == had.extras.contains_key(s) && (had.extras.contains_key(s) ==> kept.extras[s]
        == had.extras[s]) by {
        if had.extras.contains_key(s) {
            assert(st.extras.contains_key(s));
            if s == load::SIG_INIT {
                assert(save::extras_for(Some(kept), s) == save::extras_for(meta, s));
            } else {
                let id = choose|id: usize|
                    0 < id < b.nodes.len() && #[trigger] keeping::sig_at(b, id) == s;
                assert(keeping::sig_at(b, id) != load::SIG_INIT);
            }
        }
    }
    assert(kept.extras =~= had.extras);
}

/// A property list that was loaded again is not empty.
proof fn lemma_again_some(path: Seq<char>, l: LoadedView, m: LoadedView, s: u64)
    requires
        load::loaded_tree(path, save::saved_tree(l.board, Some(l.meta))) == Ok::<
            LoadedView,
            load::LoadErrorView,
        >(m),
        m.board.nodes.len() <= usize::MAX,
        m.board.wf(),
        m.meta.extras.contains_key(s),
    ensures
        m.meta.extras[s].len() > 0,
{
    let t = save::saved_tree(l.board, Some(l.meta));
    lemma_loaded_placed(path, t, m);
    assert(load::loaded_state(load::start_board(t)->Ok_0, t).extras.contains_key(s));
}

} // verus!
