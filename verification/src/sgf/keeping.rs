//! What saving and loading keep: a board that is saved and loaded again holds the same game, with
//! its comments and properties.

use vstd::prelude::*;
use super::error::ErrorView;
use super::heading;
use super::info;
use super::laws;
use super::load::{self, LoadView, MetaView, SIG_INIT};
use super::model::{self, NodeView, PropView, TreeView};
use super::save;
use super::tree;
use crate::board::{self, copies, coord, Action, BoardView, RecordView, Size, Stone};
use crate::text;

verus! {

/// What reading gives of a comment: it without white space around it, where anything is left.
pub open spec fn read_comment(c: Option<Seq<char>>) -> Option<Seq<char>> {
    match c {
        Some(c) if text::trimmed(c).len() > 0 => Some(text::trimmed(c)),
        _ => None,
    }
}

/// Whether a property can be kept beside the ones that saving writes: reading can give it, and
/// saving does not write one of its name.
pub open spec fn can_keep(p: PropView) -> bool {
    !load::owned_by_save(p.ident) && laws::prop_canonical(p)
}

/// Whether all properties that are kept can be.
pub open spec fn extras_clean(meta: Option<MetaView>) -> bool {
    forall|sig: u64, i: int|
        0 <= i < save::extras_for(meta, sig).len() ==> can_keep(
            #[trigger] save::extras_for(meta, sig)[i],
        )
}

/// The signature of the position at a node.
pub open spec fn sig_at(b: BoardView, id: usize) -> u64 {
    load::sig_of(board::model::path_records(b.nodes, id))
}

// ---- reading one node ----

pub(crate) proof fn lemma_kept_append(a: Seq<PropView>, b: Seq<PropView>)
    ensures
        load::kept_props(a + b) == load::kept_props(a) + load::kept_props(b),
    decreases b.len(),
{
    if b.len() == 0 {
        assert(a + b =~= a);
        assert(load::kept_props(a) + load::kept_props(b) =~= load::kept_props(a));
    } else {
        lemma_kept_append(a, b.drop_last());
        assert((a + b).drop_last() =~= a + b.drop_last());
        assert((a + b).last() == b.last());
        assert(load::kept_props(a + b) =~= load::kept_props(a) + load::kept_props(b));
    }
}

proof fn lemma_kept_all(ps: Seq<PropView>)
    requires
        forall|i: int| 0 <= i < ps.len() ==> !load::owned_by_save((#[trigger] ps[i]).ident),
    ensures
        load::kept_props(ps) == ps,
    decreases ps.len(),
{
    if ps.len() > 0 {
        lemma_kept_all(ps.drop_last());
        assert(!load::owned_by_save(ps[ps.len() - 1].ident));
        assert(ps.drop_last().push(ps.last()) =~= ps);
    }
}

pub(crate) proof fn lemma_kept_none(ps: Seq<PropView>)
    requires
        forall|i: int| 0 <= i < ps.len() ==> load::owned_by_save((#[trigger] ps[i]).ident),
    ensures
        load::kept_props(ps) == Seq::<PropView>::empty(),
    decreases ps.len(),
{
    if ps.len() > 0 {
        lemma_kept_none(ps.drop_last());
        assert(load::owned_by_save(ps[ps.len() - 1].ident));
    }
}

/// Properties of other names do not matter to the search for a name.
proof fn lemma_index_skip(a: Seq<PropView>, b: Seq<PropView>, ident: Seq<char>)
    requires
        forall|i: int| 0 <= i < a.len() ==> (#[trigger] a[i]).ident != ident,
    ensures
        tree::prop_index(a + b, ident) == a.len() + tree::prop_index(b, ident),
    decreases a.len(),
{
    if a.len() == 0 {
        assert(a + b =~= b);
    } else {
        assert((a + b)[0] == a[0]);
        assert(a[0].ident != ident);
        assert((a + b).skip(1) =~= a.skip(1) + b);
        assert forall|i: int| 0 <= i < a.skip(1).len() implies (#[trigger] a.skip(1)[i]).ident
            != ident by {
            assert(a.skip(1)[i] == a[i + 1]);
        }
        lemma_index_skip(a.skip(1), b, ident);
    }
}

proof fn lemma_index_range(ps: Seq<PropView>, ident: Seq<char>)
    ensures
        0 <= tree::prop_index(ps, ident) <= ps.len(),
        tree::prop_index(ps, ident) < ps.len() ==> ps[tree::prop_index(ps, ident)].ident == ident,
    decreases ps.len(),
{
    if ps.len() > 0 && ps[0].ident != ident {
        lemma_index_range(ps.skip(1), ident);
    }
}

/// Where no property has the name, there is none to get.
proof fn lemma_index_none(ps: Seq<PropView>, ident: Seq<char>)
    requires
        forall|i: int| 0 <= i < ps.len() ==> (#[trigger] ps[i]).ident != ident,
    ensures
        tree::prop_index(ps, ident) == ps.len(),
{
    lemma_index_skip(ps, Seq::empty(), ident);
    assert(ps + Seq::<PropView>::empty() =~= ps);
}

/// The names with few letters that are met in every node.
proof fn lemma_short_names()
    ensures
        "B"@ == seq!['B'],
        "W"@ == seq!['W'],
        "C"@ == seq!['C'],
        "AB"@ == seq!['A', 'B'],
        "AW"@ == seq!['A', 'W'],
        "AE"@ == seq!['A', 'E'],
        "B"@[0] == 'B',
        "W"@[0] == 'W',
        "C"@[0] == 'C',
        seq!['B'][0] == 'B',
        seq!['W'][0] == 'W',
        model::upper_text("C"@) == "C"@,
        model::upper_text("AB"@) == "AB"@,
        model::upper_text("AW"@) == "AW"@,
        model::upper_text("AE"@) == "AE"@,
{
    reveal_strlit("B");
    reveal_strlit("W");
    reveal_strlit("C");
    reveal_strlit("AB");
    reveal_strlit("AW");
    reveal_strlit("AE");
    assert("B"@ =~= seq!['B']);
    assert("W"@ =~= seq!['W']);
    assert("C"@ =~= seq!['C']);
    assert("AB"@ =~= seq!['A', 'B']);
    assert("AW"@ =~= seq!['A', 'W']);
    assert("AE"@ =~= seq!['A', 'E']);
    assert(model::upper_text("C"@) =~= "C"@);
    assert(model::upper_text("AB"@) =~= "AB"@);
    assert(model::upper_text("AW"@) =~= "AW"@);
    assert(model::upper_text("AE"@) =~= "AE"@);
}

/// Kept properties have none of the names that saving writes.
pub(crate) proof fn lemma_extras_other(meta: Option<MetaView>, sig: u64, ident: Seq<char>)
    requires
        extras_clean(meta),
        load::owned_by_save(ident),
    ensures
        forall|i: int|
            0 <= i < save::extras_for(meta, sig).len() ==> (#[trigger] save::extras_for(
                meta,
                sig,
            )[i]).ident != ident,
        tree::prop_index(save::extras_for(meta, sig), ident) == save::extras_for(meta, sig).len(),
        load::kept_props(save::extras_for(meta, sig)) == save::extras_for(meta, sig),
{
    let ex = save::extras_for(meta, sig);
    assert forall|i: int| 0 <= i < ex.len() implies (#[trigger] ex[i]).ident != ident by {
        assert(can_keep(save::extras_for(meta, sig)[i]));
    }
    lemma_index_none(ex, ident);
    assert forall|i: int| 0 <= i < ex.len() implies !load::owned_by_save(
        (#[trigger] ex[i]).ident,
    ) by {
        assert(can_keep(save::extras_for(meta, sig)[i]));
    }
    lemma_kept_all(ex);
}

/// What a written move reads as.
proof fn lemma_node_back(size: Size, r: RecordView, sig: u64, meta: Option<MetaView>)
    requires
        size.wf(),
        extras_clean(meta),
        r.action matches Action::Place(at) ==> at.on(size),
    ensures
        ({
            let n = save::move_node(r, sig, meta);
            &&& tree::move_in(size, n.props) == Ok::<
                Option<(Stone, Action)>,
                super::error::ErrorView,
            >(Some((r.player, r.action)))
            &&& load::kept_props(n.props) == save::extras_for(meta, sig)
            &&& info::text_in(n, "C"@) == read_comment(save::comment_for(meta, sig))
            &&& !load::sets_up(n)
        }),
{
    lemma_short_names();
    let n = save::move_node(r, sig, meta);
    let head = seq![save::one_prop(save::side_ident(r.player), save::action_text(r.action))];
    let note = save::text_prop("C"@, save::comment_for(meta, sig));
    let ex = save::extras_for(meta, sig);
    assert(n.props == head + note + ex);
    // the move
    assert(n.props[0] == head[0]);
    match r.action {
        Action::Pass => {},
        Action::Place(at) => {
            coord::law_sgf_round_trip(at, size);
            let v = coord::sgf_text(at);
            assert(v.len() == 2 && v[0] != 't');
        },
    }
    assert(tree::mover_of(n.props[0].ident) == Some(r.player));
    // what is kept
    assert(head + note + ex =~= (head + note) + ex);
    lemma_kept_append(head + note, ex);
    assert forall|i: int| 0 <= i < (head + note).len() implies load::owned_by_save(
        (#[trigger] (head + note)[i]).ident,
    ) by {}
    lemma_kept_none(head + note);
    lemma_extras_other(meta, sig, "C"@);
    assert(Seq::<PropView>::empty() + ex =~= ex);
    // the comment
    assert(head + note + ex =~= head + (note + ex));
    lemma_index_skip(head, note + ex, "C"@);
    match save::comment_for(meta, sig) {
        Some(c) if c.len() > 0 => {
            assert((note + ex)[0].ident == "C"@);
            assert(tree::prop_index(n.props, "C"@) == 1);
            assert(n.props[1] == save::one_prop("C"@, c));
        },
        _ => {
            assert(note + ex =~= ex);
            assert(tree::prop_index(n.props, "C"@) == n.props.len());
            if save::comment_for(meta, sig) is Some {
                text::lemma_trimmed_id(save::comment_for(meta, sig)->0);
            }
        },
    }
    // no stones put down
    assert forall|ident: Seq<char>|
        (ident == "AB"@ || ident == "AW"@ || ident == "AE"@) implies #[trigger] tree::prop_index(
        n.props,
        ident,
    ) == n.props.len() by {
        lemma_extras_other(meta, sig, ident);
        assert forall|i: int| 0 <= i < (head + note).len() implies (#[trigger] (head + note)[i]).ident
            != ident by {
            assert((head + note)[i].ident.len() == 1);
        }
        lemma_index_skip(head + note, ex, ident);
    }
}

// ---- replaying ----

/// Whether the comment and the properties of the position at node `x` have been taken in.
spec fn noted(st: LoadView, b: BoardView, meta: Option<MetaView>, x: usize) -> bool {
    let s = sig_at(b, x);
    &&& x != 0 && read_comment(save::comment_for(meta, s)) is Some ==> st.comments.contains_key(s)
    &&& save::extras_for(meta, s).len() > 0 ==> st.extras.contains_key(s)
}

/// Whether what has been taken in is what was kept.
spec fn notes_true(st: LoadView, meta: Option<MetaView>) -> bool {
    &&& forall|s: u64| #[trigger]
        st.comments.contains_key(s) && s != SIG_INIT ==> read_comment(save::comment_for(meta, s))
            == Some(st.comments[s])
    &&& forall|s: u64| #[trigger]
        st.extras.contains_key(s) ==> save::extras_for(meta, s) == st.extras[s]
}

/// Whether one of the nodes `f` that is not the root has the signature of the starting position.
spec fn start_again(b: BoardView, f: Seq<usize>) -> bool {
    exists|i: int| 0 <= i < f.len() && #[trigger] f[i] != 0 && sig_at(b, f[i]) == SIG_INIT
}

/// The comment of the starting position, of the comments by signature.
spec fn comment_for_start(comments: Map<u64, Seq<char>>) -> Option<Seq<char>> {
    if comments.contains_key(SIG_INIT) {
        Some(comments[SIG_INIT])
    } else {
        None
    }
}

/// Whether the comment of the starting position has been taken in: the root's, or the one of a
/// position with the same signature.
spec fn start_noted(st: LoadView, b: BoardView, meta: Option<MetaView>, f: Seq<usize>) -> bool {
    comment_for_start(st.comments) == if start_again(b, f) && read_comment(
        save::comment_for(meta, SIG_INIT),
    ) is Some {
        read_comment(save::comment_for(meta, SIG_INIT))
    } else {
        read_comment(heading::known(b, meta).root_comment)
    }
}

/// Whether a load is going well: the board is a part of what was saved, nothing was lost.
spec fn going(st: LoadView, b: BoardView, meta: Option<MetaView>, f: Seq<usize>) -> bool {
    &&& copies::is_part(st.board, b, f)
    &&& st.orphans == 0
    &&& st.dropped == 0
    &&& st.warnings.len() == 0
    &&& !st.partial
    &&& notes_true(st, meta)
    &&& start_noted(st, b, meta, f)
    &&& forall|i: int| 0 <= i < f.len() ==> #[trigger] noted(st, b, meta, f[i])
}

/// Reading the next child of the node that the cursor's node copies.
proof fn lemma_next_read(
    st: LoadView,
    b: BoardView,
    meta: Option<MetaView>,
    f: Seq<usize>,
    label: Option<Seq<char>>,
)
    requires
        going(st, b, meta, f),
        extras_clean(meta),
        st.board.here().children.len() < b.nodes[f[st.board.current as int] as int].children.len(),
    ensures
        ({
            let a = st.board;
            let c = b.nodes[f[a.current as int] as int].children[a.here().children.len() as int];
            let r = b.nodes[c as int].record->0;
            let (next, on) = load::after_node(st, save::move_node(r, sig_at(b, c), meta), label);
            let n = next.board;
            &&& on
            &&& going(next, b, meta, f.push(c))
            &&& n.current == a.nodes.len()
            &&& n.nodes.len() == a.nodes.len() + 1
            &&& n.here().children.len() == 0
            &&& forall|i: int|
                0 <= i < a.nodes.len() && i != a.current ==> (#[trigger] n.nodes[i]).children
                    == a.nodes[i].children
            &&& n.nodes[a.current as int].children == a.here().children.push(n.current)
        }),
{
    let a = st.board;
    let c = b.nodes[f[a.current as int] as int].children[a.here().children.len() as int];
    copies::lemma_copy_next(a, b, f);
    let r = b.nodes[c as int].record->0;
    let s = sig_at(b, c);
    let n = save::move_node(r, s, meta);
    assert(board::model::hung(b.nodes, c as int));
    assert(board::model::step_ok(b.size, b.root_to_play, b.nodes, c as int));
    lemma_node_back(b.size, r, s, meta);
    let g = f.push(c);
    let done = copies::after_record(a, r)->0;
    assert(load::played_node(a, n) == Ok::<Option<BoardView>, Seq<char>>(Some(done)));
    let (next, on) = load::after_node(st, n, label);
    assert(next.board == done && on);
    copies::lemma_same_path(done, b, g, done.current as int);
    assert(g[done.current as int] == c);
    assert(load::sig_here(done) == s);
    assert forall|i: int| 0 <= i < g.len() implies #[trigger] noted(next, b, meta, g[i]) by {
        if i < f.len() {
            assert(g[i] == f[i]);
            assert(noted(st, b, meta, f[i]));
        }
    }
    assert(start_noted(next, b, meta, g)) by {
        assert(c != 0);
        assert(start_again(b, g) == (start_again(b, f) || s == SIG_INIT)) by {
            if start_again(b, f) {
                let i = choose|i: int|
                    0 <= i < f.len() && #[trigger] f[i] != 0 && sig_at(b, f[i]) == SIG_INIT;
                assert(g[i] == f[i]);
            }
            if start_again(b, g) {
                let i = choose|i: int|
                    0 <= i < g.len() && #[trigger] g[i] != 0 && sig_at(b, g[i]) == SIG_INIT;
                if i < f.len() {
                    assert(f[i] == g[i]);
                }
            }
            assert(g[f.len() as int] == c);
        }
    }
    assert(notes_true(next, meta)) by {
        assert forall|t: u64| #[trigger]
            next.comments.contains_key(t) && t != SIG_INIT implies read_comment(
            save::comment_for(meta, t),
        ) == Some(next.comments[t]) by {
            if t != s {
                assert(st.comments.contains_key(t));
            } else if read_comment(save::comment_for(meta, s)) is None {
                assert(st.comments.contains_key(t));
            }
        }
        assert forall|t: u64| #[trigger] next.extras.contains_key(t) implies save::extras_for(
            meta,
            t,
        ) == next.extras[t] by {
            if t != s || save::extras_for(meta, s).len() == 0 {
                assert(st.extras.contains_key(t));
            }
        }
    }
}

/// Whether replaying below node `u` has copied new nodes in full and changed nothing but `u`.
spec fn grew_new(
    a: BoardView,
    u: int,
    end: LoadView,
    b: BoardView,
    meta: Option<MetaView>,
    f: Seq<usize>,
    g: Seq<usize>,
) -> bool {
    &&& going(end, b, meta, g)
    &&& f.len() <= g.len()
    &&& f =~= g.take(f.len() as int)
    &&& forall|i: int|
        0 <= i < f.len() && i != u ==> (#[trigger] end.board.nodes[i]).children
            == a.nodes[i].children
    &&& forall|i: int| f.len() <= i < g.len() ==> #[trigger] copies::full_at(end.board, b, g, i)
}

/// Whether it has made a full copy at `u` too.
spec fn grew(
    a: BoardView,
    u: int,
    end: LoadView,
    b: BoardView,
    meta: Option<MetaView>,
    f: Seq<usize>,
    g: Seq<usize>,
) -> bool {
    &&& grew_new(a, u, end, b, meta, f, g)
    &&& copies::full_at(end.board, b, g, u)
}

/// A written branch is its first node and what is written below it.
proof fn lemma_branch_read(
    st: LoadView,
    nodes: Seq<board::NodeView>,
    c: usize,
    sig: u64,
    meta: Option<MetaView>,
    label: Option<Seq<char>>,
)
    requires
        ({
            let h = load::mixed_move(sig, nodes[c as int].record->0);
            load::after_node(st, save::move_node(nodes[c as int].record->0, h, meta), label).1
        }),
    ensures
        ({
            let h = load::mixed_move(sig, nodes[c as int].record->0);
            load::after_tree(st, save::branch(nodes, c, sig, meta), label, false)
                == load::after_tree(
                load::after_node(
                    st,
                    save::move_node(nodes[c as int].record->0, h, meta),
                    label,
                ).0,
                save::below(nodes, c, h, meta),
                label,
                false,
            )
        }),
{
    let r = nodes[c as int].record->0;
    let h = load::mixed_move(sig, r);
    let rest = save::below(nodes, c, h, meta);
    let t = save::branch(nodes, c, sig, meta);
    assert(t.nodes == seq![save::move_node(r, h, meta)] + rest.nodes);
    assert(t.nodes[0] == save::move_node(r, h, meta));
    assert(t.nodes.skip(1) =~= rest.nodes);
}

proof fn lemma_sig_below(b: BoardView, p: usize, k: int)
    requires
        b.wf(),
        p < b.nodes.len(),
        0 <= k < b.nodes[p as int].children.len(),
    ensures
        ({
            let c = b.nodes[p as int].children[k];
            &&& 0 < c < b.nodes.len()
            &&& b.nodes[c as int].depth == b.nodes[p as int].depth + 1
            &&& save::deeper(b.nodes, p, c)
            &&& sig_at(b, c) == load::mixed_move(sig_at(b, p), b.nodes[c as int].record->0)
        }),
{
    let c = b.nodes[p as int].children[k];
    assert(board::model::child_of(b.nodes, b.nodes[p as int].children[k], p as int));
    assert(c != 0);
    assert(board::model::hung(b.nodes, c as int));
    board::tree::lemma_depth_bound(b.size, b.root_to_play, b.nodes, c);
    copies::lemma_path_push(b, c);
    let long = board::model::path_records(b.nodes, c);
    let short = board::model::path_records(b.nodes, p);
    assert(long.drop_last() =~= short);
    assert(long.last() == b.nodes[c as int].record->0);
}

/// Replaying what was written below a node makes a copy of everything below it.
proof fn lemma_below_read(
    st: LoadView,
    b: BoardView,
    meta: Option<MetaView>,
    f: Seq<usize>,
    label: Option<Seq<char>>,
) -> (g: Seq<usize>)
    requires
        going(st, b, meta, f),
        extras_clean(meta),
        st.board.here().children.len() == 0,
    ensures
        ({
            let p = f[st.board.current as int];
            let end = load::after_tree(
                st,
                save::below(b.nodes, p, sig_at(b, p), meta),
                label,
                false,
            );
            grew(st.board, st.board.current as int, end, b, meta, f, g)
        }),
    decreases
            b.nodes.len() - b.nodes[f[st.board.current as int] as int].depth,
            1int,
            0int,
{
    let a = st.board;
    let u = a.current as int;
    let p = f[u];
    assert(copies::copied(a.nodes, b.nodes, f, u));
    let kids = b.nodes[p as int].children;
    let sig = sig_at(b, p);
    let t = save::below(b.nodes, p, sig, meta);
    if kids.len() == 1 {
        lemma_sig_below(b, p, 0);
        let c = kids[0];
        lemma_next_read(st, b, meta, f, label);
        let next = load::after_node(
            st,
            save::move_node(b.nodes[c as int].record->0, sig_at(b, c), meta),
            label,
        ).0;
        lemma_branch_read(st, b.nodes, c, sig, meta, label);
        let f1 = f.push(c);
        assert(f1[next.board.current as int] == c);
        let g = lemma_below_read(next, b, meta, f1, label);
        let end = load::after_tree(st, t, label, false);
        assert(end == load::after_tree(
            next,
            save::below(b.nodes, c, sig_at(b, c), meta),
            label,
            false,
        ));
        assert(f =~= g.take(f.len() as int)) by {
            assert forall|i: int| 0 <= i < f.len() implies f[i] == g.take(f.len() as int)[i] by {
                assert(g.take(f1.len() as int)[i] == f1[i]);
            }
        }
        assert forall|i: int| 0 <= i < f.len() && i != u implies (#[trigger] end.board.nodes[i]).children
            == a.nodes[i].children by {
            assert(next.board.nodes[i].children == a.nodes[i].children);
        }
        assert(g[u] == f[u]) by {
            assert(g.take(f.len() as int)[u] == f[u]);
        }
        assert(end.board.nodes[u].children == next.board.nodes[u].children);
        assert forall|i: int| f.len() <= i < g.len() implies #[trigger] copies::full_at(
            end.board,
            b,
            g,
            i,
        ) by {
            if i == f.len() {
                assert(i == next.board.current);
            }
        }
        g
    } else {
        assert(t.nodes =~= Seq::empty());
        assert(load::after_nodes(st, t.nodes, label) == (st, true));
        assert forall|j: int| 0 <= j < kids.len() implies (#[trigger] t.children[j])
            == save::branch(b.nodes, kids[j], sig, meta) by {
            lemma_sig_below(b, p, j);
        }
        assert(t.children.skip(0) =~= t.children);
        lemma_children_read(st, b, meta, f, u, t.children, 0, label)
    }
}

/// Replaying the variations after a node makes copies of its children.
proof fn lemma_children_read(
    st: LoadView,
    b: BoardView,
    meta: Option<MetaView>,
    f: Seq<usize>,
    u: int,
    ts: Seq<TreeView>,
    k: nat,
    label: Option<Seq<char>>,
) -> (g: Seq<usize>)
    requires
        going(st, b, meta, f),
        extras_clean(meta),
        0 <= u < f.len(),
        st.board.nodes[u].children.len() == k,
        k <= b.nodes[f[u] as int].children.len() == ts.len(),
        forall|j: int|
            0 <= j < ts.len() ==> (#[trigger] ts[j]) == save::branch(
                b.nodes,
                b.nodes[f[u] as int].children[j],
                sig_at(b, f[u]),
                meta,
            ),
    ensures
        grew(
            st.board,
            u,
            load::after_children(st, ts.skip(k as int), k, u as usize, label),
            b,
            meta,
            f,
            g,
        ),
    decreases b.nodes.len() - b.nodes[f[u] as int].depth, 0int, ts.len() - k,
{
    let left = ts.skip(k as int);
    assert(copies::copied(st.board.nodes, b.nodes, f, u));
    if k == ts.len() {
        assert(f =~= f.take(f.len() as int));
        f
    } else {
        let back = load::back_to(st, u as usize);
        let name = load::child_label(label, (back.board.here().depth + 1) as nat, k);
        let mid = load::after_tree(back, ts[k as int], name, false);
        let g1 = lemma_child_read(st, b, meta, f, u, k, name);
        assert(left[0] == ts[k as int]);
        assert(left.skip(1) =~= ts.skip(k as int + 1));
        let g = lemma_children_read(mid, b, meta, g1, u, ts, k + 1, label);
        let end = load::after_children(st, left, k, u as usize, label);
        assert(end == load::after_children(mid, ts.skip(k as int + 1), k + 1, u as usize, label));
        lemma_grew_on(st.board, u, mid, end, b, meta, f, g1, g);
        g
    }
}

/// Replaying the next variation after a node makes a copy of its next child.
proof fn lemma_child_read(
    st: LoadView,
    b: BoardView,
    meta: Option<MetaView>,
    f: Seq<usize>,
    u: int,
    k: nat,
    name: Option<Seq<char>>,
) -> (g: Seq<usize>)
    requires
        going(st, b, meta, f),
        extras_clean(meta),
        0 <= u < f.len(),
        st.board.nodes[u].children.len() == k,
        k < b.nodes[f[u] as int].children.len(),
    ensures
        ({
            let t = save::branch(
                b.nodes,
                b.nodes[f[u] as int].children[k as int],
                sig_at(b, f[u]),
                meta,
            );
            let mid = load::after_tree(load::back_to(st, u as usize), t, name, false);
            &&& grew_new(st.board, u, mid, b, meta, f, g)
            &&& mid.board.nodes[u].children.len() == k + 1
            &&& g[u] == f[u]
        }),
    decreases b.nodes.len() - b.nodes[f[u] as int].depth, 0int, 0int,
{
    let p = f[u];
    assert(copies::copied(st.board.nodes, b.nodes, f, u));
    lemma_sig_below(b, p, k as int);
    let c = b.nodes[p as int].children[k as int];
    let back = load::back_to(st, u as usize);
    lemma_back(st, b, meta, f, u);
    lemma_next_read(back, b, meta, f, name);
    let next = load::after_node(
        back,
        save::move_node(b.nodes[c as int].record->0, sig_at(b, c), meta),
        name,
    ).0;
    lemma_branch_read(back, b.nodes, c, sig_at(b, p), meta, name);
    let f1 = f.push(c);
    assert(f1[next.board.current as int] == c);
    let g = lemma_below_read(next, b, meta, f1, name);
    let mid = load::after_tree(next, save::below(b.nodes, c, sig_at(b, c), meta), name, false);
    let v = next.board.current as int;
    assert(grew(next.board, v, mid, b, meta, f1, g));
    lemma_one_grew(st.board, u, next, mid, b, meta, f, f1, g);
    assert(g.take(f1.len() as int)[u] == f1[u]);
    assert(mid.board.nodes[u].children == next.board.nodes[u].children);
    g
}

/// A new last child copied in full.
proof fn lemma_one_grew(
    a: BoardView,
    u: int,
    next: LoadView,
    mid: LoadView,
    b: BoardView,
    meta: Option<MetaView>,
    f: Seq<usize>,
    f1: Seq<usize>,
    g: Seq<usize>,
)
    requires
        f.len() == a.nodes.len(),
        f1.len() == f.len() + 1,
        f =~= f1.take(f.len() as int),
        forall|i: int|
            0 <= i < f.len() && i != u ==> (#[trigger] next.board.nodes[i]).children
                == a.nodes[i].children,
        grew(next.board, f.len() as int, mid, b, meta, f1, g),
    ensures
        grew_new(a, u, mid, b, meta, f, g),
{
    assert(f =~= g.take(f.len() as int)) by {
        assert forall|i: int| 0 <= i < f.len() implies f[i] == g.take(f.len() as int)[i] by {
            assert(f1.take(f.len() as int)[i] == f[i]);
            assert(g.take(f1.len() as int)[i] == f1[i]);
        }
    }
    assert forall|i: int| 0 <= i < f.len() && i != u implies (#[trigger] mid.board.nodes[i]).children
        == a.nodes[i].children by {
        assert(mid.board.nodes[i].children == next.board.nodes[i].children);
    }
    assert forall|i: int| f.len() <= i < g.len() implies #[trigger] copies::full_at(
        mid.board,
        b,
        g,
        i,
    ) by {
        if i > f.len() {
            assert(f1.len() <= i);
        }
    }
}

/// Going back to the fork keeps a load going.
proof fn lemma_back(st: LoadView, b: BoardView, meta: Option<MetaView>, f: Seq<usize>, u: int)
    requires
        going(st, b, meta, f),
        0 <= u < f.len(),
    ensures
        going(load::back_to(st, u as usize), b, meta, f),
        load::back_to(st, u as usize).board.current == u,
        load::back_to(st, u as usize).board.nodes.len() == st.board.nodes.len(),
        forall|i: int|
            0 <= i < f.len() ==> (#[trigger] load::back_to(st, u as usize).board.nodes[i]).children
                == st.board.nodes[i].children,
{
    let a = st.board;
    let back = load::back_to(st, u as usize);
    assert(u as usize as int == u);
    board::laws::law_jump_reaches(a, u as usize);
    board::tree::lemma_select_path(a.size, a.root_to_play, a.nodes, u as usize);
    let p = board::model::select_path(a.nodes, u as usize);
    board::tree::lemma_touched(a.size, a.root_to_play, p, u as usize);
    assert(board::tree::same_core(a.nodes, back.board.nodes)) by {
        assert forall|i: int|
            #![trigger a.nodes[i]]
            #![trigger back.board.nodes[i]]
            0 <= i < a.nodes.len() implies a.nodes[i].record == back.board.nodes[i].record
            && a.nodes[i].parent == back.board.nodes[i].parent && a.nodes[i].children
            == back.board.nodes[i].children && a.nodes[i].grid == back.board.nodes[i].grid
            && a.nodes[i].depth == back.board.nodes[i].depth by {
            assert(a.nodes[i].record == p[i].record);
            assert(p[i].record == back.board.nodes[i].record);
        }
    }
    copies::lemma_part_core(a, back.board, b, f);
    assert forall|i: int| 0 <= i < f.len() implies #[trigger] noted(back, b, meta, f[i]) by {
        assert(noted(st, b, meta, f[i]));
    }
    assert(notes_true(back, meta)) by {
        assert forall|s: u64| #[trigger]
            back.comments.contains_key(s) && s != SIG_INIT implies read_comment(
            save::comment_for(meta, s),
        ) == Some(back.comments[s]) by {
            assert(st.comments.contains_key(s));
        }
        assert forall|s: u64| #[trigger] back.extras.contains_key(s) implies save::extras_for(
            meta,
            s,
        ) == back.extras[s] by {
            assert(st.extras.contains_key(s));
        }
    }
}

/// One child copied in full, and then the others, is all of them copied in full.
proof fn lemma_grew_on(
    a: BoardView,
    u: int,
    mid: LoadView,
    end: LoadView,
    b: BoardView,
    meta: Option<MetaView>,
    f: Seq<usize>,
    g1: Seq<usize>,
    g: Seq<usize>,
)
    requires
        0 <= u < f.len(),
        grew_new(a, u, mid, b, meta, f, g1),
        grew(mid.board, u, end, b, meta, g1, g),
    ensures
        grew(a, u, end, b, meta, f, g),
{
    assert(f =~= g.take(f.len() as int)) by {
        assert forall|i: int| 0 <= i < f.len() implies f[i] == g.take(f.len() as int)[i] by {
            assert(g1.take(f.len() as int)[i] == f[i]);
            assert(g.take(g1.len() as int)[i] == g1[i]);
        }
    }
    assert forall|i: int| 0 <= i < f.len() && i != u implies (#[trigger] end.board.nodes[i]).children
        == a.nodes[i].children by {
        assert(mid.board.nodes[i].children == a.nodes[i].children);
    }
    assert forall|i: int| f.len() <= i < g.len() implies #[trigger] copies::full_at(
        end.board,
        b,
        g,
        i,
    ) by {
        if i < g1.len() {
            assert(copies::full_at(mid.board, b, g1, i));
            assert(g.take(g1.len() as int)[i] == g1[i]);
            assert(end.board.nodes[i].children == mid.board.nodes[i].children);
        }
    }
}

/// The main variation of a written branch.
proof fn lemma_main_below(b: BoardView, p: usize, meta: Option<MetaView>)
    requires
        b.wf(),
        p < b.nodes.len(),
    ensures
        ({
            let kids = b.nodes[p as int].children;
            let t = save::below(b.nodes, p, sig_at(b, p), meta);
            if kids.len() == 0 {
                tree::main_nodes(t) == Seq::<NodeView>::empty()
            } else {
                let c = kids[0];
                tree::main_nodes(t) == seq![
                    save::move_node(b.nodes[c as int].record->0, sig_at(b, c), meta),
                ] + tree::main_nodes(save::below(b.nodes, c, sig_at(b, c), meta))
            }
        }),
{
    let kids = b.nodes[p as int].children;
    let t = save::below(b.nodes, p, sig_at(b, p), meta);
    if kids.len() > 0 {
        lemma_sig_below(b, p, 0);
        let c = kids[0];
        let rest = save::below(b.nodes, c, sig_at(b, c), meta);
        let br = save::branch(b.nodes, c, sig_at(b, p), meta);
        let head = seq![save::move_node(b.nodes[c as int].record->0, sig_at(b, c), meta)];
        assert(br.nodes == head + rest.nodes);
        assert(br.children == rest.children);
        assert(tree::main_nodes(br) =~= head + tree::main_nodes(rest));
        if kids.len() > 1 {
            assert(t.children[0] == br);
            assert(tree::main_nodes(t) =~= tree::main_nodes(br));
        }
    }
}

/// Replaying the main variation of a full copy changes selections and visit records only.
proof fn lemma_main_read(a: BoardView, b: BoardView, meta: Option<MetaView>, f: Seq<usize>)
    requires
        copies::is_part(a, b, f),
        forall|i: int| 0 <= i < f.len() ==> #[trigger] copies::full_at(a, b, f, i),
        extras_clean(meta),
    ensures
        ({
            let p = f[a.current as int];
            let end = load::replayed(
                a,
                tree::main_nodes(save::below(b.nodes, p, sig_at(b, p), meta)),
            );
            &&& copies::is_part(end, b, f)
            &&& forall|i: int| 0 <= i < f.len() ==> #[trigger] copies::full_at(end, b, f, i)
        }),
    decreases b.nodes.len() - b.nodes[f[a.current as int] as int].depth,
{
    let p = f[a.current as int];
    assert(copies::copied(a.nodes, b.nodes, f, a.current as int));
    assert(copies::full_at(a, b, f, a.current as int));
    lemma_main_below(b, p, meta);
    let main = tree::main_nodes(save::below(b.nodes, p, sig_at(b, p), meta));
    if b.nodes[p as int].children.len() > 0 {
        copies::lemma_enter_again(a, b, f);
        lemma_sig_below(b, p, 0);
        let c = b.nodes[p as int].children[0];
        let r = b.nodes[c as int].record->0;
        let n = copies::after_record(a, r)->0;
        assert(board::model::hung(b.nodes, c as int));
        assert(board::model::step_ok(b.size, b.root_to_play, b.nodes, c as int));
        lemma_node_back(b.size, r, sig_at(b, c), meta);
        let head = save::move_node(r, sig_at(b, c), meta);
        assert(main[0] == head);
        assert(load::played_node(a, head) == Ok::<Option<BoardView>, Seq<char>>(Some(n)));
        copies::lemma_part_core(a, n, b, f);
        assert forall|i: int| 0 <= i < f.len() implies #[trigger] copies::full_at(n, b, f, i) by {
            assert(copies::full_at(a, b, f, i));
        }
        lemma_main_read(n, b, meta, f);
        assert(main.skip(1) =~= tree::main_nodes(save::below(b.nodes, c, sig_at(b, c), meta)));
    }
}

// ---- the laws ----

/// Whether saving tells all that loading needs: who begins is told, and what is kept makes sense.
/// Without information on the game, and without moves, saving tells who begins only where that is
/// the usual side.
pub open spec fn savable(b: BoardView, meta: Option<MetaView>) -> bool {
    &&& heading::told_first(b, meta) == b.root_to_play
    &&& extras_clean(meta)
    &&& heading::known(b, meta).komi matches Some(k) ==> text::is_float(text::trimmed(k))
}

/// Whether a position of a board after a move has the given signature.
pub open spec fn has_position(b: BoardView, sig: u64) -> bool {
    exists|id: usize| 0 < id < b.nodes.len() && #[trigger] sig_at(b, id) == sig
}

/// The comment of the starting position after a board was saved and loaded: the root's, unless a
/// position after a move has the same signature and a comment.
pub open spec fn start_comment(b: BoardView, meta: Option<MetaView>) -> Option<Seq<char>> {
    if has_position(b, SIG_INIT) && read_comment(save::comment_for(meta, SIG_INIT)) is Some {
        read_comment(save::comment_for(meta, SIG_INIT))
    } else {
        read_comment(heading::known(b, meta).root_comment)
    }
}

/// Whether the comments and properties in `kept` are those of `meta`, for the positions of `b`:
/// comments without white space around them, and properties as they were. The starting position
/// is one of them, and `kept` holds nothing that `meta` does not.
pub open spec fn same_notes(kept: MetaView, b: BoardView, meta: Option<MetaView>) -> bool {
    &&& forall|id: usize|
        0 < id < b.nodes.len() && #[trigger] sig_at(b, id) != SIG_INIT ==> {
            &&& read_comment(save::comment_for(Some(kept), sig_at(b, id))) == read_comment(
                save::comment_for(meta, sig_at(b, id)),
            )
            &&& save::extras_for(Some(kept), sig_at(b, id)) == save::extras_for(
                meta,
                sig_at(b, id),
            )
        }
    &&& save::comment_for(Some(kept), SIG_INIT) == start_comment(b, meta)
    &&& save::extras_for(Some(kept), SIG_INIT) == save::extras_for(meta, SIG_INIT)
    &&& forall|s: u64| #[trigger]
        kept.comments.contains_key(s) && s != SIG_INIT ==> read_comment(
            save::comment_for(meta, s),
        ) == Some(kept.comments[s])
    &&& forall|s: u64| #[trigger]
        kept.extras.contains_key(s) ==> save::extras_for(meta, s) == kept.extras[s]
}

proof fn lemma_fresh_part(b: BoardView, meta: Option<MetaView>)
    requires
        b.wf(),
        savable(b, meta),
    ensures
        ({
            let root = save::root_node(b, meta);
            let st = load::start_state(
                board::fresh_board(b.size, b.root_to_play, b.nodes[0].grid),
                root,
            );
            &&& going(st, b, meta, seq![0usize])
            &&& st.board.current == 0
            &&& st.board.here().children.len() == 0
        }),
{
    let root = save::root_node(b, meta);
    let v = board::fresh_board(b.size, b.root_to_play, b.nodes[0].grid);
    let st = load::start_state(v, root);
    let f = seq![0usize];
    heading::lemma_root_kept(b, meta);
    assert(board::model::line_at(v.nodes, 0) == Some(0usize));
    assert(v.wf());
    assert(copies::copied(v.nodes, b.nodes, f, 0));
    assert(sig_at(b, 0) == SIG_INIT) by {
        assert(board::model::path_records(b.nodes, 0) =~= Seq::empty());
    }
    assert(noted(st, b, meta, f[0]));
}

/// What the state at the end of a load that went well says of the positions.
proof fn lemma_notes(st: LoadView, b: BoardView, meta: Option<MetaView>, f: Seq<usize>, kept: MetaView)
    requires
        going(st, b, meta, f),
        copies::is_copy(st.board, b, f),
        kept.comments == st.comments,
        kept.extras == st.extras,
    ensures
        same_notes(kept, b, meta),
{
    assert(sig_at(b, 0) == SIG_INIT) by {
        assert(board::model::path_records(b.nodes, 0) =~= Seq::empty());
    }
    copies::lemma_all_named(st.board, b, f, 0);
    let z = choose|z: int| 0 <= z < f.len() && f[z] == 0;
    assert(noted(st, b, meta, f[z]));
    if !st.extras.contains_key(SIG_INIT) {
        assert(save::extras_for(meta, SIG_INIT) =~= Seq::empty());
    }
    assert(start_again(b, f) == has_position(b, SIG_INIT)) by {
        if has_position(b, SIG_INIT) {
            let id = choose|id: usize|
                0 < id < b.nodes.len() && #[trigger] sig_at(b, id) == SIG_INIT;
            copies::lemma_all_named(st.board, b, f, id);
            let i = choose|i: int| 0 <= i < f.len() && f[i] == id;
            assert(f[i] != 0);
        }
        if start_again(b, f) {
            let i = choose|i: int|
                0 <= i < f.len() && #[trigger] f[i] != 0 && sig_at(b, f[i]) == SIG_INIT;
            assert(copies::copied(st.board.nodes, b.nodes, f, i));
        }
    }
    assert forall|id: usize|
        0 < id < b.nodes.len() && #[trigger] sig_at(b, id) != SIG_INIT implies {
        &&& read_comment(save::comment_for(Some(kept), sig_at(b, id))) == read_comment(
            save::comment_for(meta, sig_at(b, id)),
        )
        &&& save::extras_for(Some(kept), sig_at(b, id)) == save::extras_for(meta, sig_at(b, id))
    } by {
        let s = sig_at(b, id);
        copies::lemma_all_named(st.board, b, f, id);
        let i = choose|i: int| 0 <= i < f.len() && f[i] == id;
        assert(noted(st, b, meta, f[i]));
        if st.comments.contains_key(s) {
            let c = save::comment_for(meta, s)->0;
            text::lemma_trimmed_ends(c);
            text::lemma_trimmed_id(text::trimmed(c));
        }
        if !st.extras.contains_key(s) {
            assert(save::extras_for(meta, s) =~= Seq::empty());
        }
    }
}

/// Loading the tree that is written for a board gives the same game, with its information,
/// comments and properties, and nothing is reported.
pub proof fn law_save_then_load(source: Seq<char>, b: BoardView, meta: Option<MetaView>)
    requires
        b.wf(),
        savable(b, meta),
    ensures
        load::loaded_tree(source, save::saved_tree(b, meta)) matches Ok(l) && {
            &&& copies::same_game(l.board, b)
            &&& l.board.current == 0
            &&& l.meta.source == source
            &&& l.meta.info == heading::told(b, meta)
            &&& same_notes(l.meta, b, meta)
            &&& l.warning is None
            &&& !l.partial
            &&& l.unplaced_props == 0
            &&& l.dropped_comments == 0
        },
{
    let t = save::saved_tree(b, meta);
    assert(t.nodes[0] == save::root_node(b, meta));
    heading::lemma_info_fine(b, meta);
    heading::lemma_info_read(b, meta);
    heading::lemma_start_board(b, meta);
    lemma_state(b, meta);
}

/// Replaying what was written makes a full copy.
proof fn lemma_walk(b: BoardView, meta: Option<MetaView>) -> (g: Seq<usize>)
    requires
        b.wf(),
        savable(b, meta),
    ensures
        ({
            let first = board::fresh_board(b.size, b.root_to_play, b.nodes[0].grid);
            let t = save::saved_tree(b, meta);
            let end = load::after_tree(load::start_state(first, t.nodes[0]), t, None, true);
            &&& going(end, b, meta, g)
            &&& forall|i: int| 0 <= i < g.len() ==> #[trigger] copies::full_at(end.board, b, g, i)
        }),
{
    let t = save::saved_tree(b, meta);
    let root = save::root_node(b, meta);
    assert(t.nodes[0] == root);
    lemma_fresh_part(b, meta);
    let start = load::start_state(
        board::fresh_board(b.size, b.root_to_play, b.nodes[0].grid),
        root,
    );
    let f = seq![0usize];
    assert(sig_at(b, 0) == SIG_INIT) by {
        assert(board::model::path_records(b.nodes, 0) =~= Seq::empty());
    }
    let rest = save::below(b.nodes, 0, SIG_INIT, meta);
    let g = lemma_below_read(start, b, meta, f, None);
    let end = load::after_tree(start, t, None, true);
    assert(t.nodes.skip(1) =~= rest.nodes);
    assert(end == load::after_tree(start, rest, None, false));
    assert forall|i: int| 0 <= i < g.len() implies #[trigger] copies::full_at(
        end.board,
        b,
        g,
        i,
    ) by {}
    g
}

/// What loading makes of the tree that is written for a board.
proof fn lemma_state(b: BoardView, meta: Option<MetaView>)
    requires
        b.wf(),
        savable(b, meta),
    ensures
        ({
            let first = board::fresh_board(b.size, b.root_to_play, b.nodes[0].grid);
            let st = load::loaded_state(first, save::saved_tree(b, meta));
            &&& copies::same_game(st.board, b)
            &&& st.board.current == 0
            &&& st.orphans == 0
            &&& st.dropped == 0
            &&& st.warnings.len() == 0
            &&& !st.partial
            &&& forall|kept: MetaView|
                kept.comments == st.comments && kept.extras == st.extras ==> #[trigger] same_notes(
                    kept,
                    b,
                    meta,
                )
        }),
{
    let t = save::saved_tree(b, meta);
    let first = board::fresh_board(b.size, b.root_to_play, b.nodes[0].grid);
    let end = load::after_tree(load::start_state(first, t.nodes[0]), t, None, true);
    let g = lemma_walk(b, meta);
    let rest = save::below(b.nodes, 0, SIG_INIT, meta);
    assert(sig_at(b, 0) == SIG_INIT) by {
        assert(board::model::path_records(b.nodes, 0) =~= Seq::empty());
    }
    copies::lemma_full_is_same(end.board, b, g);
    let back = load::rewound(end.board);
    lemma_rewound(end.board, b, g);
    lemma_main_read(back, b, meta, g);
    let main = tree::main_nodes(t).skip(1);
    assert(main =~= tree::main_nodes(rest));
    let line = load::replayed(back, main);
    lemma_rewound(line, b, g);
    let done = load::rewound(line);
    copies::lemma_full_is_same(done, b, g);
    assert forall|kept: MetaView|
        kept.comments == end.comments && kept.extras == end.extras implies #[trigger] same_notes(
        kept,
        b,
        meta,
    ) by {
        lemma_notes(end, b, meta, g, kept);
    }
}

/// Going back to the start changes visit records only.
proof fn lemma_rewound(a: BoardView, b: BoardView, f: Seq<usize>)
    requires
        copies::is_part(a, b, f),
        forall|i: int| 0 <= i < f.len() ==> #[trigger] copies::full_at(a, b, f, i),
    ensures
        copies::is_part(load::rewound(a), b, f),
        forall|i: int| 0 <= i < f.len() ==> #[trigger] copies::full_at(load::rewound(a), b, f, i),
        load::rewound(a).current == 0,
{
    board::tree::lemma_touched(a.size, a.root_to_play, a.nodes, 0);
    board::tree::lemma_moved(a, 0);
    copies::lemma_part_core(a, load::rewound(a), b, f);
    assert forall|i: int| 0 <= i < f.len() implies #[trigger] copies::full_at(
        load::rewound(a),
        b,
        f,
        i,
    ) by {
        assert(copies::full_at(a, b, f, i));
    }
}

// ---- as text ----

/// A node of a saved record is one that reading can give.
proof fn lemma_move_canonical(r: RecordView, sig: u64, meta: Option<MetaView>)
    requires
        extras_clean(meta),
    ensures
        laws::node_canonical(save::move_node(r, sig, meta)),
{
    lemma_short_names();
    let n = save::move_node(r, sig, meta);
    let head = seq![save::one_prop(save::side_ident(r.player), save::action_text(r.action))];
    let note = save::text_prop("C"@, save::comment_for(meta, sig));
    let ex = save::extras_for(meta, sig);
    assert forall|i: int| 0 <= i < n.props.len() implies laws::prop_canonical(
        #[trigger] n.props[i],
    ) by {
        if i >= (head + note).len() {
            assert(n.props[i] == ex[i - (head + note).len()]);
            assert(can_keep(save::extras_for(meta, sig)[i - (head + note).len()]));
        } else {
            assert(n.props[i] == (head + note)[i]);
            assert(n.props[i].ident.len() == 1);
        }
    }
}

/// What is written below a node is made of nodes and trees that reading can give.
proof fn lemma_below_canonical(b: BoardView, p: usize, sig: u64, meta: Option<MetaView>)
    requires
        b.wf(),
        extras_clean(meta),
        p < b.nodes.len(),
    ensures
        ({
            let t = save::below(b.nodes, p, sig, meta);
            &&& forall|i: int| 0 <= i < t.nodes.len() ==> laws::node_canonical(#[trigger] t.nodes[i])
            &&& forall|i: int| 0 <= i < t.children.len() ==> laws::canonical(#[trigger] t.children[i])
        }),
    decreases b.nodes.len() - b.nodes[p as int].depth, 0int,
{
    let kids = b.nodes[p as int].children;
    if kids.len() == 1 {
        lemma_sig_below(b, p, 0);
        lemma_branch_canonical(b, p, 0, sig, meta);
        let t = save::branch(b.nodes, kids[0], sig, meta);
        assert(laws::canonical(t));
    } else {
        let t = save::below(b.nodes, p, sig, meta);
        assert forall|i: int| 0 <= i < t.children.len() implies laws::canonical(
            #[trigger] t.children[i],
        ) by {
            lemma_sig_below(b, p, i);
            lemma_branch_canonical(b, p, i, sig, meta);
        }
    }
}

proof fn lemma_branch_canonical(b: BoardView, p: usize, k: int, sig: u64, meta: Option<MetaView>)
    requires
        b.wf(),
        extras_clean(meta),
        p < b.nodes.len(),
        0 <= k < b.nodes[p as int].children.len(),
    ensures
        laws::canonical(save::branch(b.nodes, b.nodes[p as int].children[k], sig, meta)),
    decreases b.nodes.len() - b.nodes[p as int].depth - 1, 1int,
{
    lemma_sig_below(b, p, k);
    let c = b.nodes[p as int].children[k];
    let r = b.nodes[c as int].record->0;
    let h = load::mixed_move(sig, r);
    lemma_below_canonical(b, c, h, meta);
    lemma_move_canonical(r, h, meta);
    let rest = save::below(b.nodes, c, h, meta);
    let t = save::branch(b.nodes, c, sig, meta);
    assert forall|i: int| 0 <= i < t.nodes.len() implies laws::node_canonical(#[trigger] t.nodes[i]) by {
        if i > 0 {
            assert(t.nodes[i] == rest.nodes[i - 1]);
        }
    }
}

/// The text that is written for a board reads back as the tree that it was written from.
pub proof fn law_saved_text_reads_back(b: BoardView, meta: Option<MetaView>)
    requires
        b.wf(),
        extras_clean(meta),
    ensures
        model::parsed(model::written(save::saved_tree(b, meta))) == Ok::<TreeView, ErrorView>(
            save::saved_tree(b, meta),
        ),
{
    let t = save::saved_tree(b, meta);
    let rest = save::below(b.nodes, 0, SIG_INIT, meta);
    lemma_below_canonical(b, 0, SIG_INIT, meta);
    heading::lemma_root_canonical(b, meta);
    assert forall|i: int| 0 <= i < t.nodes.len() implies laws::node_canonical(#[trigger] t.nodes[i]) by {
        if i > 0 {
            assert(t.nodes[i] == rest.nodes[i - 1]);
        }
    }
    laws::law_write_then_read(t);
}

/// The bytes of a record that was saved are read as the text that was written.
proof fn lemma_saved_bytes(t: TreeView)
    ensures
        super::decoded(vstd::utf8::encode_utf8(model::written(t))) == Ok::<Seq<char>, ErrorView>(
            model::written(t),
        ),
{
    let s = model::written(t);
    let b = vstd::utf8::encode_utf8(s);
    assert(s[0] == '(');
    vstd::utf8::encode_utf8_valid_utf8(s);
    vstd::utf8::encode_utf8_decode_utf8(s);
    assert(b[0] == 0x28) by {
        assert((0x28u32 & 0x7F) as u8 == 0x28u8) by (bit_vector);
        assert(s.first() as u32 == 0x28);
    }
}

/// Loading the bytes of a record that was saved gives the same game.
pub proof fn law_saved_bytes_load(source: Seq<char>, b: BoardView, meta: Option<MetaView>)
    requires
        b.wf(),
        savable(b, meta),
    ensures
        ({
            let bytes = vstd::utf8::encode_utf8(model::written(save::saved_tree(b, meta)));
            &&& load::loaded(source, bytes) == load::loaded_tree(source, save::saved_tree(b, meta))
            &&& load::loaded(source, bytes) matches Ok(l) && copies::same_game(l.board, b)
        }),
{
    lemma_saved_bytes(save::saved_tree(b, meta));
    law_saved_text_reads_back(b, meta);
    law_save_then_load(source, b, meta);
}

} // verus!
