//! What holds of reading and writing records.

use vstd::prelude::*;
use super::error::ErrorView;
use super::info;
use super::load::{self, MetaView};
use super::model::{self, NodeView, PropView, TreeView};
use super::save;
use super::tree;
use crate::board::{self, coord, Action, BoardView, Coord, RecordView, Size, Stone};
use crate::number;
use crate::text;

verus! {

// ---- trees that writing keeps ----

/// A property that reading can give: a name in capitals, at least one value, no rectangle where
/// rectangles are spread out.
pub open spec fn prop_canonical(p: PropView) -> bool {
    &&& p.ident.len() > 0
    &&& forall|i: int| 0 <= i < p.ident.len() ==> 'A' <= #[trigger] p.ident[i] <= 'Z'
    &&& p.values.len() > 0
    &&& model::takes_rects(p.ident) ==> forall|i: int|
        0 <= i < p.values.len() ==> !model::is_rect(#[trigger] p.values[i])
}

/// A node all of whose properties reading can give.
pub open spec fn node_canonical(n: NodeView) -> bool {
    forall|i: int| 0 <= i < n.props.len() ==> prop_canonical(#[trigger] n.props[i])
}

/// A tree that reading can give: at least one node everywhere, and canonical properties.
pub open spec fn canonical(t: TreeView) -> bool
    decreases t,
{
    &&& t.nodes.len() > 0
    &&& forall|i: int| 0 <= i < t.nodes.len() ==> node_canonical(#[trigger] t.nodes[i])
    &&& forall|i: int| 0 <= i < t.children.len() ==> canonical(#[trigger] t.children[i])
}

// ---- reading what was written ----

/// Whether the text `w` stands at position `p` of `s`.
spec fn stands(s: Seq<char>, p: int, w: Seq<char>) -> bool {
    0 <= p && p + w.len() <= s.len() && s.subrange(p, p + w.len()) == w
}

proof fn lemma_stands_split(s: Seq<char>, p: int, a: Seq<char>, b: Seq<char>)
    requires
        stands(s, p, a + b),
    ensures
        stands(s, p, a),
        stands(s, p + a.len(), b),
{
    let w = a + b;
    assert forall|i: int| 0 <= i < w.len() implies s[p + i] == w[i] by {
        assert(s.subrange(p, p + w.len())[i] == w[i]);
    }
    assert(s.subrange(p, p + a.len()) =~= a) by {
        assert forall|i: int| 0 <= i < a.len() implies s.subrange(p, p + a.len())[i] == a[i] by {
            assert(w[i] == a[i]);
        }
    }
    let q = p + a.len();
    assert(s.subrange(q, q + b.len()) =~= b) by {
        assert forall|i: int| 0 <= i < b.len() implies s.subrange(q, q + b.len())[i] == b[i] by {
            assert(s[p + (a.len() + i)] == w[a.len() + i]);
            assert(w[a.len() + i] == b[i]);
        }
    }
}

proof fn lemma_stands_at(s: Seq<char>, p: int, w: Seq<char>, i: int)
    requires
        stands(s, p, w),
        0 <= i < w.len(),
    ensures
        s[p + i] == w[i],
{
    assert(s.subrange(p, p + w.len())[i] == w[i]);
}

/// A value reads back as it was written.
proof fn lemma_value_back(s: Seq<char>, p: int, v: Seq<char>, acc: Seq<char>)
    requires
        stands(s, p, model::escaped(v)),
        model::char_at(s, p + model::escaped(v).len()) == Some(']'),
    ensures
        model::value_rest(s, p, acc) == Ok::<(Seq<char>, int), ErrorView>(
            (acc + v, p + model::escaped(v).len() + 1),
        ),
    decreases v.len(),
{
    if v.len() == 0 {
        assert(acc + v =~= acc);
    } else {
        let c = v[0];
        let head = model::escaped_char(c);
        let rest = model::escaped(v.skip(1));
        lemma_stands_split(s, p, head, rest);
        lemma_stands_at(s, p, head, 0);
        if c == '\\' || c == ']' {
            lemma_stands_at(s, p, head, 1);
        }
        lemma_value_back(s, p + head.len(), v.skip(1), acc.push(c));
        assert(acc.push(c) + v.skip(1) =~= acc + v);
    }
}

/// What stands behind a list of values and ends it.
spec fn ends_values(s: Seq<char>, r: int) -> bool {
    0 <= r <= s.len() && (r < s.len() ==> !model::is_blank(s[r]) && s[r] != '[')
}

proof fn lemma_values_back(s: Seq<char>, p: int, vs: Seq<Seq<char>>, acc: Seq<Seq<char>>)
    requires
        stands(s, p, model::written_values(vs)),
        ends_values(s, p + model::written_values(vs).len()),
    ensures
        model::values_at(s, p, acc) == Ok::<(Seq<Seq<char>>, int), ErrorView>(
            (acc + vs, p + model::written_values(vs).len()),
        ),
    decreases vs.len(),
{
    if vs.len() == 0 {
        assert(acc + vs =~= acc);
    } else {
        let e = model::escaped(vs[0]);
        let rest = model::written_values(vs.skip(1));
        assert(seq!['['] + e + seq![']'] + rest =~= seq!['['] + (e + (seq![']'] + rest)));
        lemma_stands_split(s, p, seq!['['], e + (seq![']'] + rest));
        lemma_stands_at(s, p, seq!['['], 0);
        lemma_stands_split(s, p + 1, e, seq![']'] + rest);
        lemma_stands_split(s, p + 1 + e.len(), seq![']'], rest);
        lemma_stands_at(s, p + 1 + e.len(), seq![']'], 0);
        lemma_value_back(s, p + 1, vs[0], Seq::empty());
        assert(Seq::<char>::empty() + vs[0] =~= vs[0]);
        let r = p + 1 + e.len() + 1;
        lemma_values_back(s, r, vs.skip(1), acc.push(vs[0]));
        assert(acc.push(vs[0]) + vs.skip(1) =~= acc + vs);
    }
}

/// What stands behind a node and ends it.
spec fn ends_node(s: Seq<char>, r: int) -> bool {
    0 <= r < s.len() && (s[r] == ';' || s[r] == '(' || s[r] == ')')
}

proof fn lemma_spread_same(vs: Seq<Seq<char>>)
    requires
        forall|i: int| 0 <= i < vs.len() ==> !model::is_rect(#[trigger] vs[i]),
    ensures
        model::spread(vs) == vs,
    decreases vs.len(),
{
    if vs.len() > 0 {
        lemma_spread_same(vs.drop_last());
        assert(!model::is_rect(vs[vs.len() - 1]));
        assert(vs.drop_last() + seq![vs.last()] =~= vs);
    }
}

proof fn lemma_letters_run(s: Seq<char>, p: int, e: int)
    requires
        0 <= p <= e <= s.len(),
        forall|i: int| p <= i < e ==> model::is_letter(#[trigger] s[i]),
        e < s.len() ==> !model::is_letter(s[e]),
    ensures
        model::letters_end(s, p) == e,
    decreases e - p,
{
    if p < e {
        assert(model::is_letter(s[p]));
        lemma_letters_run(s, p + 1, e);
    }
}

proof fn lemma_props_back(s: Seq<char>, p: int, ps: Seq<PropView>, acc: Seq<PropView>)
    requires
        stands(s, p, model::written_props(ps)),
        ends_node(s, p + model::written_props(ps).len()),
        forall|i: int| 0 <= i < ps.len() ==> prop_canonical(#[trigger] ps[i]),
    ensures
        model::props_at(s, p, acc) == Ok::<(Seq<PropView>, int), ErrorView>(
            (acc + ps, p + model::written_props(ps).len()),
        ),
    decreases ps.len(),
{
    if ps.len() == 0 {
        assert(acc + ps =~= acc);
    } else {
        let ident = ps[0].ident;
        let vs = ps[0].values;
        let wv = model::written_values(vs);
        let rest = model::written_props(ps.skip(1));
        assert(prop_canonical(ps[0]));
        assert(ident + wv + rest =~= ident + (wv + rest));
        lemma_stands_split(s, p, ident, wv + rest);
        let e = p + ident.len();
        lemma_stands_split(s, e, wv, rest);
        let r = e + wv.len();
        assert(wv =~= seq!['['] + (model::escaped(vs[0]) + seq![']'] + model::written_values(
            vs.skip(1),
        )));
        lemma_stands_at(s, e, wv, 0);
        assert(wv[0] == '[');
        assert forall|i: int| p <= i < e implies model::is_letter(#[trigger] s[i]) && 'A' <= s[i]
            <= 'Z' by {
            lemma_stands_at(s, p, ident, i - p);
            assert('A' <= ident[i - p] <= 'Z');
        }
        assert(model::is_letter(s[p]));
        lemma_letters_run(s, p, e);
        assert(model::upper_text(s.subrange(p, e)) =~= ident) by {
            assert forall|i: int| 0 <= i < ident.len() implies model::upper_text(
                s.subrange(p, e),
            )[i] == ident[i] by {
                lemma_stands_at(s, p, ident, i);
                assert('A' <= ident[i] <= 'Z');
            }
        }
        // What follows the values is the next name, or what ends the node.
        if ps.len() > 1 {
            let next = ps.skip(1)[0];
            assert(next == ps[1]);
            assert(prop_canonical(next));
            assert(rest =~= next.ident + (model::written_values(next.values)
                + model::written_props(ps.skip(1).skip(1))));
            lemma_stands_at(s, r, rest, 0);
            assert('A' <= next.ident[0] <= 'Z');
            assert(rest[0] == next.ident[0]);
        }
        assert(ends_values(s, r));
        lemma_values_back(s, e, vs, Seq::empty());
        assert(Seq::<Seq<char>>::empty() + vs =~= vs);
        if model::takes_rects(ident) {
            lemma_spread_same(vs);
        }
        assert(PropView { ident, values: model::expanded(ident, vs) } == ps[0]);
        assert forall|i: int| 0 <= i < ps.skip(1).len() implies prop_canonical(
            #[trigger] ps.skip(1)[i],
        ) by {
            assert(prop_canonical(ps[i + 1]));
        }
        lemma_props_back(s, r, ps.skip(1), acc.push(ps[0]));
        assert(acc.push(ps[0]) + ps.skip(1) =~= acc + ps);
    }
}

proof fn lemma_nodes_back(
    s: Seq<char>,
    p: int,
    ns: Seq<NodeView>,
    nodes: Seq<NodeView>,
    children: Seq<TreeView>,
)
    requires
        stands(s, p, model::written_nodes(ns)),
        ends_node(s, p + model::written_nodes(ns).len()),
        forall|i: int| 0 <= i < ns.len() ==> node_canonical(#[trigger] ns[i]),
    ensures
        model::items_at(s, p, nodes, children) == model::items_at(
            s,
            p + model::written_nodes(ns).len(),
            nodes + ns,
            children,
        ),
    decreases ns.len(),
{
    if ns.len() == 0 {
        assert(nodes + ns =~= nodes);
    } else {
        let wp = model::written_props(ns[0].props);
        let rest = model::written_nodes(ns.skip(1));
        assert(seq![';'] + wp + rest =~= seq![';'] + (wp + rest));
        lemma_stands_split(s, p, seq![';'], wp + rest);
        lemma_stands_at(s, p, seq![';'], 0);
        lemma_stands_split(s, p + 1, wp, rest);
        let r = p + 1 + wp.len();
        if ns.len() > 1 {
            assert(rest =~= seq![';'] + (model::written_props(ns.skip(1)[0].props)
                + model::written_nodes(ns.skip(1).skip(1))));
            lemma_stands_at(s, r, rest, 0);
        }
        assert(node_canonical(ns[0]));
        lemma_props_back(s, p + 1, ns[0].props, Seq::empty());
        assert(Seq::<PropView>::empty() + ns[0].props =~= ns[0].props);
        assert forall|i: int| 0 <= i < ns.skip(1).len() implies node_canonical(
            #[trigger] ns.skip(1)[i],
        ) by {
            assert(node_canonical(ns[i + 1]));
        }
        lemma_nodes_back(s, r, ns.skip(1), nodes.push(ns[0]), children);
        assert(nodes.push(ns[0]) + ns.skip(1) =~= nodes + ns);
    }
}

proof fn lemma_trees_back(
    s: Seq<char>,
    p: int,
    ts: Seq<TreeView>,
    nodes: Seq<NodeView>,
    children: Seq<TreeView>,
)
    requires
        stands(s, p, model::written_all(ts)),
        ends_node(s, p + model::written_all(ts).len()),
        forall|i: int| 0 <= i < ts.len() ==> canonical(#[trigger] ts[i]),
    ensures
        model::items_at(s, p, nodes, children) == model::items_at(
            s,
            p + model::written_all(ts).len(),
            nodes,
            children + ts,
        ),
    decreases ts,
{
    if ts.len() == 0 {
        assert(children + ts =~= children);
    } else {
        let w = model::written(ts[0]);
        let rest = model::written_all(ts.skip(1));
        lemma_stands_split(s, p, w, rest);
        assert(canonical(ts[0]));
        lemma_tree_back(s, p, ts[0]);
        lemma_stands_at(s, p, w, 0);
        assert(w[0] == '(');
        assert forall|i: int| 0 <= i < ts.skip(1).len() implies canonical(
            #[trigger] ts.skip(1)[i],
        ) by {
            assert(canonical(ts[i + 1]));
        }
        lemma_trees_back(s, p + w.len(), ts.skip(1), nodes, children.push(ts[0]));
        assert(children.push(ts[0]) + ts.skip(1) =~= children + ts);
    }
}

/// A tree reads back as it was written.
proof fn lemma_tree_back(s: Seq<char>, p: int, t: TreeView)
    requires
        stands(s, p, model::written(t)),
        canonical(t),
    ensures
        model::tree_at(s, p) == Ok::<(TreeView, int), ErrorView>(
            (t, p + model::written(t).len()),
        ),
    decreases t,
{
    let wn = model::written_nodes(t.nodes);
    let wa = model::written_all(t.children);
    assert(model::written(t) =~= seq!['('] + (wn + (wa + seq![')'])));
    lemma_stands_split(s, p, seq!['('], wn + (wa + seq![')']));
    lemma_stands_at(s, p, seq!['('], 0);
    lemma_stands_split(s, p + 1, wn, wa + seq![')']);
    let q = p + 1 + wn.len();
    lemma_stands_split(s, q, wa, seq![')']);
    let r = q + wa.len();
    lemma_stands_at(s, r, seq![')'], 0);
    if t.children.len() > 0 {
        let w0 = model::written(t.children[0]);
        assert(w0.len() > 0 && w0[0] == '(');
        assert(wa =~= w0 + model::written_all(t.children.skip(1)));
        lemma_stands_at(s, q, wa, 0);
        assert(wa[0] == '(');
    }
    lemma_nodes_back(s, p + 1, t.nodes, Seq::empty(), Seq::empty());
    assert(Seq::<NodeView>::empty() + t.nodes =~= t.nodes);
    lemma_trees_back(s, q, t.children, t.nodes, Seq::empty());
    assert(Seq::<TreeView>::empty() + t.children =~= t.children);
    assert(TreeView { nodes: t.nodes, children: t.children } == t);
}

/// Reading the text that a canonical tree is written as gives the tree.
pub proof fn law_write_then_read(t: TreeView)
    requires
        canonical(t),
    ensures
        model::parsed(model::written(t)) == Ok::<TreeView, ErrorView>(t),
{
    let s = model::written(t);
    assert(s.subrange(0, s.len() as int) =~= s);
    lemma_tree_back(s, 0, t);
    assert(s[0] == '(');
}

// ---- what reading gives ----

proof fn lemma_rect_points(x1: char, x2: char, y1: char, y2: char)
    requires
        x1 <= x2,
        y1 <= y2,
    ensures
        model::rect_points(x1, x2, y1, y2).len() > 0,
        forall|i: int|
            0 <= i < model::rect_points(x1, x2, y1, y2).len() ==> (#[trigger] model::rect_points(
                x1,
                x2,
                y1,
                y2,
            )[i]).len() == 2,
{
    let w = x2 as int - x1 as int + 1;
    let h = y2 as int - y1 as int + 1;
    assert(w * h > 0) by (nonlinear_arith)
        requires
            w > 0,
            h > 0,
    ;
}

proof fn lemma_spread_clean(vs: Seq<Seq<char>>)
    ensures
        vs.len() > 0 ==> model::spread(vs).len() > 0,
        forall|i: int|
            0 <= i < model::spread(vs).len() ==> !model::is_rect(#[trigger] model::spread(vs)[i]),
    decreases vs.len(),
{
    if vs.len() > 0 {
        lemma_spread_clean(vs.drop_last());
        let v = vs.last();
        if model::is_rect(v) {
            lemma_rect_points(
                model::lesser(v[0], v[3]),
                model::greater(v[0], v[3]),
                model::lesser(v[1], v[4]),
                model::greater(v[1], v[4]),
            );
        }
        let a = model::spread(vs.drop_last());
        let b = model::points_of(v);
        assert forall|i: int| 0 <= i < model::spread(vs).len() implies !model::is_rect(
            #[trigger] model::spread(vs)[i],
        ) by {
            if i < a.len() {
                assert(model::spread(vs)[i] == a[i]);
            } else {
                assert(model::spread(vs)[i] == b[i - a.len()]);
            }
        }
    }
}

proof fn lemma_props_canonical(s: Seq<char>, p: int, acc: Seq<PropView>)
    requires
        0 <= p <= s.len(),
        forall|i: int| 0 <= i < acc.len() ==> prop_canonical(#[trigger] acc[i]),
    ensures
        model::props_at(s, p, acc) matches Ok((ps, r)) ==> forall|i: int|
            0 <= i < ps.len() ==> prop_canonical(#[trigger] ps[i]),
    decreases s.len() - p,
{
    model::lemma_skip_blank(s, p);
    let q = model::skip_blank(s, p);
    if model::char_at(s, q) is Some && model::is_letter(s[q]) {
        let e = model::letters_end(s, q);
        model::lemma_letters_end(s, q);
        let ident = model::upper_text(s.subrange(q, e));
        model::lemma_values_at(s, e, Seq::empty());
        if let Ok((values, r)) = model::values_at(s, e, Seq::empty()) {
            if values.len() > 0 {
                let prop = PropView { ident, values: model::expanded(ident, values) };
                assert(e > q);
                assert forall|i: int| 0 <= i < ident.len() implies 'A' <= #[trigger] ident[i]
                    <= 'Z' by {
                    assert(model::is_letter(s[q + i]));
                    assert(ident[i] == model::upper(s[q + i]));
                }
                lemma_spread_clean(values);
                assert(prop_canonical(prop));
                let next = acc.push(prop);
                assert forall|i: int| 0 <= i < next.len() implies prop_canonical(
                    #[trigger] next[i],
                ) by {
                    if i < acc.len() {
                        assert(prop_canonical(acc[i]));
                    }
                }
                lemma_props_canonical(s, r, next);
            }
        }
    }
}

proof fn lemma_tree_canonical(s: Seq<char>, p: int)
    requires
        0 <= p <= s.len(),
    ensures
        model::tree_at(s, p) matches Ok((t, r)) ==> canonical(t),
    decreases s.len() - p, 0int,
{
    model::lemma_skip_blank(s, p);
    let q = model::skip_blank(s, p);
    if model::char_at(s, q) == Some('(') {
        lemma_items_canonical(s, q + 1, Seq::empty(), Seq::empty());
    }
}

proof fn lemma_items_canonical(
    s: Seq<char>,
    p: int,
    nodes: Seq<NodeView>,
    children: Seq<TreeView>,
)
    requires
        0 <= p <= s.len(),
        forall|i: int| 0 <= i < nodes.len() ==> node_canonical(#[trigger] nodes[i]),
        forall|i: int| 0 <= i < children.len() ==> canonical(#[trigger] children[i]),
    ensures
        model::items_at(s, p, nodes, children) matches Ok((t, r)) ==> canonical(t),
    decreases s.len() - p, 1int,
{
    model::lemma_skip_blank(s, p);
    let q = model::skip_blank(s, p);
    match model::char_at(s, q) {
        Some(';') => {
            model::lemma_props_at(s, q + 1, Seq::empty());
            lemma_props_canonical(s, q + 1, Seq::empty());
            if let Ok((props, r)) = model::props_at(s, q + 1, Seq::empty()) {
                let n = NodeView { props };
                assert(node_canonical(n));
                assert forall|i: int| 0 <= i < nodes.push(n).len() implies node_canonical(
                    #[trigger] nodes.push(n)[i],
                ) by {
                    if i < nodes.len() {
                        assert(node_canonical(nodes[i]));
                    }
                }
                lemma_items_canonical(s, r, nodes.push(n), children);
            }
        },
        Some('(') => {
            model::lemma_tree_at(s, q);
            lemma_tree_canonical(s, q);
            if let Ok((t, r)) = model::tree_at(s, q) {
                assert forall|i: int| 0 <= i < children.push(t).len() implies canonical(
                    #[trigger] children.push(t)[i],
                ) by {
                    if i < children.len() {
                        assert(canonical(children[i]));
                    }
                }
                lemma_items_canonical(s, r, nodes, children.push(t));
            }
        },
        _ => {},
    }
}

/// Whatever is read is canonical.
pub proof fn law_read_is_canonical(s: Seq<char>)
    ensures
        model::parsed(s) matches Ok(t) ==> canonical(t),
{
    model::lemma_skip_blank(s, 0);
    lemma_tree_canonical(s, model::skip_blank(s, 0));
}

/// Writing a tree that was read and reading it again gives the same tree: unknown properties,
/// their order and every value are kept.
pub proof fn law_read_write_read(s: Seq<char>)
    ensures
        model::parsed(s) matches Ok(t) ==> model::parsed(model::written(t)) == Ok::<
            TreeView,
            ErrorView,
        >(t),
{
    law_read_is_canonical(s);
    if let Ok(t) = model::parsed(s) {
        law_write_then_read(t);
    }
}

// ---- what properties mean ----

/// Whether property `i` is the first with the given name.
pub open spec fn first_named(ps: Seq<PropView>, ident: Seq<char>, i: int) -> bool {
    &&& 0 <= i < ps.len()
    &&& ps[i].ident == ident
    &&& forall|k: int| 0 <= k < i ==> (#[trigger] ps[k]).ident != ident
}

/// A property is found under its name, the first where there are several; it is missing exactly
/// where no property has the name.
pub proof fn law_first_property_counts(n: NodeView, ident: Seq<char>)
    requires
        forall|i: int| 0 <= i < ident.len() ==> 'A' <= #[trigger] ident[i] <= 'Z',
    ensures
        forall|i: int| #[trigger]
            first_named(n.props, ident, i) ==> n.get(ident) == Some(n.props[i]),
        n.get(ident) is None <==> forall|k: int|
            0 <= k < n.props.len() ==> (#[trigger] n.props[k]).ident != ident,
{
    assert(model::upper_text(ident) =~= ident);
    lemma_prop_index(n.props, ident);
    assert forall|i: int| #[trigger] first_named(n.props, ident, i) implies n.get(ident) == Some(
        n.props[i],
    ) by {
        let j = tree::prop_index(n.props, ident);
        if j < i {
            assert(n.props[j].ident != ident);
        } else if i < j {
            assert(n.props[i].ident != ident);
        }
    }
}

proof fn lemma_prop_index(ps: Seq<PropView>, ident: Seq<char>)
    ensures
        0 <= tree::prop_index(ps, ident) <= ps.len(),
        tree::prop_index(ps, ident) < ps.len() ==> ps[tree::prop_index(ps, ident)].ident == ident,
        forall|k: int|
            0 <= k < tree::prop_index(ps, ident) ==> (#[trigger] ps[k]).ident != ident,
    decreases ps.len(),
{
    if ps.len() > 0 && ps[0].ident != ident {
        lemma_prop_index(ps.skip(1), ident);
        let j = tree::prop_index(ps.skip(1), ident);
        assert forall|k: int| 0 <= k < 1 + j implies (#[trigger] ps[k]).ident != ident by {
            if k > 0 {
                assert(ps.skip(1)[k - 1] == ps[k]);
            }
        }
    }
}

/// What a node says under a name: the first value of the property, without white space around it;
/// nothing where that is empty.
pub open spec fn said(n: NodeView, ident: Seq<char>) -> Option<Seq<char>> {
    match n.get(ident) {
        Some(p) => if p.values.len() > 0 && text::trimmed(p.values[0]).len() > 0 {
            Some(text::trimmed(p.values[0]))
        } else {
            None
        },
        None => None,
    }
}

/// What the root says of the game stands under names of its own: Black's name under `PB`, White's
/// under `PW`, and so on for each.
pub proof fn law_information_name_by_name(root: NodeView)
    ensures
        info::info_in(root).player_black == said(root, "PB"@),
        info::info_in(root).player_white == said(root, "PW"@),
        info::info_in(root).rank_black == said(root, "BR"@),
        info::info_in(root).rank_white == said(root, "WR"@),
        info::info_in(root).team_black == said(root, "BT"@),
        info::info_in(root).team_white == said(root, "WT"@),
        info::info_in(root).result == said(root, "RE"@),
        info::info_in(root).date == said(root, "DT"@),
        info::info_in(root).event == said(root, "EV"@),
        info::info_in(root).round == said(root, "RO"@),
        info::info_in(root).place == said(root, "PC"@),
        info::info_in(root).game_name == said(root, "GN"@),
        info::info_in(root).rules == said(root, "RU"@),
        info::info_in(root).time_limit == said(root, "TM"@),
        info::info_in(root).overtime == said(root, "OT"@),
        info::info_in(root).application == said(root, "AP"@),
        info::info_in(root).charset == said(root, "CA"@),
        info::info_in(root).root_comment == said(root, "C"@),
        info::info_in(root).result_block is None,
        said(root, "KM"@) is None && root.get("KM"@) is None ==> info::info_in(root).komi is None,
        said(root, "KM"@) matches Some(k) ==> info::info_in(root).komi == Some(number::shown(k)),
        said(root, "HA"@) matches Some(h) ==> (text::parsed_unsigned(h, 255) matches Some(n)
            ==> info::info_in(root).handicap == n),
        root.get("HA"@) is None ==> info::info_in(root).handicap == 0,
        said(root, "FF"@) matches Some(h) ==> (text::parsed_unsigned(h, 255) matches Some(n)
            ==> info::info_in(root).format == Some(n as u8)),
{
}

/// `PL` names the side that moves first by its letter, small or large.
pub proof fn law_first_player_by_letter(root: NodeView)
    ensures
        said(root, "PL"@) == Some(seq!['B']) || said(root, "PL"@) == Some(seq!['b'])
            ==> info::info_in(root).initial_player == Some(Stone::Black),
        said(root, "PL"@) == Some(seq!['W']) || said(root, "PL"@) == Some(seq!['w'])
            ==> info::info_in(root).initial_player == Some(Stone::White),
        said(root, "PL"@) is None ==> info::info_in(root).initial_player is None,
        info::info_in(root).initial_player matches Some(p) ==> {
            let v = said(root, "PL"@)->0;
            &&& said(root, "PL"@) is Some
            &&& v.len() == 1
            &&& p == Stone::Black <==> v[0] == 'B' || v[0] == 'b'
            &&& p == Stone::White <==> v[0] == 'W' || v[0] == 'w'
        },
{
    if let Some(v) = root.trimmed("PL"@) {
        let low = text::lower_text(v);
        if v.len() == 1 {
            assert(low =~= seq![text::lower(v[0])]);
            assert(low[0] == text::lower(v[0]));
        }
        if low == seq!['b'] || low == seq!['w'] {
            assert(low.len() == v.len());
            assert(seq!['b'].len() == 1 && seq!['w'].len() == 1);
            assert(v.len() == 1);
            assert(low[0] == text::lower(v[0]));
        }
        if v == seq!['B'] || v == seq!['b'] {
            assert(low =~= seq!['b']);
        }
        if v == seq!['W'] || v == seq!['w'] {
            assert(low =~= seq!['w']);
        }
    }
}

/// The board has the size that `SZ` gives, and 19 lines where it gives none; nothing but 9, 13 and
/// 19 is taken.
pub proof fn law_size_by_number(root: NodeView)
    ensures
        root.get("SZ"@) is None ==> info::size_in(root) == Ok::<nat, ErrorView>(19),
        info::size_in(root) matches Ok(n) ==> n == 9 || n == 13 || n == 19,
        said(root, "SZ"@) matches Some(v) ==> (text::find_from(v, ':', 0) is None ==> {
            let n = text::parsed_unsigned(v, 255);
            &&& info::size_in(root) is Ok <==> n == Some(9nat) || n == Some(13nat) || n == Some(19nat)
            &&& info::size_in(root) matches Ok(m) ==> n == Some(m)
        }),
        info::size_in(root) matches Ok(n) ==> info::info_in(root).size.side() == n,
{
    if let Ok(n) = info::size_in(root) {
        coord::lemma_side_of(n);
    }
}

/// A node moves for Black by `B` and for White by `W`, the first of them where there are several:
/// an empty value and `tt` are passes, any other names a point, its column first.
pub proof fn law_move_of_a_node(size: Size, ps: Seq<PropView>, i: int)
    requires
        size.wf(),
        0 <= i < ps.len(),
        ps[i].ident == seq!['B'] || ps[i].ident == seq!['W'],
        forall|k: int|
            0 <= k < i ==> (#[trigger] ps[k]).ident != seq!['B'] && ps[k].ident != seq!['W'],
        ps[i].values.len() > 0,
    ensures
        ({
            let v = ps[i].values[0];
            let side = if ps[i].ident == seq!['B'] {
                Stone::Black
            } else {
                Stone::White
            };
            let pass = v.len() == 0 || v == seq!['t', 't'];
            let point = v.len() == 2 && 0 <= (v[0] as int - 'a' as int) < size.side() && 0 <= (v[1] as int
                - 'a' as int) < size.side();
            &&& pass ==> tree::move_in(size, ps) == Ok::<Option<(Stone, Action)>, ErrorView>(
                Some((side, Action::Pass)),
            )
            &&& !pass ==> (tree::move_in(size, ps) is Ok <==> point)
            &&& !pass && point ==> (tree::move_in(size, ps) matches Ok(Some((s, Action::Place(c))))
                && s == side && v[0] as int == 'a' as int + c.col() && v[1] as int == 'a' as int
                + c.row())
        }),
    decreases i,
{
    let b = seq!['B'];
    let w = seq!['W'];
    assert(b[0] != w[0]);
    if i > 0 {
        assert(ps[0].ident != b && ps[0].ident != w);
        let rest = ps.skip(1);
        assert forall|k: int| 0 <= k < i - 1 implies (#[trigger] rest[k]).ident != b
            && rest[k].ident != w by {
            assert(ps[k + 1].ident != b);
        }
        law_move_of_a_node(size, rest, i - 1);
    } else {
        coord::law_sgf_column_then_row(size, ps[0].values[0]);
    }
}

/// A node without `B` and `W` makes no move.
pub proof fn law_no_move_of_a_node(size: Size, ps: Seq<PropView>)
    requires
        forall|k: int|
            0 <= k < ps.len() ==> (#[trigger] ps[k]).ident != seq!['B'] && ps[k].ident != seq!['W'],
    ensures
        tree::move_in(size, ps) == Ok::<Option<(Stone, Action)>, ErrorView>(None),
    decreases ps.len(),
{
    if ps.len() > 0 {
        assert(ps[0].ident != seq!['B']);
        let rest = ps.skip(1);
        assert forall|k: int| 0 <= k < rest.len() implies (#[trigger] rest[k]).ident != seq!['B']
            && rest[k].ident != seq!['W'] by {
            assert(ps[k + 1].ident != seq!['B']);
        }
        law_no_move_of_a_node(size, rest);
    }
}

/// Loading a move plays it for the side that it names, on the point that it names; a move of the
/// side that is not to move, or that the rules refuse, is not played.
pub proof fn law_load_plays_the_move(b: BoardView, n: NodeView, stone: Stone, action: Action)
    requires
        b.wf(),
        b.nodes.len() < usize::MAX,
        tree::move_in(b.size, n.props) == Ok::<Option<(Stone, Action)>, ErrorView>(
            Some((stone, action)),
        ),
    ensures
        load::played_node(b, n) is Ok <==> stone == b.to_play() && (action matches Action::Place(
            at,
        ) ==> b.played(at) is Ok),
        load::played_node(b, n) matches Ok(w) ==> w is Some && w->0.wf() && w->0.here().parent
            == Some(b.current) && w->0.here().record is Some && w->0.here().record->0.player
            == stone && w->0.here().record->0.action == action,
{
    if stone == b.to_play() {
        match action {
            Action::Pass => {
                board::laws::law_pass(b);
                board::laws::law_moves_are_listed_in_order(b, Coord::at(0, 0));
                board::laws::lemma_passed_record(b);
            },
            Action::Place(at) => {
                if b.played(at) is Ok {
                    board::laws::law_play(b, at);
                }
            },
        }
    }
}

/// A list of points names one point for each value, its column first.
pub proof fn law_points_one_by_one(size: Size, ident: Seq<char>, vs: Seq<Seq<char>>)
    requires
        size.wf(),
    ensures
        tree::points_in(size, ident, vs) is Ok <==> forall|k: int|
            0 <= k < vs.len() ==> coord::parsed_sgf(size, #[trigger] vs[k]) is Ok,
        tree::points_in(size, ident, vs) matches Ok(ps) ==> ps.len() == vs.len() && forall|k: int|
            0 <= k < vs.len() ==> {
                &&& vs[k].len() == 2
                &&& vs[k][0] as int == 'a' as int + (#[trigger] ps[k]).col()
                &&& vs[k][1] as int == 'a' as int + ps[k].row()
                &&& ps[k].on(size)
            },
    decreases vs.len(),
{
    if vs.len() > 0 {
        let rest = vs.skip(1);
        law_points_one_by_one(size, ident, rest);
        coord::law_sgf_column_then_row(size, vs[0]);
        if let Ok(ps) = tree::points_in(size, ident, vs) {
            let more = tree::points_in(size, ident, rest)->Ok_0;
            assert forall|k: int| 0 <= k < vs.len() implies {
                &&& vs[k].len() == 2
                &&& vs[k][0] as int == 'a' as int + (#[trigger] ps[k]).col()
                &&& vs[k][1] as int == 'a' as int + ps[k].row()
                &&& ps[k].on(size)
            } by {
                if k > 0 {
                    assert(rest[k - 1] == vs[k]);
                    assert(ps[k] == more[k - 1]);
                }
            }
        }
        if tree::points_in(size, ident, vs) is Ok {
            assert forall|k: int| 0 <= k < vs.len() implies coord::parsed_sgf(
                size,
                #[trigger] vs[k],
            ) is Ok by {
                if k > 0 {
                    assert(rest[k - 1] == vs[k]);
                }
            }
        }
        if forall|k: int| 0 <= k < vs.len() ==> coord::parsed_sgf(size, #[trigger] vs[k]) is Ok {
            assert(coord::parsed_sgf(size, vs[0]) is Ok);
            assert forall|k: int| 0 <= k < rest.len() implies coord::parsed_sgf(
                size,
                #[trigger] rest[k],
            ) is Ok by {
                assert(coord::parsed_sgf(size, vs[k + 1]) is Ok);
            }
        }
    }
}

/// A rectangle stands for exactly the points between its corners, each of them once.
pub proof fn law_rectangle_is_its_points(x1: char, x2: char, y1: char, y2: char, x: char, y: char)
    requires
        x1 <= x2,
        y1 <= y2,
        'a' <= x1,
        x2 <= 'z',
        'a' <= y1,
        y2 <= 'z',
    ensures
        model::rect_points(x1, x2, y1, y2).contains(seq![x, y]) <==> x1 <= x <= x2 && y1 <= y <= y2,
        model::rect_points(x1, x2, y1, y2).len() == (x2 as int - x1 as int + 1) * (y2 as int
            - y1 as int + 1),
{
    let w = x2 as int - x1 as int + 1;
    let h = y2 as int - y1 as int + 1;
    let ps = model::rect_points(x1, x2, y1, y2);
    assert(w * h > 0) by (nonlinear_arith)
        requires
            w > 0,
            h > 0,
    ;
    if x1 <= x <= x2 && y1 <= y <= y2 {
        let (c, r) = (x as int - x1 as int, y as int - y1 as int);
        let k = r * w + c;
        assert(0 <= k < w * h && k / w == r && k % w == c) by {
            assert(0 <= r * w + c < w * h) by (nonlinear_arith)
                requires
                    0 <= c < w,
                    0 <= r < h,
            ;
            vstd::arithmetic::div_mod::lemma_fundamental_div_mod_converse(k, w, r, c);
        }
        assert(ps[k] =~= seq![x, y]);
    }
    if ps.contains(seq![x, y]) {
        let k = choose|k: int| 0 <= k < ps.len() && ps[k] == seq![x, y];
        assert(0 <= k / w < h && 0 <= k % w < w) by (nonlinear_arith)
            requires
                0 <= k < w * h,
                w > 0,
        ;
        assert(ps[k][0] == x && ps[k][1] == y);
        assert(seq![x, y][0] == x && seq![x, y][1] == y);
    }
}

/// A value with corners in any order is the rectangle between them; any other stands for itself.
pub proof fn law_corners_in_any_order(v: Seq<char>, x: char, y: char)
    ensures
        model::is_rect(v) <==> v.len() == 5 && v[2] == ':' && 'a' <= v[0] <= 'z' && 'a' <= v[1]
            <= 'z' && 'a' <= v[3] <= 'z' && 'a' <= v[4] <= 'z',
        !model::is_rect(v) ==> model::points_of(v) == seq![v],
        model::is_rect(v) ==> (model::points_of(v).contains(seq![x, y]) <==> (v[0] <= x <= v[3]
            || v[3] <= x <= v[0]) && (v[1] <= y <= v[4] || v[4] <= y <= v[1])),
{
    if model::is_rect(v) {
        law_rectangle_is_its_points(
            model::lesser(v[0], v[3]),
            model::greater(v[0], v[3]),
            model::lesser(v[1], v[4]),
            model::greater(v[1], v[4]),
            x,
            y,
        );
    }
}

/// The starting position holds black stones on the points of `AB`, white ones on those of `AW`, and
/// none on those of `AE`. `PL` says who moves first; where it does not, White does if stones were
/// put down, and Black if not.
pub proof fn law_start_of_a_record(t: TreeView, c: Coord)
    requires
        load::start_board(t) is Ok,
        info::info_in(t.nodes[0]).size.wf(),
        c.on(info::info_in(t.nodes[0]).size),
    ensures
        ({
            let root = t.nodes[0];
            let size = info::info_in(root).size;
            let b = load::start_board(t)->Ok_0;
            let (black, white, gone) = (
                lists(root, "AB"@, c),
                lists(root, "AW"@, c),
                lists(root, "AE"@, c),
            );
            &&& b.size == size
            &&& b.here().depth == 0
            &&& b.here().grid[c.idx(size)] == if gone {
                None
            } else if black {
                Some(Stone::Black)
            } else if white {
                Some(Stone::White)
            } else {
                None
            }
            &&& info::info_in(root).initial_player matches Some(p) ==> b.to_play() == p
            &&& info::info_in(root).initial_player is None ==> b.to_play() == if root.get(
                "AB"@,
            ) is None && root.get("AW"@) is None {
                Stone::Black
            } else if (root.get("AB"@) matches Some(p) && p.values.len() > 0) || (root.get(
                "AW"@,
            ) matches Some(p) && p.values.len() > 0) {
                Stone::White
            } else {
                Stone::Black
            }
        }),
{
    let root = t.nodes[0];
    let size = info::info_in(root).size;
    lemma_node_points(size, root, "AB"@, c);
    lemma_node_points(size, root, "AW"@, c);
    lemma_node_points(size, root, "AE"@, c);
    let black = tree::node_points(size, root, "AB"@)->Ok_0;
    let white = tree::node_points(size, root, "AW"@)->Ok_0;
    let removed = tree::node_points(size, root, "AE"@)->Ok_0;
    board::laws::law_setup(size, black, white, removed, load::start_board(t)->Ok_0.to_play(), c);
    board::laws::law_setup(size, black, white, removed, Stone::Black, c);
    board::laws::law_setup(size, black, white, removed, Stone::White, c);
}

/// Whether a node lists a point under a name.
pub open spec fn lists(n: NodeView, ident: Seq<char>, c: Coord) -> bool {
    match n.get(ident) {
        Some(p) => exists|k: int|
            0 <= k < p.values.len() && (#[trigger] p.values[k]).len() == 2 && p.values[k][0] as int
                == 'a' as int + c.col() && p.values[k][1] as int == 'a' as int + c.row(),
        None => false,
    }
}

proof fn lemma_node_points(size: Size, n: NodeView, ident: Seq<char>, c: Coord)
    requires
        size.wf(),
    ensures
        tree::node_points(size, n, ident) matches Ok(ps) ==> (ps.contains(c) <==> lists(n, ident, c))
            && (ps.len() > 0 <==> n.get(ident) is Some && n.get(ident)->0.values.len() > 0),
{
    if let Some(p) = n.get(ident) {
        law_points_one_by_one(size, p.ident, p.values);
        if let Ok(ps) = tree::points_in(size, p.ident, p.values) {
            if ps.contains(c) {
                let k = choose|k: int| 0 <= k < ps.len() && ps[k] == c;
                assert(p.values[k].len() == 2);
            }
            if lists(n, ident, c) {
                let k = choose|k: int|
                    0 <= k < p.values.len() && (#[trigger] p.values[k]).len() == 2
                        && p.values[k][0] as int == 'a' as int + c.col() && p.values[k][1] as int
                        == 'a' as int + c.row();
                assert(ps[k].col() == c.col() && ps[k].row() == c.row());
                coord::lemma_coord_at_self(ps[k]);
                coord::lemma_coord_at_self(c);
                assert(ps[k] == c);
            }
        }
    }
}

/// Loading keeps the comment of a move for the position after it, and the properties that it does
/// not understand; what was kept for other positions stays.
pub proof fn law_load_keeps_notes(
    st: load::LoadView,
    n: NodeView,
    label: Option<Seq<char>>,
    h: u64,
)
    requires
        load::played_node(st.board, n) matches Ok(w) && w is Some,
    ensures
        ({
            let b = load::played_node(st.board, n)->Ok_0->0;
            let (w, on) = load::after_node(st, n, label);
            &&& on
            &&& w.board == b
            &&& said(n, "C"@) matches Some(c) ==> w.comments.contains_pair(load::sig_here(b), c)
            &&& h != load::sig_here(b) || said(n, "C"@) is None ==> (w.comments.contains_key(h)
                <==> st.comments.contains_key(h)) && (st.comments.contains_key(h) ==> w.comments[h]
                == st.comments[h])
            &&& load::kept_props(n.props).len() > 0 ==> w.extras.contains_pair(
                load::sig_here(b),
                load::kept_props(n.props),
            )
            &&& h != load::sig_here(b) ==> (w.extras.contains_key(h) <==> st.extras.contains_key(h))
                && (st.extras.contains_key(h) ==> w.extras[h] == st.extras[h])
            &&& w.partial == st.partial
            &&& w.orphans == st.orphans
            &&& w.dropped == st.dropped
        }),
{
}

/// A move that cannot be played ends its line: the board stays as it was, and the game counts as
/// loaded in part exactly where the line is the main one. A node without a move changes no board.
pub proof fn law_load_stops_at_a_bad_move(
    st: load::LoadView,
    n: NodeView,
    label: Option<Seq<char>>,
)
    ensures
        load::played_node(st.board, n) is Err ==> {
            let (w, on) = load::after_node(st, n, label);
            &&& !on
            &&& w.board == st.board
            &&& w.comments == st.comments
            &&& w.extras == st.extras
            &&& w.partial <==> st.partial || label is None
            &&& w.warnings.len() > st.warnings.len()
        },
        load::played_node(st.board, n) matches Ok(None) ==> {
            let (w, on) = load::after_node(st, n, label);
            &&& on
            &&& w.board == st.board
            &&& w.comments == st.comments
            &&& w.extras == st.extras
            &&& w.partial == st.partial
            &&& said(n, "C"@) is None ==> w.dropped == st.dropped
            &&& said(n, "C"@) is Some && st.dropped < usize::MAX ==> w.dropped == st.dropped + 1
        },
{
}

// ---- what saving writes ----

/// Saving writes a move with the letter of its side and the letters of its point, column first, a
/// pass with an empty value; the comment follows under `C`.
pub proof fn law_saved_move(r: RecordView, sig: u64, meta: Option<MetaView>)
    requires
        r.action matches Action::Place(at) ==> at.wf(),
    ensures
        ({
            let n = save::move_node(r, sig, meta);
            &&& n.props.len() > 0
            &&& n.props[0].ident == if r.player == Stone::Black {
                seq!['B']
            } else {
                seq!['W']
            }
            &&& n.props[0].values.len() == 1
            &&& r.action == Action::Pass ==> n.props[0].values[0].len() == 0
            &&& r.action matches Action::Place(at) ==> n.props[0].values[0].len() == 2
                && n.props[0].values[0][0] as int == 'a' as int + at.col()
                && n.props[0].values[0][1] as int == 'a' as int + at.row()
            &&& meta matches Some(m) ==> (m.comments.contains_key(sig) && m.comments[sig].len() > 0
                ==> n.props.len() > 1 && n.props[1].ident == seq!['C'] && n.props[1].values
                == seq![m.comments[sig]])
        }),
{
    reveal_strlit("B");
    reveal_strlit("W");
    reveal_strlit("C");
    assert("B"@ =~= seq!['B']);
    assert("W"@ =~= seq!['W']);
    assert("C"@ =~= seq!['C']);
    if let Action::Place(at) = r.action {
        coord::law_sgf_text(at);
    }
}

/// Saving writes the variations in their order, each starting with its move; a single one goes on in
/// the same chain.
pub proof fn law_saved_variations_in_order(
    nodes: Seq<board::NodeView>,
    id: usize,
    sig: u64,
    meta: Option<MetaView>,
    i: int,
)
    requires
        0 <= i < nodes[id as int].children.len(),
        save::deeper(nodes, id, nodes[id as int].children[i]),
    ensures
        ({
            let kids = nodes[id as int].children;
            let t = save::below(nodes, id, sig, meta);
            let r = nodes[kids[i] as int].record->0;
            let first = save::move_node(r, load::mixed_move(sig, r), meta);
            &&& kids.len() == 1 ==> t.nodes.len() > 0 && t.nodes[0] == first
            &&& kids.len() > 1 ==> t.nodes.len() == 0 && t.children.len() == kids.len()
                && t.children[i].nodes.len() > 0 && t.children[i].nodes[0] == first
        }),
{
    let kids = nodes[id as int].children;
    let b = save::branch(nodes, kids[i], sig, meta);
    assert(b.nodes.len() > 0);
    if kids.len() > 1 {
        assert(save::below(nodes, id, sig, meta).children[i] == b);
    }
}

/// Saving writes what is known of the game under names of its own.
pub proof fn law_saved_information(b: BoardView, m: MetaView)
    ensures
        m.info.player_black matches Some(v) ==> (v.len() > 0 ==> save::root_node(b, Some(m)).props.contains(
            (PropView { ident: "PB"@, values: seq![v] }),
        )),
        m.info.player_white matches Some(v) ==> (v.len() > 0 ==> save::root_node(b, Some(m)).props.contains(
            (PropView { ident: "PW"@, values: seq![v] }),
        )),
        m.info.rank_black matches Some(v) ==> (v.len() > 0 ==> save::root_node(b, Some(m)).props.contains(
            (PropView { ident: "BR"@, values: seq![v] }),
        )),
        m.info.rank_white matches Some(v) ==> (v.len() > 0 ==> save::root_node(b, Some(m)).props.contains(
            (PropView { ident: "WR"@, values: seq![v] }),
        )),
        m.info.team_black matches Some(v) ==> (v.len() > 0 ==> save::root_node(b, Some(m)).props.contains(
            (PropView { ident: "BT"@, values: seq![v] }),
        )),
        m.info.team_white matches Some(v) ==> (v.len() > 0 ==> save::root_node(b, Some(m)).props.contains(
            (PropView { ident: "WT"@, values: seq![v] }),
        )),
        m.info.result matches Some(v) ==> (v.len() > 0 ==> save::root_node(b, Some(m)).props.contains(
            (PropView { ident: "RE"@, values: seq![v] }),
        )),
        m.info.date matches Some(v) ==> (v.len() > 0 ==> save::root_node(b, Some(m)).props.contains(
            (PropView { ident: "DT"@, values: seq![v] }),
        )),
        m.info.event matches Some(v) ==> (v.len() > 0 ==> save::root_node(b, Some(m)).props.contains(
            (PropView { ident: "EV"@, values: seq![v] }),
        )),
        m.info.round matches Some(v) ==> (v.len() > 0 ==> save::root_node(b, Some(m)).props.contains(
            (PropView { ident: "RO"@, values: seq![v] }),
        )),
        m.info.place matches Some(v) ==> (v.len() > 0 ==> save::root_node(b, Some(m)).props.contains(
            (PropView { ident: "PC"@, values: seq![v] }),
        )),
        m.info.game_name matches Some(v) ==> (v.len() > 0 ==> save::root_node(b, Some(m)).props.contains(
            (PropView { ident: "GN"@, values: seq![v] }),
        )),
        m.info.rules matches Some(v) ==> (v.len() > 0 ==> save::root_node(b, Some(m)).props.contains(
            (PropView { ident: "RU"@, values: seq![v] }),
        )),
        m.info.time_limit matches Some(v) ==> (v.len() > 0 ==> save::root_node(b, Some(m)).props.contains(
            (PropView { ident: "TM"@, values: seq![v] }),
        )),
        m.info.overtime matches Some(v) ==> (v.len() > 0 ==> save::root_node(b, Some(m)).props.contains(
            (PropView { ident: "OT"@, values: seq![v] }),
        )),
        m.info.root_comment matches Some(v) ==> (v.len() > 0 ==> save::root_node(b, Some(m)).props.contains(
            (PropView { ident: "C"@, values: seq![v] }),
        )),
        m.info.komi matches Some(k) ==> save::root_node(b, Some(m)).props.contains(
            (PropView { ident: "KM"@, values: seq![info::komi_text(k)] }),
        ),
        m.info.handicap > 1 ==> save::root_node(b, Some(m)).props.contains(
            (PropView { ident: "HA"@, values: seq![text::decimal(m.info.handicap as nat)] }),
        ),
        save::root_node(b, Some(m)).props.contains(
            (PropView { ident: "SZ"@, values: seq![text::decimal(b.size.side())] }),
        ),
{
    let what = m.info;
    let root = save::root_node(b, Some(m)).props;
    let g = save::general_props(b.size);
    let s = save::start_props(what, save::first_player(b, Some(m)), save::usual_first(b));
    let p = save::people_props(what);
    let e = save::event_props(what);
    let t = save::terms_props(what);
    assert(root == g + (s + p + e + t) + save::points_prop("AB"@, save::setup_stones(b, Stone::Black))
        + save::points_prop("AW"@, save::setup_stones(b, Stone::White)) + save::extras_for(
        Some(m),
        load::SIG_INIT,
    ));
    assert forall|x: PropView| s.contains(x) || p.contains(x) || e.contains(x) || t.contains(
        x,
    ) || g.contains(x) implies #[trigger] root.contains(x) by {
        lemma_in_sum(s, p, x);
        lemma_in_sum(s + p, e, x);
        lemma_in_sum(s + p + e, t, x);
        lemma_in_sum(g, s + p + e + t, x);
        let a = save::points_prop("AB"@, save::setup_stones(b, Stone::Black));
        let w = save::points_prop("AW"@, save::setup_stones(b, Stone::White));
        lemma_in_sum(g + (s + p + e + t), a, x);
        lemma_in_sum(g + (s + p + e + t) + a, w, x);
        lemma_in_sum(
            g + (s + p + e + t) + a + w,
            save::extras_for(Some(m), load::SIG_INIT),
            x,
        );
    }
    assert(g[4] == (PropView { ident: "SZ"@, values: seq![text::decimal(b.size.side())] }));
    assert(g.contains(g[4]));
    if let Some(k) = what.komi {
        assert(s[0] == (PropView { ident: "KM"@, values: seq![info::komi_text(k)] }));
        assert(s.contains(s[0]));
    }
    if what.handicap > 1 {
        let j: int = if what.komi is Some {
            1
        } else {
            0
        };
        assert(s[j] == (PropView {
            ident: "HA"@,
            values: seq![text::decimal(what.handicap as nat)],
        }));
        assert(s.contains(s[j]));
    }
    lemma_six(
        p,
        save::text_prop("PB"@, what.player_black),
        save::text_prop("PW"@, what.player_white),
        save::text_prop("BR"@, what.rank_black),
        save::text_prop("WR"@, what.rank_white),
        save::text_prop("BT"@, what.team_black),
        save::text_prop("WT"@, what.team_white),
    );
    lemma_six(
        e,
        save::text_prop("RE"@, what.result),
        save::text_prop("DT"@, what.date),
        save::text_prop("EV"@, what.event),
        save::text_prop("RO"@, what.round),
        save::text_prop("PC"@, what.place),
        save::text_prop("GN"@, what.game_name),
    );
    let none = Seq::<PropView>::empty();
    assert(t =~= save::text_prop("RU"@, what.rules) + save::text_prop("TM"@, what.time_limit)
        + save::text_prop("OT"@, what.overtime) + save::text_prop("C"@, what.root_comment) + none
        + none);
    lemma_six(
        t,
        save::text_prop("RU"@, what.rules),
        save::text_prop("TM"@, what.time_limit),
        save::text_prop("OT"@, what.overtime),
        save::text_prop("C"@, what.root_comment),
        none,
        none,
    );
    lemma_text_prop("PB"@, what.player_black);
    lemma_text_prop("PW"@, what.player_white);
    lemma_text_prop("BR"@, what.rank_black);
    lemma_text_prop("WR"@, what.rank_white);
    lemma_text_prop("BT"@, what.team_black);
    lemma_text_prop("WT"@, what.team_white);
    lemma_text_prop("RE"@, what.result);
    lemma_text_prop("DT"@, what.date);
    lemma_text_prop("EV"@, what.event);
    lemma_text_prop("RO"@, what.round);
    lemma_text_prop("PC"@, what.place);
    lemma_text_prop("GN"@, what.game_name);
    lemma_text_prop("RU"@, what.rules);
    lemma_text_prop("TM"@, what.time_limit);
    lemma_text_prop("OT"@, what.overtime);
    lemma_text_prop("C"@, what.root_comment);
}

proof fn lemma_text_prop(ident: Seq<char>, v: Option<Seq<char>>)
    ensures
        v matches Some(x) ==> (x.len() > 0 ==> save::text_prop(ident, v).contains(
            (PropView { ident, values: seq![x] }),
        )),
{
    if let Some(x) = v {
        if x.len() > 0 {
            assert(save::text_prop(ident, v)[0] == (PropView { ident, values: seq![x] }));
        }
    }
}

proof fn lemma_in_sum(a: Seq<PropView>, b: Seq<PropView>, x: PropView)
    ensures
        (a + b).contains(x) <==> a.contains(x) || b.contains(x),
{
    if a.contains(x) {
        let i = choose|i: int| 0 <= i < a.len() && a[i] == x;
        assert((a + b)[i] == x);
    }
    if b.contains(x) {
        let i = choose|i: int| 0 <= i < b.len() && b[i] == x;
        assert((a + b)[a.len() + i] == x);
    }
    if (a + b).contains(x) {
        let i = choose|i: int| 0 <= i < (a + b).len() && (a + b)[i] == x;
        if i < a.len() {
            assert(a[i] == x);
        } else {
            assert(b[i - a.len()] == x);
        }
    }
}

proof fn lemma_six(
    all: Seq<PropView>,
    a: Seq<PropView>,
    b: Seq<PropView>,
    c: Seq<PropView>,
    d: Seq<PropView>,
    e: Seq<PropView>,
    f: Seq<PropView>,
)
    requires
        all == a + b + c + d + e + f,
    ensures
        forall|x: PropView|
            #![trigger all.contains(x)]
            #![trigger a.contains(x)]
            #![trigger b.contains(x)]
            #![trigger c.contains(x)]
            #![trigger d.contains(x)]
            #![trigger e.contains(x)]
            #![trigger f.contains(x)]
            a.contains(x) || b.contains(x) || c.contains(x) || d.contains(x) || e.contains(x)
                || f.contains(x) ==> all.contains(x),
{
    assert forall|x: PropView|
        #![trigger all.contains(x)]
        #![trigger a.contains(x)]
        #![trigger b.contains(x)]
        #![trigger c.contains(x)]
        #![trigger d.contains(x)]
        #![trigger e.contains(x)]
        #![trigger f.contains(x)]
        a.contains(x) || b.contains(x) || c.contains(x) || d.contains(x) || e.contains(x)
            || f.contains(x) implies all.contains(x) by {
        lemma_in_sum(a, b, x);
        lemma_in_sum(a + b, c, x);
        lemma_in_sum(a + b + c, d, x);
        lemma_in_sum(a + b + c + d, e, x);
        lemma_in_sum(a + b + c + d + e, f, x);
    }
}

/// Saving lists exactly the points of the starting position that hold a stone of the colour.
pub proof fn law_saved_stones(b: BoardView, color: Stone, c: Coord)
    requires
        b.size.wf(),
        c.on(b.size),
        b.nodes[0].grid.len() == b.size.points(),
    ensures
        save::setup_stones(b, color).contains(c) <==> b.nodes[0].grid[c.idx(b.size)] == Some(color),
{
    coord::lemma_idx_range(c, b.size);
    lemma_stones_of(b.size, b.nodes[0].grid, color, b.size.points() as int, c);
}

proof fn lemma_stones_of(size: Size, grid: Seq<Option<Stone>>, color: Stone, i: int, c: Coord)
    requires
        size.wf(),
        c.on(size),
        grid.len() == size.points(),
        0 <= i <= grid.len(),
    ensures
        save::stones_of(size, grid, color, i).contains(c) <==> c.idx(size) < i && grid[c.idx(size)]
            == Some(color),
    decreases i,
{
    coord::lemma_idx_range(c, size);
    if i > 0 {
        lemma_stones_of(size, grid, color, i - 1, c);
        let front = save::stones_of(size, grid, color, i - 1);
        let d = coord::point_at(size, i - 1);
        coord::lemma_point_at(size, i - 1);
        if c.idx(size) == i - 1 {
            coord::lemma_idx_injective(c, d, size);
        }
        if grid[i - 1] == Some(color) {
            if front.contains(c) {
                let k = choose|k: int| 0 <= k < front.len() && front[k] == c;
                assert(front.push(d)[k] == c);
            }
            if front.push(d).contains(c) {
                let k = choose|k: int| 0 <= k < front.push(d).len() && front.push(d)[k] == c;
                if k < front.len() {
                    assert(front[k] == c);
                }
            }
            assert(front.push(d)[front.len() as int] == d);
        }
    }
}

/// The model of what is known of a game shows each field as it is.
pub proof fn law_information_model(g: info::GameInfo)
    ensures
        g@.size == g.size,
        g@.komi == info::opt_text(g.komi),
        g@.handicap == g.handicap,
        g@.initial_player == g.initial_player,
        g@.player_black == info::opt_text(g.player_black),
        g@.player_white == info::opt_text(g.player_white),
        g@.rank_black == info::opt_text(g.rank_black),
        g@.rank_white == info::opt_text(g.rank_white),
        g@.team_black == info::opt_text(g.team_black),
        g@.team_white == info::opt_text(g.team_white),
        g@.result == info::opt_text(g.result),
        g@.date == info::opt_text(g.date),
        g@.event == info::opt_text(g.event),
        g@.round == info::opt_text(g.round),
        g@.place == info::opt_text(g.place),
        g@.game_name == info::opt_text(g.game_name),
        g@.rules == info::opt_text(g.rules),
        g@.time_limit == info::opt_text(g.time_limit),
        g@.overtime == info::opt_text(g.overtime),
        g@.application == info::opt_text(g.application),
        g@.charset == info::opt_text(g.charset),
        g@.root_comment == info::opt_text(g.root_comment),
        g@.format == g.format,
        g@.result_block == info::opt_text(g.result_block),
{
}

// ---- the text of a record ----

/// Values are written one after the other, each between brackets; a closing bracket or a backslash
/// in one has a backslash before it, and nothing else is changed.
pub proof fn law_values_are_written(a: Seq<Seq<char>>, v: Seq<char>, c: char)
    ensures
        model::written_values(Seq::empty()) == Seq::<char>::empty(),
        model::written_values(a.push(v)) == model::written_values(a) + seq!['['] + model::escaped(v)
            + seq![']'],
        model::escaped(Seq::empty()) == Seq::<char>::empty(),
        model::escaped(v.push(c)) == if c == ']' || c == '\\' {
            model::escaped(v).push('\\').push(c)
        } else {
            model::escaped(v).push(c)
        },
    decreases a.len(), v.len(),
{
    reveal_with_fuel(model::written_values, 2);
    reveal_with_fuel(model::escaped, 2);
    if v.len() > 0 {
        let w = v.skip(1);
        law_values_are_written(Seq::empty(), w, c);
        assert(v.push(c).skip(1) =~= w.push(c));
        assert(v.push(c)[0] == v[0]);
    } else {
        assert(v.push(c).skip(1) =~= Seq::empty());
    }
    if a.len() > 0 {
        let b = a.skip(1);
        law_values_are_written(b, v, c);
        assert(a.push(v).skip(1) =~= b.push(v));
        assert(a.push(v)[0] == a[0]);
    } else {
        assert(a.push(v).skip(1) =~= Seq::empty());
    }
    assert(model::escaped(v.push(c)) =~= if c == ']' || c == '\\' {
        model::escaped(v).push('\\').push(c)
    } else {
        model::escaped(v).push(c)
    });
    assert(model::written_values(a.push(v)) =~= model::written_values(a) + seq!['[']
        + model::escaped(v) + seq![']']);
}

/// Properties are written one after the other, each as its name and its values.
pub proof fn law_properties_are_written(a: Seq<PropView>, p: PropView)
    ensures
        model::written_props(Seq::empty()) == Seq::<char>::empty(),
        model::written_props(a.push(p)) == model::written_props(a) + p.ident
            + model::written_values(p.values),
    decreases a.len(),
{
    reveal_with_fuel(model::written_props, 2);
    if a.len() > 0 {
        law_properties_are_written(a.skip(1), p);
        assert(a.push(p).skip(1) =~= a.skip(1).push(p));
        assert(a.push(p)[0] == a[0]);
    } else {
        assert(a.push(p).skip(1) =~= Seq::empty());
    }
    assert(model::written_props(a.push(p)) =~= model::written_props(a) + p.ident
        + model::written_values(p.values));
}

/// Nodes are written one after the other, each behind a semicolon.
pub proof fn law_nodes_are_written(a: Seq<NodeView>, n: NodeView)
    ensures
        model::written_nodes(Seq::empty()) == Seq::<char>::empty(),
        model::written_nodes(a.push(n)) == model::written_nodes(a) + seq![';']
            + model::written_props(n.props),
    decreases a.len(),
{
    reveal_with_fuel(model::written_nodes, 2);
    if a.len() > 0 {
        law_nodes_are_written(a.skip(1), n);
        assert(a.push(n).skip(1) =~= a.skip(1).push(n));
        assert(a.push(n)[0] == a[0]);
    } else {
        assert(a.push(n).skip(1) =~= Seq::empty());
    }
    assert(model::written_nodes(a.push(n)) =~= model::written_nodes(a) + seq![';']
        + model::written_props(n.props));
}

/// A tree is written between parentheses: its nodes, then its variations in order.
pub proof fn law_trees_are_written(nodes: Seq<NodeView>, a: Seq<TreeView>, t: TreeView)
    ensures
        model::written(TreeView { nodes, children: Seq::empty() }) == seq!['(']
            + model::written_nodes(nodes) + seq![')'],
        model::written(TreeView { nodes, children: a.push(t) }).drop_last() == model::written(
            TreeView { nodes, children: a },
        ).drop_last() + model::written(t),
        model::written(TreeView { nodes, children: a.push(t) }).last() == ')',
{
    lemma_trees_written(a, t);
    let (e, f, g) = (
        TreeView { nodes, children: Seq::<TreeView>::empty() },
        TreeView { nodes, children: a },
        TreeView { nodes, children: a.push(t) },
    );
    let head = seq!['('] + model::written_nodes(nodes);
    assert(model::written_all(Seq::<TreeView>::empty()) =~= Seq::empty());
    assert(model::written(e) =~= head + seq![')']);
    assert(model::written(f) == head + model::written_all(a) + seq![')']);
    assert(model::written(g) == head + model::written_all(a.push(t)) + seq![')']);
    assert(model::written(f).drop_last() =~= head + model::written_all(a));
    assert(model::written(g).drop_last() =~= head + model::written_all(a) + model::written(t));
}

proof fn lemma_trees_written(a: Seq<TreeView>, t: TreeView)
    ensures
        model::written_all(a.push(t)) == model::written_all(a) + model::written(t),
    decreases a.len(),
{
    reveal_with_fuel(model::written_all, 2);
    if a.len() > 0 {
        lemma_trees_written(a.skip(1), t);
        assert(a.push(t).skip(1) =~= a.skip(1).push(t));
        assert(a.push(t)[0] == a[0]);
    } else {
        assert(a.push(t).skip(1) =~= Seq::empty());
        assert(a.push(t)[0] == t);
    }
    assert(model::written_all(a.push(t)) =~= model::written_all(a) + model::written(t));
}

/// Whether a text holds neither a closing bracket nor a backslash.
pub open spec fn bare(v: Seq<char>) -> bool {
    forall|i: int| 0 <= i < v.len() ==> #[trigger] v[i] != ']' && v[i] != '\\'
}

proof fn lemma_bare_run(s: Seq<char>, p: int, acc: Seq<char>, v: Seq<char>)
    requires
        bare(v),
        0 <= p,
        p + v.len() <= s.len(),
        s.subrange(p, p + v.len()) == v,
    ensures
        model::value_rest(s, p, acc) == model::value_rest(s, p + v.len(), acc + v),
    decreases v.len(),
{
    if v.len() == 0 {
        assert(acc + v =~= acc);
    } else {
        let w = v.skip(1);
        assert(s[p] == s.subrange(p, p + v.len())[0]);
        assert(s.subrange(p + 1, p + 1 + w.len()) =~= w) by {
            assert forall|i: int| 0 <= i < w.len() implies s.subrange(p + 1, p + 1 + w.len())[i]
                == w[i] by {
                assert(s.subrange(p, p + v.len())[i + 1] == v[i + 1]);
            }
        }
        assert forall|i: int| 0 <= i < w.len() implies #[trigger] w[i] != ']' && w[i] != '\\' by {
            assert(w[i] == v[i + 1]);
        }
        lemma_bare_run(s, p + 1, acc.push(v[0]), w);
        assert(acc.push(v[0]) + w =~= acc + v);
    }
}

/// A value reads as what stands before the bracket that closes it, whatever stands around it.
pub proof fn law_bare_value_is_read(before: Seq<char>, v: Seq<char>, behind: Seq<char>)
    requires
        bare(v),
    ensures
        ({
            let s = before + v + seq![']'] + behind;
            let p = before.len() as int;
            model::value_rest(s, p, Seq::empty()) == Ok::<(Seq<char>, int), ErrorView>(
                (v, p + v.len() + 1),
            )
        }),
{
    let s = before + v + seq![']'] + behind;
    let p = before.len() as int;
    assert(s.subrange(p, p + v.len()) =~= v);
    lemma_bare_run(s, p, Seq::empty(), v);
    assert(s[p + v.len()] == ']');
    assert(Seq::<char>::empty() + v =~= v);
}

/// A backslash in a value takes the character behind it as it is; a line break behind it is left
/// out, and so is a pair of carriage return and line feed.
pub proof fn law_backslash_in_a_value(
    before: Seq<char>,
    v: Seq<char>,
    c: char,
    w: Seq<char>,
    behind: Seq<char>,
)
    requires
        bare(v),
        bare(w),
        c == '\r' ==> w.len() == 0 || w[0] != '\n',
    ensures
        ({
            let s = before + v + seq!['\\', c] + w + seq![']'] + behind;
            let p = before.len() as int;
            let read = if c == '\n' || c == '\r' {
                v + w
            } else {
                v.push(c) + w
            };
            model::value_rest(s, p, Seq::empty()) == Ok::<(Seq<char>, int), ErrorView>(
                (read, p + v.len() + 2 + w.len() + 1),
            )
        }),
        ({
            let s = before + v + seq!['\\', '\r', '\n'] + w + seq![']'] + behind;
            let p = before.len() as int;
            model::value_rest(s, p, Seq::empty()) == Ok::<(Seq<char>, int), ErrorView>(
                (v + w, p + v.len() + 3 + w.len() + 1),
            )
        }),
{
    let p = before.len() as int;
    let n = v.len() as int;
    let m = w.len() as int;
    let s = before + v + seq!['\\', c] + w + seq![']'] + behind;
    assert(s.subrange(p, p + n) =~= v);
    lemma_bare_run(s, p, Seq::empty(), v);
    assert(Seq::<char>::empty() + v =~= v);
    assert(s[p + n] == '\\' && s[p + n + 1] == c);
    assert(s.subrange(p + n + 2, p + n + 2 + m) =~= w);
    assert(s[p + n + 2 + m] == ']');
    assert(m > 0 ==> s[p + n + 2] == w[0]);
    lemma_bare_run(s, p + n + 2, v, w);
    lemma_bare_run(s, p + n + 2, v.push(c), w);
    let t = before + v + seq!['\\', '\r', '\n'] + w + seq![']'] + behind;
    assert(t.subrange(p, p + n) =~= v);
    lemma_bare_run(t, p, Seq::empty(), v);
    assert(t[p + n] == '\\' && t[p + n + 1] == '\r' && t[p + n + 2] == '\n');
    assert(t.subrange(p + n + 3, p + n + 3 + m) =~= w);
    assert(t[p + n + 3 + m] == ']');
    lemma_bare_run(t, p + n + 3, v, w);
}

/// Blanks are passed over, up to the first character that is none.
pub proof fn law_blanks_are_passed_over(s: Seq<char>, p: int)
    requires
        0 <= p <= s.len(),
    ensures
        ({
            let q = model::skip_blank(s, p);
            &&& p <= q <= s.len()
            &&& q < s.len() ==> !model::is_blank(s[q])
            &&& forall|i: int| p <= i < q ==> model::is_blank(#[trigger] s[i])
        }),
    decreases s.len() - p,
{
    if p < s.len() && model::is_blank(s[p]) {
        law_blanks_are_passed_over(s, p + 1);
    }
}

/// The place of a character: the first stands at byte 0 in line 1, column 1; each one behind it is
/// as many bytes further as the one before it takes in UTF-8, and one column, or the first of the
/// next line behind a line feed.
pub proof fn law_place_in_the_text(s: Seq<char>, p: int)
    requires
        0 <= p < s.len(),
        model::bytes_before(s, p + 1) < usize::MAX,
        p + 2 < usize::MAX,
    ensures
        model::place(s, 0).offset == 0 && model::place(s, 0).line == 1 && model::place(s, 0).col
            == 1,
        ({
            let (here, next) = (model::place(s, p), model::place(s, p + 1));
            &&& next.offset == here.offset + vstd::utf8::encode_scalar(s[p] as u32).len()
            &&& s[p] == '\n' ==> next.line == here.line + 1 && next.col == 1
            &&& s[p] != '\n' ==> next.line == here.line && next.col == here.col + 1
        }),
{
    lemma_breaks(s, p + 1);
    lemma_line_start(s, p);
    lemma_utf8_len(s[p]);
}

proof fn lemma_utf8_len(c: char)
    ensures
        model::char_bytes(c) == vstd::utf8::encode_scalar(c as u32).len(),
{
}

proof fn lemma_breaks(s: Seq<char>, p: int)
    requires
        0 <= p <= s.len(),
    ensures
        model::breaks_before(s, p) <= p,
        p > 0 ==> model::breaks_before(s, p - 1) <= model::breaks_before(s, p),
    decreases p,
{
    if p > 0 {
        lemma_breaks(s, p - 1);
    }
}

proof fn lemma_line_start(s: Seq<char>, p: int)
    requires
        0 <= p <= s.len(),
    ensures
        0 <= model::line_start(s, p) <= p,
    decreases p,
{
    if p > 0 {
        lemma_line_start(s, p - 1);
    }
}

// ---- the bytes of a record ----

/// A mark of UTF-8 before a text does not matter.
pub proof fn law_mark_does_not_matter(b: Seq<u8>)
    requires
        b.len() < 3 || b[0] != 0xEF || b[1] != 0xBB || b[2] != 0xBF,
    ensures
        super::unmarked(seq![0xEFu8, 0xBB, 0xBF] + b) == b,
        super::decoded(seq![0xEFu8, 0xBB, 0xBF] + b) == super::decoded(b),
{
    let c = seq![0xEFu8, 0xBB, 0xBF] + b;
    assert(c.skip(3) =~= b);
}

/// Bytes are read as the text of which they are the UTF-8; bytes that are none are refused, and so
/// is UTF-16, whatever else stands in it.
pub proof fn law_bytes_are_read_as_text(b: Seq<u8>)
    ensures
        super::decoded(b) matches Ok(s) ==> vstd::utf8::encode_utf8(s) == super::unmarked(b),
        !vstd::utf8::valid_utf8(super::unmarked(b)) ==> super::decoded(b) is Err,
        b.len() >= 2 && (b[0] == 0xFF && b[1] == 0xFE || b[0] == 0xFE && b[1] == 0xFF)
            ==> super::decoded(b) is Err,
{
    if vstd::utf8::valid_utf8(super::unmarked(b)) {
        vstd::utf8::decode_utf8_encode_utf8(super::unmarked(b));
    }
}

proof fn lemma_bracket(b: Seq<u8>, i: int, at: int, end: int)
    requires
        0 <= i <= at < b.len(),
        at < end,
        b[at] == 0x5D,
        forall|k: int| i <= k < at ==> #[trigger] b[k] != 0x5D,
    ensures
        super::bracket_from(b, i, end) == Some(at),
    decreases at - i,
{
    if i < at {
        lemma_bracket(b, i + 1, at, end);
    }
}

proof fn lemma_charset(b: Seq<u8>, i: int, at: int, close: int)
    requires
        0 <= i <= at,
        super::charset_at(b, at),
        forall|k: int| 0 <= k < at ==> !#[trigger] super::charset_at(b, k),
        super::bracket_from(b, at + 3, at + 67) == Some(close),
    ensures
        super::charset_range(b, i) == Some((at + 3, close)),
    decreases at - i,
{
    if i < at {
        assert(!super::charset_at(b, i));
        lemma_charset(b, i + 1, at, close);
    }
}

/// The encoding that a record declares stands in its first `CA[...]`, if it is shorter than 64
/// bytes.
pub proof fn law_declared_encoding(before: Seq<u8>, name: Seq<u8>, behind: Seq<u8>)
    requires
        name.len() < 64,
        forall|i: int| 0 <= i < name.len() ==> #[trigger] name[i] != 0x5D,
        forall|k: int|
            0 <= k < before.len() ==> !#[trigger] super::charset_at(
                with_charset(before, name, behind),
                k,
            ),
    ensures
        super::charset_range(with_charset(before, name, behind), 0) == Some(
            ((before.len() + 3) as int, (before.len() + 3 + name.len()) as int),
        ),
{
    let b = with_charset(before, name, behind);
    let at = before.len() as int;
    let n = name.len() as int;
    assert(b[at] == 0x43 && b[at + 1] == 0x41 && b[at + 2] == 0x5B);
    assert(b[at + 3 + n] == 0x5D);
    assert forall|k: int| at + 3 <= k < at + 3 + n implies #[trigger] b[k] != 0x5D by {
        assert(b[k] == name[k - at - 3]);
    }
    lemma_bracket(b, at + 3, at + 3 + n, at + 67);
    lemma_charset(b, 0, at, at + 3 + n);
}

/// Bytes with a declaration of their encoding.
pub open spec fn with_charset(before: Seq<u8>, name: Seq<u8>, behind: Seq<u8>) -> Seq<u8> {
    before + seq![0x43u8, 0x41, 0x5B] + name + seq![0x5Du8] + behind
}

/// In the name of an encoding neither hyphens nor capital letters matter.
pub proof fn law_name_of_an_encoding(a: Seq<char>, c: char)
    ensures
        super::plain_name(Seq::empty()) == Seq::<char>::empty(),
        super::plain_name(a.push('-')) == super::plain_name(a),
        c != '-' ==> super::plain_name(a.push(c)) == super::plain_name(a).push(
            if 'A' <= c <= 'Z' {
                (c as int + 32) as char
            } else {
                c
            },
        ),
{
    assert(a.push('-').drop_last() =~= a);
    assert(a.push(c).drop_last() =~= a);
    assert(a.push('-').last() == '-');
    assert(a.push(c).last() == c);
}

// ---- what is kept of a node ----

/// A property is kept beside the board unless saving writes it itself: moves, comments, what is
/// known of the game, the size and the stones at the start.
pub proof fn law_properties_that_are_kept(ident: Seq<char>)
    ensures
        load::owned_by_save(ident) <==> (ident == "B"@ || ident == "W"@)
            || (ident == "C"@)
            || (ident == "KM"@ || ident == "HA"@ || ident == "PL"@)
            || (ident == "PB"@ || ident == "PW"@ || ident == "BR"@ || ident == "WR"@ || ident == "BT"@ || ident == "WT"@)
            || (ident == "RE"@ || ident == "DT"@ || ident == "EV"@ || ident == "RO"@ || ident == "PC"@ || ident == "GN"@ || ident == "RU"@ || ident == "TM"@ || ident == "OT"@)
            || (ident == "GM"@ || ident == "FF"@ || ident == "CA"@ || ident == "AP"@ || ident == "SZ"@)
            || (ident == "AB"@ || ident == "AW"@ || ident == "AE"@),
{
}

/// The properties of a node that has no place on the board are counted, whether it holds no move or
/// one that cannot be played.
pub proof fn law_lost_properties_are_counted(
    st: load::LoadView,
    n: NodeView,
    label: Option<Seq<char>>,
)
    requires
        !(load::played_node(st.board, n) matches Ok(Some(_))),
        st.orphans + load::kept_props(n.props).len() <= usize::MAX,
    ensures
        load::after_node(st, n, label).0.orphans == st.orphans + load::kept_props(n.props).len(),
{
}

/// A size can be given as width and height, with a colon between and blanks around; they have to be
/// the same, and one of the three sizes.
pub proof fn law_size_by_width_and_height(root: NodeView, w: Seq<char>, h: Seq<char>, a: nat, b: nat)
    requires
        said(root, "SZ"@) == Some(w + seq![':'] + h),
        forall|i: int| 0 <= i < w.len() ==> #[trigger] w[i] != ':',
        text::parsed_unsigned(text::trimmed(w), 255) == Some(a),
        text::parsed_unsigned(text::trimmed(h), 255) == Some(b),
    ensures
        a == b && (a == 9 || a == 13 || a == 19) ==> info::size_in(root) == Ok::<nat, ErrorView>(a),
        a == b && a != 9 && a != 13 && a != 19 ==> info::size_in(root) is Err,
        a != b ==> info::size_in(root) == Err::<nat, ErrorView>(
            ErrorView {
                kind: super::error::KindView::NonSquareBoard { width: a as u8, height: b as u8 },
                position: None,
            },
        ),
{
    let raw = w + seq![':'] + h;
    assert(raw[w.len() as int] == ':');
    assert forall|k: int| 0 <= k < w.len() implies #[trigger] raw[k] != ':' by {
        assert(raw[k] == w[k]);
    }
    text::lemma_found(raw, ':', 0, w.len() as int);
    assert(raw.take(w.len() as int) =~= w);
    assert(raw.skip((w.len() + 1) as int) =~= h);
    law_size_by_number(root);
}

} // verus!
