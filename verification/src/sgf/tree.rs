//! Game trees: the data, how it is written, and what its properties say.
//!
//! Values are kept decoded and are escaped when written. The order of properties and values is
//! kept, and so are properties that nothing here knows. Rectangles are spread out when a record
//! is read, so none stands in a tree that was read.

use vstd::prelude::*;
use super::error::{ErrorView, KindView, SgfError, SgfErrorKind};
use super::lexer::{escape_value, upper_chars};
use super::model::{self, NodeView, PropView, TreeView};
use crate::board::{coord, Action, Coord, Size, Stone};
use crate::text::{self, chars_of, same_text, string_of, trim};

verus! {

/// A property: its name in upper case, and its decoded values in order.
#[derive(Clone, PartialEq, Eq, Debug)]
pub struct Property {
    /// The name, such as `B` or `AB`.
    pub ident: String,
    /// The values.
    pub values: Vec<String>,
}

/// A node: its properties in order.
#[derive(Clone, PartialEq, Eq, Debug)]
pub struct Node {
    /// The properties.
    pub props: Vec<Property>,
}

/// A game tree: a chain of nodes and the variations after the last of them.
#[derive(PartialEq, Eq, Debug)]
pub struct GameTree {
    /// The chain of nodes.
    pub nodes: Vec<Node>,
    /// The variations.
    pub children: Vec<GameTree>,
}

/// The texts of a list of strings.
pub open spec fn texts(v: Seq<String>) -> Seq<Seq<char>> {
    v.map_values(|s: String| s@)
}

/// The views of a list of properties.
pub open spec fn prop_views(v: Seq<Property>) -> Seq<PropView> {
    v.map_values(|p: Property| p@)
}

/// The views of a list of nodes.
pub open spec fn node_views(v: Seq<Node>) -> Seq<NodeView> {
    v.map_values(|n: Node| n@)
}

/// The views of a list of game trees.
pub open spec fn tree_views(v: Seq<GameTree>) -> Seq<TreeView> {
    v.map_values(|t: GameTree| t@)
}

impl View for Property {
    type V = PropView;

    open spec fn view(&self) -> PropView {
        PropView { ident: self.ident@, values: texts(self.values@) }
    }
}

impl View for Node {
    type V = NodeView;

    open spec fn view(&self) -> NodeView {
        NodeView { props: prop_views(self.props@) }
    }
}

/// The model of a game tree.
pub open spec fn tree_view(t: GameTree) -> TreeView
    decreases t,
{
    TreeView {
        nodes: node_views(t.nodes@),
        children: Seq::new(
            t.children@.len(),
            |i: int|
                if 0 <= i < t.children@.len() {
                    tree_view(t.children@[i])
                } else {
                    arbitrary()
                },
        ),
    }
}

impl View for GameTree {
    type V = TreeView;

    open spec fn view(&self) -> TreeView {
        tree_view(*self)
    }
}

impl Property {
    /// A copy of the property.
    pub fn copy(&self) -> (r: Property)
        ensures
            r@ == self@,
    {
        let mut values: Vec<String> = Vec::new();
        let mut i: usize = 0;
        while i < self.values.len()
            invariant
                i <= self.values@.len(),
                texts(values@) == texts(self.values@).take(i as int),
            decreases self.values@.len() - i,
        {
            let ghost before = values@;
            values.push(self.values[i].clone());
            proof {
                let all = texts(self.values@);
                assert(texts(values@) =~= texts(before).push(self.values@[i as int]@));
                assert(all.take(i + 1) =~= all.take(i as int).push(all[i as int]));
            }
            i += 1;
        }
        assert(texts(self.values@).take(i as int) =~= texts(self.values@));
        let r = Property { ident: self.ident.clone(), values };
        assert(r@ =~= self@);
        r
    }
}

/// A property with one value.
pub fn single_prop(ident: &str, value: &str) -> (r: Property)
    ensures
        r@ == (PropView { ident: ident@, values: seq![value@] }),
{
    let mut values: Vec<String> = Vec::new();
    values.push(value.to_owned());
    let r = Property { ident: ident.to_owned(), values };
    assert(r@.values =~= seq![value@]);
    r
}

impl GameTree {
    /// The first node.
    pub fn root(&self) -> (r: Option<&Node>)
        ensures
            r is Some == (self@.nodes.len() > 0),
            r matches Some(n) ==> n@ == self@.nodes[0],
    {
        if self.nodes.len() > 0 {
            Some(&self.nodes[0])
        } else {
            None
        }
    }

    /// The nodes of the main variation: this tree's nodes, then those of its first variation, and
    /// so on.
    pub fn mainline(&self) -> (r: Vec<&Node>)
        ensures
            r@.map_values(|n: &Node| n@) == main_nodes(self@),
        decreases self,
    {
        let mut out: Vec<&Node> = Vec::new();
        let mut i: usize = 0;
        while i < self.nodes.len()
            invariant
                i <= self.nodes@.len(),
                out@.map_values(|n: &Node| n@) == node_views(self.nodes@).take(i as int),
            decreases self.nodes@.len() - i,
        {
            let ghost before = out@;
            out.push(&self.nodes[i]);
            proof {
                let all = node_views(self.nodes@);
                assert(out@.map_values(|n: &Node| n@) =~= before.map_values(|n: &Node| n@).push(
                    self.nodes@[i as int]@,
                ));
                assert(all.take(i + 1) =~= all.take(i as int).push(all[i as int]));
            }
            i += 1;
        }
        assert(node_views(self.nodes@).take(i as int) =~= self@.nodes);
        if self.children.len() > 0 {
            let mut rest = self.children[0].mainline();
            let ghost (a, b) = (out@, rest@);
            out.append(&mut rest);
            assert(out@.map_values(|n: &Node| n@) =~= a.map_values(|n: &Node| n@)
                + b.map_values(|n: &Node| n@));
        } else {
            assert(main_nodes(self@) =~= self@.nodes);
        }
        out
    }

    /// The SGF text of the tree.
    pub fn write(&self) -> (r: String)
        ensures
            r@ == model::written(self@),
    {
        let mut out = String::new();
        self.write_tree(&mut out);
        assert(out@ =~= model::written(self@));
        out
    }

    fn write_tree(&self, out: &mut String)
        ensures
            final(out)@ == old(out)@ + model::written(self@),
        decreases self,
    {
        let ghost start = out@;
        let ghost t = self@;
        out.push('(');
        let ghost open = out@;
        let mut i: usize = 0;
        assert(t.nodes.skip(0) =~= t.nodes);
        while i < self.nodes.len()
            invariant
                i <= self.nodes@.len(),
                t == self@,
                out@ + model::written_nodes(t.nodes.skip(i as int)) == open + model::written_nodes(
                    t.nodes,
                ),
            decreases self.nodes@.len() - i,
        {
            let ghost before = out@;
            self.nodes[i].write_node(out);
            proof {
                let rest = t.nodes.skip(i as int);
                assert(rest.skip(1) =~= t.nodes.skip(i + 1));
                assert(rest[0] == self.nodes@[i as int]@);
                assert(out@ + model::written_nodes(t.nodes.skip(i + 1)) =~= before + (seq![';']
                    + model::written_props(rest[0].props) + model::written_nodes(
                    t.nodes.skip(i + 1),
                )));
            }
            i += 1;
        }
        assert(out@ =~= open + model::written_nodes(t.nodes));
        let ghost mid = out@;
        let mut k: usize = 0;
        assert(t.children.skip(0) =~= t.children);
        while k < self.children.len()
            invariant
                k <= self.children@.len(),
                t == self@,
                out@ + model::written_all(t.children.skip(k as int)) == mid + model::written_all(
                    t.children,
                ),
            decreases self.children@.len() - k,
        {
            let ghost before = out@;
            self.children[k].write_tree(out);
            proof {
                let rest = t.children.skip(k as int);
                assert(rest.skip(1) =~= t.children.skip(k + 1));
                assert(rest[0] == self.children@[k as int]@);
                assert(out@ + model::written_all(t.children.skip(k + 1)) =~= before + (
                model::written(rest[0]) + model::written_all(t.children.skip(k + 1))));
            }
            k += 1;
        }
        assert(out@ =~= mid + model::written_all(t.children));
        out.push(')');
        assert(out@ =~= start + model::written(t));
    }
}

/// The nodes of the main variation.
pub open spec fn main_nodes(t: TreeView) -> Seq<NodeView>
    decreases t,
{
    if t.children.len() > 0 {
        t.nodes + main_nodes(t.children[0])
    } else {
        t.nodes
    }
}

// ---- properties ----

/// Where the first property named `ident` stands; the number of properties if there is none.
pub open spec fn prop_index(ps: Seq<PropView>, ident: Seq<char>) -> int
    decreases ps.len(),
{
    if ps.len() == 0 || ps[0].ident == ident {
        0
    } else {
        1 + prop_index(ps.skip(1), ident)
    }
}

impl NodeView {
    /// The first property of the given name; its case does not matter.
    pub open spec fn get(self, ident: Seq<char>) -> Option<PropView> {
        let i = prop_index(self.props, model::upper_text(ident));
        if 0 <= i < self.props.len() {
            Some(self.props[i])
        } else {
            None
        }
    }

    /// The first value of the first property of the given name.
    pub open spec fn text(self, ident: Seq<char>) -> Option<Seq<char>> {
        match self.get(ident) {
            Some(p) if p.values.len() > 0 => Some(p.values[0]),
            _ => None,
        }
    }

    /// That value without white space around it.
    pub open spec fn trimmed(self, ident: Seq<char>) -> Option<Seq<char>> {
        match self.text(ident) {
            Some(v) => Some(text::trimmed(v)),
            None => None,
        }
    }
}

/// The colour that a property name moves for.
pub open spec fn mover_of(ident: Seq<char>) -> Option<Stone> {
    if ident == seq!['B'] {
        Some(Stone::Black)
    } else if ident == seq!['W'] {
        Some(Stone::White)
    } else {
        None
    }
}

/// A coordinate error for a property.
pub open spec fn bad_coord_error(ident: Seq<char>, value: Seq<char>) -> ErrorView {
    ErrorView { kind: KindView::BadCoord { ident, value }, position: None }
}

/// A number error for a property.
pub open spec fn bad_number_error(ident: Seq<char>, value: Seq<char>) -> ErrorView {
    ErrorView { kind: KindView::BadNumber { ident, value }, position: None }
}

/// What a property value says of a move: nothing and `tt` are passes, anything else is a point.
pub open spec fn action_of(size: Size, p: PropView) -> Result<Action, ErrorView> {
    let v = if p.values.len() > 0 {
        p.values[0]
    } else {
        Seq::empty()
    };
    if v.len() == 0 || v == seq!['t', 't'] {
        Ok(Action::Pass)
    } else {
        match coord::parsed_sgf(size, v) {
            Ok(c) => Ok(Action::Place(c)),
            Err(_) => Err(bad_coord_error(p.ident, v)),
        }
    }
}

/// The move that the first move property among `ps` makes.
pub open spec fn move_in(size: Size, ps: Seq<PropView>) -> Result<
    Option<(Stone, Action)>,
    ErrorView,
>
    decreases ps.len(),
{
    if ps.len() == 0 {
        Ok(None)
    } else {
        match mover_of(ps[0].ident) {
            None => move_in(size, ps.skip(1)),
            Some(stone) => match action_of(size, ps[0]) {
                Ok(a) => Ok(Some((stone, a))),
                Err(e) => Err(e),
            },
        }
    }
}

/// The points that values name, or the error at the first that names none.
pub open spec fn points_in(size: Size, ident: Seq<char>, vs: Seq<Seq<char>>) -> Result<
    Seq<Coord>,
    ErrorView,
>
    decreases vs.len(),
{
    if vs.len() == 0 {
        Ok(Seq::empty())
    } else {
        match coord::parsed_sgf(size, vs[0]) {
            Err(_) => Err(bad_coord_error(ident, vs[0])),
            Ok(c) => match points_in(size, ident, vs.skip(1)) {
                Ok(rest) => Ok(seq![c] + rest),
                Err(e) => Err(e),
            },
        }
    }
}

/// The points of the property `ident` of a node; none where the property is missing.
pub open spec fn node_points(size: Size, n: NodeView, ident: Seq<char>) -> Result<
    Seq<Coord>,
    ErrorView,
> {
    match n.get(ident) {
        None => Ok(Seq::empty()),
        Some(p) => points_in(size, p.ident, p.values),
    }
}

impl Node {
    fn write_node(&self, out: &mut String)
        ensures
            final(out)@ == old(out)@ + seq![';'] + model::written_props(self@.props),
    {
        out.push(';');
        let ghost start = out@;
        let ghost ps = self@.props;
        let mut i: usize = 0;
        assert(ps.skip(0) =~= ps);
        while i < self.props.len()
            invariant
                i <= self.props@.len(),
                ps == self@.props,
                out@ + model::written_props(ps.skip(i as int)) == start + model::written_props(ps),
            decreases self.props@.len() - i,
        {
            let ghost before = out@;
            let prop = &self.props[i];
            out.append(prop.ident.as_str());
            write_values(&prop.values, out);
            proof {
                let rest = ps.skip(i as int);
                assert(rest.skip(1) =~= ps.skip(i + 1));
                assert(rest[0] == self.props@[i as int]@);
                assert(out@ + model::written_props(ps.skip(i + 1)) =~= before + (rest[0].ident
                    + model::written_values(rest[0].values) + model::written_props(
                    ps.skip(i + 1),
                )));
            }
            i += 1;
        }
        assert(out@ =~= start + model::written_props(ps));
    }

    /// The first property of the given name; its case does not matter.
    pub fn get(&self, ident: &str) -> (r: Option<&Property>)
        ensures
            match self@.get(ident@) {
                Some(p) => r matches Some(q) && q@ == p,
                None => r is None,
            },
    {
        let want = string_of(&upper_chars(&chars_of(ident)));
        let ghost ps = self@.props;
        let mut i: usize = 0;
        assert(ps.skip(0) =~= ps);
        while i < self.props.len()
            invariant
                i <= self.props@.len(),
                ps == self@.props,
                want@ == model::upper_text(ident@),
                prop_index(ps, want@) == i + prop_index(ps.skip(i as int), want@),
            decreases self.props@.len() - i,
        {
            assert(ps.skip(i as int)[0] == self.props@[i as int]@);
            assert(ps.skip(i as int).skip(1) =~= ps.skip(i + 1));
            if same_text(self.props[i].ident.as_str(), want.as_str()) {
                return Some(&self.props[i]);
            }
            i += 1;
        }
        None
    }

    /// The first value of the first property of the given name.
    pub fn text(&self, ident: &str) -> (r: Option<&str>)
        ensures
            match self@.text(ident@) {
                Some(v) => r matches Some(s) && s@ == v,
                None => r is None,
            },
    {
        match self.get(ident) {
            None => None,
            Some(p) => {
                if p.values.len() > 0 {
                    assert(p@.values[0] == p.values@[0]@);
                    Some(p.values[0].as_str())
                } else {
                    None
                }
            },
        }
    }

    /// That value without white space around it.
    pub fn trimmed_text(&self, ident: &str) -> (r: Option<String>)
        ensures
            match self@.trimmed(ident@) {
                Some(v) => r matches Some(s) && s@ == v,
                None => r is None,
            },
    {
        match self.text(ident) {
            None => None,
            Some(v) => Some(string_of(&trim(&chars_of(v)))),
        }
    }

    /// The comment (`C`) without white space around it.
    pub fn comment(&self) -> (r: Option<String>)
        ensures
            match self@.trimmed("C"@) {
                Some(v) => r matches Some(s) && s@ == v,
                None => r is None,
            },
    {
        self.trimmed_text("C")
    }

    /// The node's name (`N`) without white space around it.
    pub fn name(&self) -> (r: Option<String>)
        ensures
            match self@.trimmed("N"@) {
                Some(v) => r matches Some(s) && s@ == v,
                None => r is None,
            },
    {
        self.trimmed_text("N")
    }

    /// The move that the node makes (`B` or `W`, whichever comes first).
    pub fn move_action(&self, size: Size) -> (r: Result<Option<(Stone, Action)>, SgfError>)
        ensures
            match move_in(size, self@.props) {
                Ok(m) => r matches Ok(x) && x == m,
                Err(e) => r matches Err(x) && x@ == e,
            },
    {
        let ghost ps = self@.props;
        let mut i: usize = 0;
        assert(ps.skip(0) =~= ps);
        proof {
            reveal_strlit("B");
            reveal_strlit("W");
            reveal_strlit("");
            reveal_strlit("tt");
            assert("B"@ =~= seq!['B']);
            assert("W"@ =~= seq!['W']);
            assert("tt"@ =~= seq!['t', 't']);
        }
        while i < self.props.len()
            invariant
                i <= self.props@.len(),
                ps == self@.props,
                "B"@ == seq!['B'],
                "W"@ == seq!['W'],
                ""@.len() == 0,
                "tt"@ == seq!['t', 't'],
                move_in(size, ps) == move_in(size, ps.skip(i as int)),
            decreases self.props@.len() - i,
        {
            let prop = &self.props[i];
            assert(ps.skip(i as int)[0] == prop@);
            assert(ps.skip(i as int).skip(1) =~= ps.skip(i + 1));
            let stone = if same_text(prop.ident.as_str(), "B") {
                Some(Stone::Black)
            } else if same_text(prop.ident.as_str(), "W") {
                Some(Stone::White)
            } else {
                None
            };
            if let Some(stone) = stone {
                let value = if prop.values.len() > 0 {
                    assert(prop@.values[0] == prop.values@[0]@);
                    prop.values[0].as_str()
                } else {
                    ""
                };
                assert(prop.values@.len() == 0 ==> value@ =~= Seq::<char>::empty());
                if same_text(value, "") || same_text(value, "tt") {
                    assert(value@ == ""@ ==> value@.len() == 0);
                    return Ok(Some((stone, Action::Pass)));
                }
                assert(value@.len() == 0 ==> value@ =~= ""@);
                return match Coord::from_sgf(size, value) {
                    Ok(c) => Ok(Some((stone, Action::Place(c)))),
                    Err(_) => Err(bad_coord(prop.ident.as_str(), value)),
                };
            }
            i += 1;
        }
        Ok(None)
    }

    /// The points of a setup property (`AB`, `AW` or `AE`).
    pub fn coords(&self, ident: &str, size: Size) -> (r: Result<Vec<Coord>, SgfError>)
        ensures
            match node_points(size, self@, ident@) {
                Ok(s) => r matches Ok(v) && v@ == s,
                Err(e) => r matches Err(x) && x@ == e,
            },
    {
        let mut out: Vec<Coord> = Vec::new();
        if let Some(prop) = self.get(ident) {
            let ghost vs = prop@.values;
            let mut i: usize = 0;
            assert(vs.skip(0) =~= vs);
            proof {
                match points_in(size, prop.ident@, vs) {
                    Ok(rest) => assert(out@ + rest =~= rest),
                    Err(e) => {},
                }
            }
            while i < prop.values.len()
                invariant
                    i <= prop.values@.len(),
                    vs == prop@.values,
                    prop@.ident == prop.ident@,
                    match points_in(size, prop.ident@, vs.skip(i as int)) {
                        Ok(rest) => points_in(size, prop.ident@, vs) == Ok::<Seq<Coord>, ErrorView>(
                            out@ + rest,
                        ),
                        Err(e) => points_in(size, prop.ident@, vs) == Err::<
                            Seq<Coord>,
                            ErrorView,
                        >(e),
                    },
                    node_points(size, self@, ident@) == points_in(size, prop.ident@, vs),
                decreases prop.values@.len() - i,
            {
                assert(vs.skip(i as int)[0] == prop.values@[i as int]@);
                assert(vs.skip(i as int).skip(1) =~= vs.skip(i + 1));
                let value = prop.values[i].as_str();
                match Coord::from_sgf(size, value) {
                    Err(_) => {
                        return Err(bad_coord(prop.ident.as_str(), value));
                    },
                    Ok(c) => {
                        let ghost before = out@;
                        out.push(c);
                        proof {
                            match points_in(size, prop.ident@, vs.skip(i + 1)) {
                                Ok(rest) => assert(before + (seq![c] + rest) =~= out@ + rest),
                                Err(e) => {},
                            }
                        }
                    },
                }
                i += 1;
            }
            assert(out@ + Seq::<Coord>::empty() =~= out@);
        }
        Ok(out)
    }
}

fn write_values(values: &Vec<String>, out: &mut String)
    ensures
        final(out)@ == old(out)@ + model::written_values(texts(values@)),
{
    let ghost start = out@;
    let ghost vs = texts(values@);
    let mut i: usize = 0;
    assert(vs.skip(0) =~= vs);
    while i < values.len()
        invariant
            i <= values@.len(),
            vs == texts(values@),
            out@ + model::written_values(vs.skip(i as int)) == start + model::written_values(vs),
        decreases values@.len() - i,
    {
        let ghost before = out@;
        out.push('[');
        escape_value(values[i].as_str(), out);
        out.push(']');
        proof {
            let rest = vs.skip(i as int);
            assert(rest.skip(1) =~= vs.skip(i + 1));
            assert(rest[0] == values@[i as int]@);
            assert(out@ + model::written_values(vs.skip(i + 1)) =~= before + (seq!['[']
                + model::escaped(rest[0]) + seq![']'] + model::written_values(vs.skip(i + 1))));
        }
        i += 1;
    }
    assert(out@ =~= start + model::written_values(vs));
}

fn bad_coord(ident: &str, value: &str) -> (r: SgfError)
    ensures
        r@ == bad_coord_error(ident@, value@),
{
    SgfError::new(
        SgfErrorKind::BadCoord { ident: ident.to_owned(), value: value.to_owned() },
        None,
    )
}

pub fn bad_number(ident: &str, value: &str) -> (r: SgfError)
    ensures
        r@ == bad_number_error(ident@, value@),
{
    SgfError::new(
        SgfErrorKind::BadNumber { ident: ident.to_owned(), value: value.to_owned() },
        None,
    )
}

} // verus!
