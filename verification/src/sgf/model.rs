//! The mathematical model of SGF: game trees, their text, and what a text reads as.
//!
//! Reading is described by functions from a text and a position in it to what stands there and
//! the position behind it. Positions count characters from 0.

use vstd::prelude::*;
use super::error::{ErrorView, KindView, Position};

verus! {

/// A property: its name and its values.
#[verifier::ext_equal]
pub struct PropView {
    pub ident: Seq<char>,
    pub values: Seq<Seq<char>>,
}

/// A node: its properties in order.
#[verifier::ext_equal]
pub struct NodeView {
    pub props: Seq<PropView>,
}

/// A game tree: a chain of nodes and the variations after the last of them.
#[verifier::ext_equal]
pub struct TreeView {
    pub nodes: Seq<NodeView>,
    pub children: Seq<TreeView>,
}

// ---- writing ----

/// How a character is written inside a value.
pub open spec fn escaped_char(c: char) -> Seq<char> {
    if c == '\\' || c == ']' {
        seq!['\\', c]
    } else {
        seq![c]
    }
}

/// How a value is written, without its brackets.
pub open spec fn escaped(v: Seq<char>) -> Seq<char>
    decreases v.len(),
{
    if v.len() == 0 {
        Seq::empty()
    } else {
        escaped_char(v[0]) + escaped(v.skip(1))
    }
}

/// How the values of a property are written.
pub open spec fn written_values(vs: Seq<Seq<char>>) -> Seq<char>
    decreases vs.len(),
{
    if vs.len() == 0 {
        Seq::empty()
    } else {
        seq!['['] + escaped(vs[0]) + seq![']'] + written_values(vs.skip(1))
    }
}

/// How properties are written.
pub open spec fn written_props(ps: Seq<PropView>) -> Seq<char>
    decreases ps.len(),
{
    if ps.len() == 0 {
        Seq::empty()
    } else {
        ps[0].ident + written_values(ps[0].values) + written_props(ps.skip(1))
    }
}

/// How a chain of nodes is written.
pub open spec fn written_nodes(ns: Seq<NodeView>) -> Seq<char>
    decreases ns.len(),
{
    if ns.len() == 0 {
        Seq::empty()
    } else {
        seq![';'] + written_props(ns[0].props) + written_nodes(ns.skip(1))
    }
}

/// How a game tree is written.
pub open spec fn written(t: TreeView) -> Seq<char>
    decreases t,
{
    seq!['('] + written_nodes(t.nodes) + written_all(t.children) + seq![')']
}

/// How variations are written, one after the other.
pub open spec fn written_all(ts: Seq<TreeView>) -> Seq<char>
    decreases ts,
{
    if ts.len() == 0 {
        Seq::empty()
    } else {
        written(ts[0]) + written_all(ts.skip(1))
    }
}

// ---- places ----

/// The largest machine number where `n` is larger.
pub open spec fn clipped(n: nat) -> usize {
    if n > usize::MAX {
        usize::MAX
    } else {
        n as usize
    }
}

/// The number of bytes of a character in UTF-8.
pub open spec fn char_bytes(c: char) -> nat {
    let u = c as u32;
    if u < 0x80 {
        1
    } else if u < 0x800 {
        2
    } else if u < 0x10000 {
        3
    } else {
        4
    }
}

/// The number of bytes of the first `p` characters.
pub open spec fn bytes_before(s: Seq<char>, p: int) -> nat
    decreases p,
{
    if p <= 0 {
        0
    } else {
        bytes_before(s, p - 1) + char_bytes(s[p - 1])
    }
}

/// The number of line breaks among the first `p` characters.
pub open spec fn breaks_before(s: Seq<char>, p: int) -> nat
    decreases p,
{
    if p <= 0 {
        0
    } else {
        breaks_before(s, p - 1) + if s[p - 1] == '\n' {
            1nat
        } else {
            0
        }
    }
}

/// Where the line of position `p` starts.
pub open spec fn line_start(s: Seq<char>, p: int) -> int
    decreases p,
{
    if p <= 0 {
        0
    } else if s[p - 1] == '\n' {
        p
    } else {
        line_start(s, p - 1)
    }
}

/// Position `p` as told to the user.
pub open spec fn place(s: Seq<char>, p: int) -> Position {
    Position {
        offset: clipped(bytes_before(s, p)),
        line: clipped(1 + breaks_before(s, p)),
        col: clipped((1 + p - line_start(s, p)) as nat),
    }
}

/// An error at position `p`.
pub open spec fn error_at(s: Seq<char>, p: int, kind: KindView) -> ErrorView {
    ErrorView { kind, position: Some(place(s, p)) }
}

/// The error that something else than `expected` stands at `p`.
pub open spec fn unexpected(s: Seq<char>, p: int, expected: Seq<char>) -> ErrorView {
    error_at(s, p, KindView::UnexpectedByte { expected, found: char_at(s, p) })
}

// ---- reading ----

/// The character at `p`, if the text is that long.
pub open spec fn char_at(s: Seq<char>, p: int) -> Option<char> {
    if 0 <= p < s.len() {
        Some(s[p])
    } else {
        None
    }
}

/// White space between the parts of a record.
pub open spec fn is_blank(c: char) -> bool {
    c == ' ' || c == '\t' || c == '\r' || c == '\n'
}

/// The first position from `p` on without white space.
pub open spec fn skip_blank(s: Seq<char>, p: int) -> int
    decreases s.len() - p,
{
    if 0 <= p < s.len() && is_blank(s[p]) {
        skip_blank(s, p + 1)
    } else {
        p
    }
}

/// Whether `c` is an ASCII letter.
pub open spec fn is_letter(c: char) -> bool {
    'a' <= c <= 'z' || 'A' <= c <= 'Z'
}

/// The upper-case form of an ASCII letter; other characters stay.
pub open spec fn upper(c: char) -> char {
    if 'a' <= c <= 'z' {
        (c as u32 - 32) as char
    } else {
        c
    }
}

/// A text with its ASCII letters in upper case.
pub open spec fn upper_text(s: Seq<char>) -> Seq<char> {
    s.map_values(|c: char| upper(c))
}

/// The first position from `p` on that holds no letter.
pub open spec fn letters_end(s: Seq<char>, p: int) -> int
    decreases s.len() - p,
{
    if 0 <= p < s.len() && is_letter(s[p]) {
        letters_end(s, p + 1)
    } else {
        p
    }
}

/// What a value reads as from `p` on, where its opening bracket and `acc` have been read: a
/// backslash takes the next character as it is, except that a line break behind it is dropped.
pub open spec fn value_rest(s: Seq<char>, p: int, acc: Seq<char>) -> Result<
    (Seq<char>, int),
    ErrorView,
>
    decreases s.len() - p,
{
    let cut_short = unexpected(s, s.len() as int, "属性值结尾的“]”"@);
    if !(0 <= p < s.len()) {
        Err(cut_short)
    } else if s[p] == ']' {
        Ok((acc, p + 1))
    } else if s[p] == '\\' {
        match char_at(s, p + 1) {
            None => Err(cut_short),
            Some('\n') => value_rest(s, p + 2, acc),
            Some('\r') => if char_at(s, p + 2) == Some('\n') {
                value_rest(s, p + 3, acc)
            } else {
                value_rest(s, p + 2, acc)
            },
            Some(c) => value_rest(s, p + 2, acc.push(c)),
        }
    } else {
        value_rest(s, p + 1, acc.push(s[p]))
    }
}

/// What the values from `p` on read as, where `acc` have been read.
pub open spec fn values_at(s: Seq<char>, p: int, acc: Seq<Seq<char>>) -> Result<
    (Seq<Seq<char>>, int),
    ErrorView,
>
    decreases s.len() - p,
{
    let q = skip_blank(s, p);
    if char_at(s, q) != Some('[') {
        Ok((acc, q))
    } else {
        match value_rest(s, q + 1, Seq::empty()) {
            Err(e) => Err(e),
            Ok((v, r)) => if p < r <= s.len() {
                values_at(s, r, acc.push(v))
            } else {
                Ok((acc, q))
            },
        }
    }
}

/// What the properties from `p` on read as, where `acc` have been read.
pub open spec fn props_at(s: Seq<char>, p: int, acc: Seq<PropView>) -> Result<
    (Seq<PropView>, int),
    ErrorView,
>
    decreases s.len() - p,
{
    let q = skip_blank(s, p);
    if !(char_at(s, q) is Some && is_letter(s[q])) {
        Ok((acc, q))
    } else {
        let e = letters_end(s, q);
        let ident = upper_text(s.subrange(q, e));
        match values_at(s, e, Seq::empty()) {
            Err(e) => Err(e),
            Ok((values, r)) => if values.len() == 0 {
                Err(error_at(s, r, KindView::PropNeedsValue { ident }))
            } else if p < r <= s.len() {
                props_at(s, r, acc.push(PropView { ident, values: expanded(ident, values) }))
            } else {
                Ok((acc, q))
            },
        }
    }
}

/// What the game tree from `p` on reads as.
pub open spec fn tree_at(s: Seq<char>, p: int) -> Result<(TreeView, int), ErrorView>
    decreases s.len() - p, 0int,
{
    let q = skip_blank(s, p);
    if p <= q && char_at(s, q) == Some('(') {
        items_at(s, q + 1, Seq::empty(), Seq::empty())
    } else {
        Err(unexpected(s, q, "游戏树起始的“(”"@))
    }
}

/// What the rest of a game tree from `p` on reads as, where `nodes` and `children` have been
/// read.
pub open spec fn items_at(
    s: Seq<char>,
    p: int,
    nodes: Seq<NodeView>,
    children: Seq<TreeView>,
) -> Result<(TreeView, int), ErrorView>
    decreases s.len() - p, 1int,
{
    let q = skip_blank(s, p);
    match char_at(s, q) {
        Some(';') => match props_at(s, q + 1, Seq::empty()) {
            Err(e) => Err(e),
            Ok((props, r)) => if p < r <= s.len() {
                items_at(s, r, nodes.push(NodeView { props }), children)
            } else {
                Err(unexpected(s, q, "节点“;”、子树“(”或树结尾“)”"@))
            },
        },
        Some('(') => if p <= q {
            match tree_at(s, q) {
                Err(e) => Err(e),
                Ok((t, r)) => if p < r <= s.len() {
                    items_at(s, r, nodes, children.push(t))
                } else {
                    Err(unexpected(s, q, "节点“;”、子树“(”或树结尾“)”"@))
                },
            }
        } else {
            Err(unexpected(s, q, "节点“;”、子树“(”或树结尾“)”"@))
        },
        Some(')') => if nodes.len() == 0 {
            Err(error_at(s, q + 1, KindView::EmptyGameTree))
        } else {
            Ok((TreeView { nodes, children }, q + 1))
        },
        _ => Err(unexpected(s, q, "节点“;”、子树“(”或树结尾“)”"@)),
    }
}

/// What a text reads as: one game tree and nothing else.
pub open spec fn parsed(s: Seq<char>) -> Result<TreeView, ErrorView> {
    let q = skip_blank(s, 0);
    if char_at(s, q) is None {
        Err(error_at(s, q, KindView::EmptyInput))
    } else {
        match tree_at(s, q) {
            Err(e) => Err(e),
            Ok((t, r)) => if char_at(s, skip_blank(s, r)) is Some {
                Err(unexpected(s, skip_blank(s, r), "文件结尾（顶层只允许一棵游戏树）"@))
            } else {
                Ok(t)
            },
        }
    }
}

// ---- how far reading gets ----

/// Skipping white space ends within the text, at no white space.
pub proof fn lemma_skip_blank(s: Seq<char>, p: int)
    requires
        0 <= p <= s.len(),
    ensures
        p <= skip_blank(s, p) <= s.len(),
        skip_blank(s, p) < s.len() ==> !is_blank(s[skip_blank(s, p)]),
        skip_blank(s, skip_blank(s, p)) == skip_blank(s, p),
    decreases s.len() - p,
{
    if p < s.len() && is_blank(s[p]) {
        lemma_skip_blank(s, p + 1);
    }
}

/// A name ends within the text, and consists of letters.
pub proof fn lemma_letters_end(s: Seq<char>, p: int)
    requires
        0 <= p <= s.len(),
    ensures
        p <= letters_end(s, p) <= s.len(),
        forall|i: int| p <= i < letters_end(s, p) ==> is_letter(#[trigger] s[i]),
        letters_end(s, p) < s.len() ==> !is_letter(s[letters_end(s, p)]),
    decreases s.len() - p,
{
    if p < s.len() && is_letter(s[p]) {
        lemma_letters_end(s, p + 1);
    }
}

/// A value ends within the text.
pub proof fn lemma_value_rest(s: Seq<char>, p: int, acc: Seq<char>)
    requires
        0 <= p <= s.len(),
    ensures
        value_rest(s, p, acc) matches Ok((v, r)) ==> p < r <= s.len(),
    decreases s.len() - p,
{
    if p < s.len() && s[p] != ']' {
        if s[p] == '\\' {
            match char_at(s, p + 1) {
                None => {},
                Some('\n') => lemma_value_rest(s, p + 2, acc),
                Some('\r') => if char_at(s, p + 2) == Some('\n') {
                    lemma_value_rest(s, p + 3, acc)
                } else {
                    lemma_value_rest(s, p + 2, acc)
                },
                Some(c) => lemma_value_rest(s, p + 2, acc.push(c)),
            }
        } else {
            lemma_value_rest(s, p + 1, acc.push(s[p]));
        }
    }
}

/// The values of a property end within the text.
pub proof fn lemma_values_at(s: Seq<char>, p: int, acc: Seq<Seq<char>>)
    requires
        0 <= p <= s.len(),
    ensures
        values_at(s, p, acc) matches Ok((vs, r)) ==> p <= r <= s.len() && acc.len() <= vs.len()
            && (acc.len() < vs.len() ==> p < r) && (r < s.len() ==> !is_blank(s[r]) && s[r] != '['),
    decreases s.len() - p,
{
    lemma_skip_blank(s, p);
    let q = skip_blank(s, p);
    if char_at(s, q) == Some('[') {
        lemma_value_rest(s, q + 1, Seq::empty());
        if let Ok((v, r)) = value_rest(s, q + 1, Seq::empty()) {
            lemma_values_at(s, r, acc.push(v));
        }
    }
}

/// The properties of a node end within the text.
pub proof fn lemma_props_at(s: Seq<char>, p: int, acc: Seq<PropView>)
    requires
        0 <= p <= s.len(),
    ensures
        props_at(s, p, acc) matches Ok((ps, r)) ==> p <= r <= s.len(),
    decreases s.len() - p,
{
    lemma_skip_blank(s, p);
    let q = skip_blank(s, p);
    if char_at(s, q) is Some && is_letter(s[q]) {
        let e = letters_end(s, q);
        lemma_letters_end(s, q);
        let ident = upper_text(s.subrange(q, e));
        lemma_values_at(s, e, Seq::empty());
        if let Ok((values, r)) = values_at(s, e, Seq::empty()) {
            if values.len() > 0 {
                lemma_props_at(
                    s,
                    r,
                    acc.push(PropView { ident, values: expanded(ident, values) }),
                );
            }
        }
    }
}

/// A game tree ends within the text.
pub proof fn lemma_tree_at(s: Seq<char>, p: int)
    requires
        0 <= p <= s.len(),
    ensures
        tree_at(s, p) matches Ok((t, r)) ==> p < r <= s.len(),
    decreases s.len() - p, 0int,
{
    lemma_skip_blank(s, p);
    let q = skip_blank(s, p);
    if char_at(s, q) == Some('(') {
        lemma_items_at(s, q + 1, Seq::empty(), Seq::empty());
    }
}

/// The rest of a game tree ends within the text.
pub proof fn lemma_items_at(
    s: Seq<char>,
    p: int,
    nodes: Seq<NodeView>,
    children: Seq<TreeView>,
)
    requires
        0 <= p <= s.len(),
    ensures
        items_at(s, p, nodes, children) matches Ok((t, r)) ==> p < r <= s.len(),
    decreases s.len() - p, 1int,
{
    lemma_skip_blank(s, p);
    let q = skip_blank(s, p);
    match char_at(s, q) {
        Some(';') => {
            lemma_props_at(s, q + 1, Seq::empty());
            if let Ok((props, r)) = props_at(s, q + 1, Seq::empty()) {
                lemma_items_at(s, r, nodes.push(NodeView { props }), children);
            }
        },
        Some('(') => {
            lemma_tree_at(s, q);
            if let Ok((t, r)) = tree_at(s, q) {
                lemma_items_at(s, r, nodes, children.push(t));
            }
        },
        _ => {},
    }
}

// ---- rectangles ----

/// The properties whose values may be rectangles.
pub open spec fn takes_rects(ident: Seq<char>) -> bool {
    ident == seq!['A', 'B'] || ident == seq!['A', 'W'] || ident == seq!['A', 'E']
}

/// Whether `c` is one of `a..z`.
pub open spec fn is_small(c: char) -> bool {
    'a' <= c <= 'z'
}

/// Whether a value is a rectangle such as `aa:cc`.
pub open spec fn is_rect(v: Seq<char>) -> bool {
    v.len() == 5 && v[2] == ':' && is_small(v[0]) && is_small(v[1]) && is_small(v[3]) && is_small(
        v[4],
    )
}

pub open spec fn lesser(a: char, b: char) -> char {
    if a <= b {
        a
    } else {
        b
    }
}

pub open spec fn greater(a: char, b: char) -> char {
    if a <= b {
        b
    } else {
        a
    }
}

/// The points of a rectangle with the given columns and rows, row by row from the top, each row
/// from the left.
pub open spec fn rect_points(x1: char, x2: char, y1: char, y2: char) -> Seq<Seq<char>> {
    let w = x2 as int - x1 as int + 1;
    let h = y2 as int - y1 as int + 1;
    Seq::new(
        (w * h) as nat,
        |i: int| seq![(x1 as int + i % w) as char, (y1 as int + i / w) as char],
    )
}

/// The points that a value stands for.
pub open spec fn points_of(v: Seq<char>) -> Seq<Seq<char>> {
    if is_rect(v) {
        rect_points(lesser(v[0], v[3]), greater(v[0], v[3]), lesser(v[1], v[4]), greater(v[1], v[4]))
    } else {
        seq![v]
    }
}

/// The values with every rectangle replaced by its points.
pub open spec fn spread(vs: Seq<Seq<char>>) -> Seq<Seq<char>>
    decreases vs.len(),
{
    if vs.len() == 0 {
        Seq::empty()
    } else {
        spread(vs.drop_last()) + points_of(vs.last())
    }
}

/// The values of property `ident` as they are kept.
pub open spec fn expanded(ident: Seq<char>, vs: Seq<Seq<char>>) -> Seq<Seq<char>> {
    if takes_rects(ident) {
        spread(vs)
    } else {
        vs
    }
}

} // verus!
