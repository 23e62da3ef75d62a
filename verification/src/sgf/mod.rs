//! SGF game records: reading and writing.
//!
//! [`decode`] turns bytes into text: UTF-8, with or without a byte order mark. Anything else is
//! refused, with the name of the declared character set where one is declared.
//!
//! Reading is lenient where real files need it: unknown properties are kept, unknown escapes
//! stand for the character itself, nodes may be empty, and the rectangles of `AB`, `AW` and `AE`
//! are spread out. Writing a tree that was read and reading it again gives the same tree.

use vstd::prelude::*;

pub mod again;
pub mod block;
pub mod error;
pub mod heading;
pub mod info;
pub mod keeping;
pub mod laws;
pub mod lexer;
pub mod load;
pub mod model;
pub mod save;
pub mod tree;

pub use error::{Position, SgfError, SgfErrorKind};
pub use info::GameInfo;
pub use load::{load_from_bytes, GameMeta, LoadError, LoadedGame};
pub use save::{board_to_sgf, SaveError};
pub use tree::{GameTree, Node, Property};

use crate::text::{self, chars_of, same_text, string_of, to_lower, trim};
use error::{ErrorView, KindView};
use lexer::Cursor;
use model::{NodeView, PropView, TreeView};

verus! {

// ---- bytes to text ----

/// What `String::from_utf8_lossy` makes of bytes.
pub uninterp spec fn lossy_text(bytes: Seq<u8>) -> Seq<char>;

/// `String::from_utf8_lossy`: the bytes as text, with replacement characters where they are not
/// valid UTF-8. The contract names the result, and says that bytes which are valid UTF-8 are read
/// as they are.
#[verifier::external_body]
fn utf8_lossy(bytes: &[u8]) -> (r: String)
    ensures
        r@ == lossy_text(bytes@),
        vstd::utf8::valid_utf8(bytes@) ==> r@ == vstd::utf8::decode_utf8(bytes@),
{
    String::from_utf8_lossy(bytes).into_owned()
}

/// The bytes without a leading UTF-8 byte order mark.
pub open spec fn unmarked(b: Seq<u8>) -> Seq<u8> {
    if b.len() >= 3 && b[0] == 0xEF && b[1] == 0xBB && b[2] == 0xBF {
        b.skip(3)
    } else {
        b
    }
}

/// Whether the bytes start with a UTF-16 byte order mark.
pub open spec fn marked_utf16(b: Seq<u8>) -> bool {
    b.len() >= 2 && ((b[0] == 0xFF && b[1] == 0xFE) || (b[0] == 0xFE && b[1] == 0xFF))
}

/// Whether `CA[` stands at `i`.
pub open spec fn charset_at(b: Seq<u8>, i: int) -> bool {
    0 <= i && i + 3 <= b.len() && b[i] == 0x43 && b[i + 1] == 0x41 && b[i + 2] == 0x5B
}

/// Where the first `]` from `i` on stands, no further than before `end`.
pub open spec fn bracket_from(b: Seq<u8>, i: int, end: int) -> Option<int>
    decreases end - i,
{
    if !(i < end && 0 <= i < b.len()) {
        None
    } else if b[i] == 0x5D {
        Some(i)
    } else {
        bracket_from(b, i + 1, end)
    }
}

/// Where the name of the declared character set stands: behind the first `CA[` from `i` on, up to
/// the next `]` within 64 bytes.
pub open spec fn charset_range(b: Seq<u8>, i: int) -> Option<(int, int)>
    decreases b.len() - i,
{
    if !(0 <= i && i + 3 <= b.len()) {
        None
    } else if charset_at(b, i) {
        match bracket_from(b, i + 3, i + 67) {
            Some(e) => Some((i + 3, e)),
            None => None,
        }
    } else {
        charset_range(b, i + 1)
    }
}

/// The declared character set.
pub open spec fn declared_charset(b: Seq<u8>) -> Option<Seq<char>> {
    match charset_range(b, 0) {
        Some((i, e)) => Some(text::trimmed(lossy_text(b.subrange(i, e)))),
        None => None,
    }
}

/// A name in lower case without its hyphens.
pub open spec fn plain_name(s: Seq<char>) -> Seq<char>
    decreases s.len(),
{
    if s.len() == 0 {
        Seq::empty()
    } else if s.last() == '-' {
        plain_name(s.drop_last())
    } else {
        plain_name(s.drop_last()).push(text::lower(s.last()))
    }
}

/// Whether a character set name means UTF-8; case and hyphens do not matter.
pub open spec fn names_utf8(name: Seq<char>) -> bool {
    plain_name(name) == seq!['u', 't', 'f', '8']
}

/// The error for bytes that are not UTF-8, given the declared character set.
pub open spec fn not_utf8_error(declared: Option<Seq<char>>) -> ErrorView {
    ErrorView {
        kind: match declared {
            Some(name) if !names_utf8(name) => KindView::UnsupportedCharset(name),
            _ => KindView::InvalidUtf8,
        },
        position: None,
    }
}

/// What bytes decode to.
pub open spec fn decoded(bytes: Seq<u8>) -> Result<Seq<char>, ErrorView> {
    let b = unmarked(bytes);
    if marked_utf16(b) {
        Err(ErrorView { kind: KindView::UnsupportedCharset("UTF-16"@), position: None })
    } else if vstd::utf8::valid_utf8(b) {
        Ok(vstd::utf8::decode_utf8(b))
    } else {
        Err(not_utf8_error(declared_charset(b)))
    }
}

/// Turns the bytes of a file into text.
pub fn decode(bytes: &[u8]) -> (r: Result<String, SgfError>)
    ensures
        match decoded(bytes@) {
            Ok(s) => r matches Ok(x) && x@ == s,
            Err(e) => r matches Err(x) && x@ == e,
        },
        charset_range(unmarked(bytes@), 0) matches Some((i, e)) ==> {
            let name = unmarked(bytes@).subrange(i, e);
            vstd::utf8::valid_utf8(name) && !marked_utf16(unmarked(bytes@))
                && !vstd::utf8::valid_utf8(unmarked(bytes@)) ==> (r matches Err(x) && x@
                == not_utf8_error(Some(text::trimmed(vstd::utf8::decode_utf8(name)))))
        },
{
    let body = if bytes.len() >= 3 && bytes[0] == 0xEF && bytes[1] == 0xBB && bytes[2] == 0xBF {
        vstd::slice::slice_subrange(bytes, 3, bytes.len())
    } else {
        bytes
    };
    assert(body@ =~= unmarked(bytes@));
    if body.len() >= 2 && ((body[0] == 0xFF && body[1] == 0xFE) || (body[0] == 0xFE && body[1]
        == 0xFF)) {
        return Err(SgfError::new(SgfErrorKind::UnsupportedCharset("UTF-16".to_owned()), None));
    }
    match text::utf8_text(body) {
        Some(s) => Ok(s),
        None => {
            let name = match sniff_charset(body) {
                None => None,
                Some((i, e)) => {
                    let raw = utf8_lossy(vstd::slice::slice_subrange(body, i, e));
                    Some(string_of(&trim(&chars_of(raw.as_str()))))
                },
            };
            Err(not_utf8(name))
        },
    }
}

/// The error for bytes that are not UTF-8, given the declared character set.
pub fn not_utf8(declared: Option<String>) -> (r: SgfError)
    ensures
        r@ == not_utf8_error(
            match declared {
                Some(s) => Some(s@),
                None => None,
            },
        ),
{
    if let Some(name) = declared {
        if !is_utf8_name(name.as_str()) {
            return SgfError::new(SgfErrorKind::UnsupportedCharset(name), None);
        }
    }
    SgfError::new(SgfErrorKind::InvalidUtf8, None)
}

/// Whether a character set name means UTF-8; case and hyphens do not matter.
pub fn is_utf8_name(name: &str) -> (r: bool)
    ensures
        r == names_utf8(name@),
{
    let chars = chars_of(name);
    let mut plain: Vec<char> = Vec::new();
    let mut i: usize = 0;
    while i < chars.len()
        invariant
            i <= chars@.len(),
            plain@ == plain_name(chars@.take(i as int)),
        decreases chars@.len() - i,
    {
        let c = chars[i];
        assert(chars@.take(i + 1).drop_last() =~= chars@.take(i as int));
        assert(chars@.take(i + 1).last() == c);
        if c != '-' {
            plain.push(to_lower(c));
        }
        i += 1;
    }
    assert(chars@.take(chars@.len() as int) =~= chars@);
    let r = plain.len() == 4 && plain[0] == 'u' && plain[1] == 't' && plain[2] == 'f' && plain[3]
        == '8';
    assert(r ==> plain@ =~= seq!['u', 't', 'f', '8']);
    r
}

/// Where the name of the declared character set stands in the bytes.
pub fn sniff_charset(bytes: &[u8]) -> (r: Option<(usize, usize)>)
    ensures
        match charset_range(bytes@, 0) {
            Some((i, e)) => (r matches Some((a, b)) && a == i && b == e) && i <= e <= bytes@.len(),
            None => r is None,
        },
{
    let mut i: usize = 0;
    while bytes.len() >= 3 && i <= bytes.len() - 3
        invariant
            charset_range(bytes@, 0) == charset_range(bytes@, i as int),
            i <= bytes@.len(),
        decreases bytes@.len() - i,
    {
        if bytes[i] == 0x43 && bytes[i + 1] == 0x41 && bytes[i + 2] == 0x5B {
            let start = i + 3;
            let mut k: usize = start;
            while k < bytes.len() && k - start < 64
                invariant
                    start == i + 3,
                    start <= k <= bytes@.len(),
                    k - start <= 64,
                    charset_at(bytes@, i as int),
                    charset_range(bytes@, 0) == charset_range(bytes@, i as int),
                    bracket_from(bytes@, start as int, start + 64) == bracket_from(
                        bytes@,
                        k as int,
                        start + 64,
                    ),
                decreases bytes@.len() - k,
            {
                if bytes[k] == 0x5D {
                    return Some((start, k));
                }
                k += 1;
            }
            return None;
        }
        i += 1;
    }
    None
}

// ---- text to game tree ----

/// Reads the bytes of a record.
pub fn parse_bytes(bytes: &[u8]) -> (r: Result<GameTree, SgfError>)
    ensures
        match decoded(bytes@) {
            Err(e) => r matches Err(x) && x@ == e,
            Ok(s) => match model::parsed(s) {
                Ok(t) => r matches Ok(x) && x@ == t,
                Err(e) => r matches Err(x) && x@ == e,
            },
        },
{
    match decode(bytes) {
        Ok(s) => parse_str(s.as_str()),
        Err(e) => Err(e),
    }
}

/// Reads the text of a record: one game tree and nothing else.
pub fn parse_str(s: &str) -> (r: Result<GameTree, SgfError>)
    ensures
        match model::parsed(s@) {
            Ok(t) => r matches Ok(x) && x@ == t,
            Err(e) => r matches Err(x) && x@ == e,
        },
{
    let mut cur = Cursor::new(s);
    cur.skip_ws();
    if cur.peek().is_none() {
        return Err(SgfError::new(SgfErrorKind::EmptyInput, Some(cur.position())));
    }
    let tree = match parse_game_tree(&mut cur) {
        Ok(t) => t,
        Err(e) => {
            return Err(e);
        },
    };
    cur.skip_ws();
    let found = cur.peek();
    if found.is_some() {
        return Err(
            SgfError::new(
                SgfErrorKind::UnexpectedByte {
                    expected: "文件结尾（顶层只允许一棵游戏树）",
                    found,
                },
                Some(cur.position()),
            ),
        );
    }
    Ok(tree)
}

/// Reads a game tree.
fn parse_game_tree(cur: &mut Cursor) -> (r: Result<GameTree, SgfError>)
    requires
        old(cur).wf(),
    ensures
        final(cur).wf(),
        final(cur).text() == old(cur).text(),
        match model::tree_at(old(cur).text(), old(cur).at()) {
            Ok((t, p)) => (r matches Ok(x) && x@ == t) && final(cur).at() == p,
            Err(e) => r matches Err(x) && x@ == e,
        },
    decreases old(cur).text().len() - old(cur).at(),
{
    let ghost (s, p0) = (cur.text(), cur.at());
    cur.skip_ws();
    match cur.expect('(', "游戏树起始的“(”") {
        Ok(_) => {},
        Err(e) => {
            return Err(e);
        },
    }
    let mut nodes: Vec<Node> = Vec::new();
    let mut children: Vec<GameTree> = Vec::new();
    assert(tree::node_views(nodes@) =~= Seq::<NodeView>::empty());
    assert(tree::tree_views(children@) =~= Seq::<TreeView>::empty());
    let mut more = true;
    while more
        invariant
            cur.wf(),
            cur.text() == s,
            s == old(cur).text(),
            p0 == old(cur).at(),
            0 <= p0 < cur.at(),
            more ==> model::tree_at(s, p0) == model::items_at(
                s,
                cur.at(),
                tree::node_views(nodes@),
                tree::tree_views(children@),
            ),
            !more ==> model::tree_at(s, p0) == if nodes@.len() == 0 {
                Err::<(TreeView, int), ErrorView>(
                    model::error_at(s, cur.at(), KindView::EmptyGameTree),
                )
            } else {
                Ok(
                    (
                        TreeView {
                            nodes: tree::node_views(nodes@),
                            children: tree::tree_views(children@),
                        },
                        cur.at(),
                    ),
                )
            },
        decreases s.len() - cur.at(), if more { 1int } else { 0int },
    {
        let ghost p = cur.at();
        cur.skip_ws();
        let ghost q = cur.at();
        match cur.peek() {
            Some(';') => {
                let ghost before = nodes@;
                proof {
                    model::lemma_props_at(s, q + 1, Seq::empty());
                }
                match parse_node(cur) {
                    Ok(n) => {
                        nodes.push(n);
                        assert(tree::node_views(nodes@) =~= tree::node_views(before).push(n@));
                    },
                    Err(e) => {
                        return Err(e);
                    },
                }
            },
            Some('(') => {
                let ghost before = children@;
                proof {
                    model::lemma_tree_at(s, q);
                }
                match parse_game_tree(cur) {
                    Ok(t) => {
                        children.push(t);
                        assert(tree::tree_views(children@) =~= tree::tree_views(before).push(t@));
                    },
                    Err(e) => {
                        return Err(e);
                    },
                }
            },
            Some(')') => {
                cur.bump();
                more = false;
            },
            found => {
                return Err(
                    SgfError::new(
                        SgfErrorKind::UnexpectedByte {
                            expected: "节点“;”、子树“(”或树结尾“)”",
                            found,
                        },
                        Some(cur.position()),
                    ),
                );
            },
        }
    }
    if nodes.len() == 0 {
        return Err(SgfError::new(SgfErrorKind::EmptyGameTree, Some(cur.position())));
    }
    let r = GameTree { nodes, children };
    assert(r@.children =~= tree::tree_views(children@));
    Ok(r)
}

/// Reads a node at its `;`.
fn parse_node(cur: &mut Cursor) -> (r: Result<Node, SgfError>)
    requires
        old(cur).wf(),
        model::char_at(old(cur).text(), old(cur).at()) == Some(';'),
    ensures
        final(cur).wf(),
        final(cur).text() == old(cur).text(),
        match model::props_at(old(cur).text(), old(cur).at() + 1, Seq::empty()) {
            Ok((props, p)) => (r matches Ok(n) && n@ == (NodeView { props })) && final(cur).at()
                == p,
            Err(e) => r matches Err(x) && x@ == e,
        },
{
    let ghost (s, p0) = (cur.text(), cur.at() + 1);
    match cur.expect(';', "节点起始的“;”") {
        Ok(_) => {},
        Err(e) => {
            return Err(e);
        },
    }
    let mut props: Vec<Property> = Vec::new();
    assert(tree::prop_views(props@) =~= Seq::<PropView>::empty());
    let mut more = true;
    while more
        invariant
            cur.wf(),
            cur.text() == s,
            s == old(cur).text(),
            p0 == old(cur).at() + 1,
            0 <= p0 <= cur.at(),
            more ==> model::props_at(s, p0, Seq::empty()) == model::props_at(
                s,
                cur.at(),
                tree::prop_views(props@),
            ),
            !more ==> model::props_at(s, p0, Seq::empty()) == Ok::<
                (Seq<PropView>, int),
                ErrorView,
            >((tree::prop_views(props@), cur.at())),
        decreases s.len() - cur.at(), if more { 1int } else { 0int },
    {
        let ghost p = cur.at();
        cur.skip_ws();
        let ghost q = cur.at();
        let starts = match cur.peek() {
            Some(c) => lexer::letter(c),
            None => false,
        };
        if starts {
            proof {
                model::lemma_letters_end(s, q);
                model::lemma_values_at(s, model::letters_end(s, q), Seq::empty());
            }
            let ident = cur.read_ident();
            let values = match parse_values(cur) {
                Ok(v) => v,
                Err(e) => {
                    return Err(e);
                },
            };
            if values.len() == 0 {
                return Err(
                    SgfError::new(SgfErrorKind::PropNeedsValue { ident }, Some(cur.position())),
                );
            }
            let values = expand_point_rects(ident.as_str(), values);
            let ghost before = props@;
            let prop = Property { ident, values };
            props.push(prop);
            assert(tree::prop_views(props@) =~= tree::prop_views(before).push(prop@));
        } else {
            more = false;
        }
    }
    Ok(Node { props })
}

/// Reads the values of a property.
fn parse_values(cur: &mut Cursor) -> (r: Result<Vec<String>, SgfError>)
    requires
        old(cur).wf(),
    ensures
        final(cur).wf(),
        final(cur).text() == old(cur).text(),
        match model::values_at(old(cur).text(), old(cur).at(), Seq::empty()) {
            Ok((vs, p)) => (r matches Ok(v) && tree::texts(v@) == vs) && final(cur).at() == p,
            Err(e) => r matches Err(x) && x@ == e,
        },
{
    let ghost (s, p0) = (cur.text(), cur.at());
    let mut values: Vec<String> = Vec::new();
    assert(tree::texts(values@) =~= Seq::<Seq<char>>::empty());
    let mut more = true;
    while more
        invariant
            cur.wf(),
            cur.text() == s,
            s == old(cur).text(),
            p0 == old(cur).at(),
            0 <= p0 <= cur.at(),
            more ==> model::values_at(s, p0, Seq::empty()) == model::values_at(
                s,
                cur.at(),
                tree::texts(values@),
            ),
            !more ==> model::values_at(s, p0, Seq::empty()) == Ok::<
                (Seq<Seq<char>>, int),
                ErrorView,
            >((tree::texts(values@), cur.at())),
        decreases s.len() - cur.at(), if more { 1int } else { 0int },
    {
        let next = cur.peek_after_ws();
        if next == Some('[') {
            let ghost before = values@;
            proof {
                model::lemma_value_rest(s, cur.at() + 1, Seq::empty());
            }
            match cur.read_value() {
                Ok(v) => {
                    values.push(v);
                    assert(tree::texts(values@) =~= tree::texts(before).push(v@));
                },
                Err(e) => {
                    return Err(e);
                },
            }
        } else {
            more = false;
        }
    }
    Ok(values)
}

/// Spreads out the rectangles among the values of `AB`, `AW` and `AE`.
fn expand_point_rects(ident: &str, values: Vec<String>) -> (r: Vec<String>)
    ensures
        tree::texts(r@) == model::expanded(ident@, tree::texts(values@)),
{
    proof {
        reveal_strlit("AB");
        reveal_strlit("AW");
        reveal_strlit("AE");
        assert("AB"@ =~= seq!['A', 'B']);
        assert("AW"@ =~= seq!['A', 'W']);
        assert("AE"@ =~= seq!['A', 'E']);
    }
    if !(same_text(ident, "AB") || same_text(ident, "AW") || same_text(ident, "AE")) {
        return values;
    }
    let ghost vs = tree::texts(values@);
    let mut out: Vec<String> = Vec::new();
    let mut i: usize = 0;
    assert(tree::texts(out@) =~= model::spread(vs.take(0)));
    while i < values.len()
        invariant
            i <= values@.len(),
            vs == tree::texts(values@),
            tree::texts(out@) == model::spread(vs.take(i as int)),
        decreases values@.len() - i,
    {
        proof {
            assert(vs.take(i + 1).drop_last() =~= vs.take(i as int));
            assert(vs.take(i + 1).last() == values@[i as int]@);
        }
        let chars = chars_of(values[i].as_str());
        let ghost before = out@;
        if is_rect(&chars) {
            push_rect(
                &mut out,
                if chars[0] <= chars[3] { chars[0] } else { chars[3] },
                if chars[0] <= chars[3] { chars[3] } else { chars[0] },
                if chars[1] <= chars[4] { chars[1] } else { chars[4] },
                if chars[1] <= chars[4] { chars[4] } else { chars[1] },
            );
        } else {
            out.push(values[i].clone());
            assert(tree::texts(out@) =~= tree::texts(before) + seq![chars@]);
        }
        i += 1;
    }
    assert(vs.take(i as int) =~= vs);
    out
}

fn is_rect(v: &Vec<char>) -> (r: bool)
    ensures
        r == model::is_rect(v@),
{
    v.len() == 5 && v[2] == ':' && small(v[0]) && small(v[1]) && small(v[3]) && small(v[4])
}

fn small(c: char) -> (r: bool)
    ensures
        r == model::is_small(c),
{
    'a' <= c && c <= 'z'
}

/// Appends the points of a rectangle, row by row.
fn push_rect(out: &mut Vec<String>, x1: char, x2: char, y1: char, y2: char)
    requires
        'a' <= x1 <= x2 <= 'z',
        'a' <= y1 <= y2 <= 'z',
    ensures
        tree::texts(final(out)@) == tree::texts(old(out)@) + model::rect_points(x1, x2, y1, y2),
{
    let ghost start = tree::texts(out@);
    let ghost pts = model::rect_points(x1, x2, y1, y2);
    let w: u32 = x2 as u32 - x1 as u32 + 1;
    let h: u32 = y2 as u32 - y1 as u32 + 1;
    let mut y: u32 = 0;
    proof {
        assert(pts.len() == w * h);
        assert(start + pts.take(0) =~= start);
    }
    while y < h
        invariant
            'a' <= x1 <= x2 <= 'z',
            'a' <= y1 <= y2 <= 'z',
            w == x2 as u32 - x1 as u32 + 1,
            h == y2 as u32 - y1 as u32 + 1,
            y <= h,
            pts == model::rect_points(x1, x2, y1, y2),
            pts.len() == w * h,
            0 <= y * w <= w * h,
            tree::texts(out@) == start + pts.take(y * w),
        decreases h - y,
    {
        let mut x: u32 = 0;
        proof {
            assert(y * w + w <= w * h) by (nonlinear_arith)
                requires
                    y + 1 <= h,
                    w > 0,
            ;
        }
        while x < w
            invariant
                'a' <= x1 <= x2 <= 'z',
                'a' <= y1 <= y2 <= 'z',
                w == x2 as u32 - x1 as u32 + 1,
                h == y2 as u32 - y1 as u32 + 1,
                y < h,
                x <= w,
                0 <= y * w,
                y * w + w <= w * h,
                pts == model::rect_points(x1, x2, y1, y2),
                pts.len() == w * h,
                tree::texts(out@) == start + pts.take(y * w + x),
            decreases w - x,
        {
            let ghost before = out@;
            let mut s = String::new();
            s.push(((x1 as u32 + x) as u8) as char);
            s.push(((y1 as u32 + y) as u8) as char);
            proof {
                let i = y * w + x;
                assert(i % (w as int) == x && i / (w as int) == y) by (nonlinear_arith)
                    requires
                        i == y * w + x,
                        0 <= x < w,
                ;
                assert(s@ =~= pts[i]);
                assert(pts.take(i + 1) =~= pts.take(i).push(s@));
            }
            out.push(s);
            proof {
                let i = y * w + x;
                assert(tree::texts(out@) =~= tree::texts(before).push(s@));
                assert(tree::texts(out@) =~= start + pts.take(i + 1));
            }
            x += 1;
        }
        proof {
            assert((y + 1) * w == y * w + w) by (nonlinear_arith);
        }
        y += 1;
    }
    proof {
        assert(h * w == w * h) by (nonlinear_arith);
        assert(pts.take(pts.len() as int) =~= pts);
    }
}

} // verus!
