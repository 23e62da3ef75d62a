//! What is written reads back.

use vstd::prelude::*;
use super::filechooser;
use super::marshal;
use super::wire::{self, HeaderView, MessageView, TypeView, ValueView};
use crate::text;

verus! {

/// No value of the type is empty: there is no struct without fields in it.
pub open spec fn solid(t: TypeView) -> bool
    decreases t,
{
    match t {
        TypeView::Array(e) => solid(*e),
        TypeView::Struct(ts) => ts.len() > 0 && forall|i: int|
            0 <= i < ts.len() ==> solid(#[trigger] ts[i]),
        TypeView::DictEntry(k, v) => solid(*k) && solid(*v),
        _ => true,
    }
}

/// The signature is that of the type.
pub open spec fn names(sig: Seq<char>, t: TypeView) -> bool {
    wire::type_at(sig, 0) == Ok::<(TypeView, int), Seq<char>>((t, sig.len() as int))
        && wire::type_sig(t) == sig
}

/// The value is one of the type; signatures are shorter than 256 bytes.
pub open spec fn has_type(v: ValueView, t: TypeView) -> bool
    decreases v, 0int,
{
    match v {
        ValueView::Byte(_) => t is Byte,
        ValueView::Bool(_) => t is Bool,
        ValueView::I16(_) => t is I16,
        ValueView::U16(_) => t is U16,
        ValueView::I32(_) => t is I32,
        ValueView::U32(_) => t is U32,
        ValueView::I64(_) => t is I64,
        ValueView::U64(_) => t is U64,
        ValueView::F64(_) => t is F64,
        ValueView::Str(_) => t is Str,
        ValueView::Path(_) => t is Path,
        ValueView::Sig(s) => t is Sig && marshal::utf8(s).len() < 256,
        ValueView::Array { elem, items } => match t {
            TypeView::Array(e) => names(elem, *e) && forall|i: int|
                0 <= i < items.len() ==> has_type(#[trigger] items[i], *e),
            _ => false,
        },
        ValueView::Struct(vs) => match t {
            TypeView::Struct(ts) => vs.len() == ts.len() && forall|i: int|
                0 <= i < vs.len() ==> has_type(#[trigger] vs[i], ts[i]),
            TypeView::DictEntry(k, w) => vs.len() == 2 && has_type(vs[0], *k) && has_type(
                vs[1],
                *w,
            ),
            _ => false,
        },
        ValueView::Variant(inner) => t is Variant && typed(*inner),
    }
}

/// The value is of the type that its own signature names.
pub open spec fn typed(v: ValueView) -> bool
    decreases v, 1int,
{
    let sig = wire::signature_of(v);
    &&& marshal::utf8(sig).len() < 256
    &&& match wire::type_at(sig, 0) {
        Ok((t, q)) => q == sig.len() && solid(t) && has_type(v, t),
        Err(_) => false,
    }
}

/// Every value is of the type that its own signature names.
pub open spec fn all_typed(vs: Seq<ValueView>) -> bool {
    forall|i: int| 0 <= i < vs.len() ==> typed(#[trigger] vs[i])
}

/// From `p` on, `full` holds what `out` holds.
pub open spec fn agrees(full: Seq<u8>, out: Seq<u8>, p: int) -> bool {
    &&& full.len() >= out.len()
    &&& forall|i: int| p <= i < out.len() ==> #[trigger] full[i] == out[i]
}

/// A type reads the same wherever its letters stand.
proof fn lemma_type_window(s: Seq<char>, p: int, s2: Seq<char>, p2: int)
    requires
        wire::type_at(s, p) matches Ok((t, q)) && 0 <= p2 && p2 + (q - p) <= s2.len() && s.subrange(
            p,
            q,
        ) == s2.subrange(p2, p2 + (q - p)),
    ensures
        wire::type_at(s, p) matches Ok((t, q)) && wire::type_at(s2, p2) == Ok::<
            (TypeView, int),
            Seq<char>,
        >((t, p2 + (q - p))),
    decreases s.len() - p, 0int,
{
    wire::lemma_type_at(s, p);
    let (t, q) = wire::type_at(s, p)->Ok_0;
    assert(s.subrange(p, q)[0] == s2.subrange(p2, p2 + (q - p))[0]);
    assert(s[p] == s2[p2]);
    if wire::letter_type(s[p]) is None {
        if s[p] == 'a' {
            wire::lemma_type_at(s, p + 1);
            assert(s.subrange(p + 1, q) =~= s.subrange(p, q).skip(1));
            assert(s2.subrange(p2 + 1, p2 + (q - p)) =~= s2.subrange(p2, p2 + (q - p)).skip(1));
            lemma_type_window(s, p + 1, s2, p2 + 1);
        } else {
            let close = if s[p] == '(' {
                ')'
            } else {
                '}'
            };
            wire::lemma_types_until(s, p + 1, close, Seq::empty());
            assert(s.subrange(p + 1, q) =~= s.subrange(p, q).skip(1));
            assert(s2.subrange(p2 + 1, p2 + (q - p)) =~= s2.subrange(p2, p2 + (q - p)).skip(1));
            lemma_types_window(s, p + 1, s2, p2 + 1, close, Seq::empty());
        }
    }
}

/// A row of types reads the same wherever its letters stand.
proof fn lemma_types_window(
    s: Seq<char>,
    p: int,
    s2: Seq<char>,
    p2: int,
    close: char,
    acc: Seq<TypeView>,
)
    requires
        wire::types_until(s, p, close, acc) matches Ok((ts, q)) && 0 <= p2 && p2 + (q - p)
            <= s2.len() && s.subrange(p, q) == s2.subrange(p2, p2 + (q - p)),
    ensures
        wire::types_until(s, p, close, acc) matches Ok((ts, q)) && wire::types_until(
            s2,
            p2,
            close,
            acc,
        ) == Ok::<(Seq<TypeView>, int), Seq<char>>((ts, p2 + (q - p))),
    decreases s.len() - p, 1int,
{
    wire::lemma_types_until(s, p, close, acc);
    let (ts, q) = wire::types_until(s, p, close, acc)->Ok_0;
    assert(s.subrange(p, q)[0] == s2.subrange(p2, p2 + (q - p))[0]);
    assert(s[p] == s2[p2]);
    if s[p] != close {
        wire::lemma_type_at(s, p);
        let (t, m) = wire::type_at(s, p)->Ok_0;
        wire::lemma_types_until(s, m, close, acc.push(t));
        assert(s.subrange(p, m) =~= s.subrange(p, q).take(m - p));
        assert(s2.subrange(p2, p2 + (m - p)) =~= s2.subrange(p2, p2 + (q - p)).take(m - p));
        lemma_type_window(s, p, s2, p2);
        assert(s.subrange(m, q) =~= s.subrange(p, q).skip(m - p));
        assert(s2.subrange(p2 + (m - p), p2 + (q - p)) =~= s2.subrange(p2, p2 + (q - p)).skip(
            m - p,
        ));
        lemma_types_window(s, m, s2, p2 + (m - p), close, acc.push(t));
    }
}

pub(super) proof fn lemma_num16(full: Seq<u8>, q: int, x: int)
    requires
        0 <= x < 0x1_0000,
        0 <= q,
        q + 2 <= full.len(),
        full[q] == marshal::le16(x)[0],
        full[q + 1] == marshal::le16(x)[1],
    ensures
        wire::num16(full, q, false) == x,
{
}

pub(super) proof fn lemma_num32(full: Seq<u8>, q: int, x: int)
    requires
        0 <= x < 0x1_0000_0000,
        0 <= q,
        q + 4 <= full.len(),
        full.subrange(q, q + 4) == marshal::le32(x),
    ensures
        wire::num32(full, q, false) == x,
{
    let b = marshal::le32(x);
    let f = full.subrange(q, q + 4);
    assert(f[0] == full[q] && f[1] == full[q + 1] && f[2] == full[q + 2] && f[3] == full[q + 3]);
    lemma_num16(full, q, x % 65536);
    lemma_num16(full, q + 2, x / 65536 % 65536);
}

pub(super) proof fn lemma_num64(full: Seq<u8>, q: int, x: int)
    requires
        0 <= x < 0x1_0000_0000_0000_0000,
        0 <= q,
        q + 8 <= full.len(),
        full.subrange(q, q + 8) == marshal::le64(x),
    ensures
        wire::num64(full, q, false) == x,
{
    let (lo, hi) = (x % 0x1_0000_0000, x / 0x1_0000_0000 % 0x1_0000_0000);
    let f = full.subrange(q, q + 8);
    lemma_halves(marshal::le32(lo), marshal::le32(hi));
    assert(full.subrange(q, q + 4) =~= f.take(4));
    assert(full.subrange(q + 4, q + 8) =~= f.skip(4));
    lemma_num32(full, q, lo);
    lemma_num32(full, q + 4, hi);
    lemma_whole(x);
}

pub(super) proof fn lemma_halves(a: Seq<u8>, b: Seq<u8>)
    ensures
        (a + b).take(a.len() as int) == a,
        (a + b).skip(a.len() as int) == b,
{
    assert((a + b).take(a.len() as int) =~= a);
    assert((a + b).skip(a.len() as int) =~= b);
}

proof fn lemma_whole(x: int)
    requires
        0 <= x < 0x1_0000_0000_0000_0000,
    ensures
        (x / 0x1_0000_0000 % 0x1_0000_0000) * 0x1_0000_0000 + x % 0x1_0000_0000 == x,
{
}

/// What stands behind the padding is found there.
proof fn lemma_behind(b: Seq<u8>, n: int, tail: Seq<u8>, full: Seq<u8>)
    requires
        n == 1 || n == 2 || n == 4 || n == 8,
        agrees(full, marshal::padded(b, n) + tail, b.len() as int),
    ensures
        ({
            let q = wire::aligned(b.len() as int, n);
            b.len() <= q && q + tail.len() <= full.len() && full.subrange(q, q + tail.len()) == tail
                && (marshal::padded(b, n) + tail).len() == q + tail.len()
        }),
{
    marshal::lemma_padded(b, n);
    let q = wire::aligned(b.len() as int, n);
    let out = marshal::padded(b, n) + tail;
    assert forall|i: int| 0 <= i < tail.len() implies full.subrange(q, q + tail.len())[i]
        == tail[i] by {
        assert(full[q + i] == out[q + i]);
    }
    assert(full.subrange(q, q + tail.len()) =~= tail);
}

/// A text reads back.
proof fn lemma_text(full: Seq<u8>, p: int, s: Seq<char>, no_nul: Seq<char>)
    requires
        0 <= p,
        p + marshal::utf8(s).len() + 1 <= full.len(),
        full.subrange(p, p + marshal::utf8(s).len() + 1) == marshal::utf8(s) + seq![0u8],
    ensures
        wire::text_at(full, p, marshal::utf8(s).len() as int, no_nul) == Ok::<
            (Seq<char>, int),
            Seq<char>,
        >((s, p + marshal::utf8(s).len() + 1)),
{
    let u = marshal::utf8(s);
    let f = full.subrange(p, p + u.len() + 1);
    assert(f[u.len() as int] == full[p + u.len()]);
    assert(full.subrange(p, p + u.len()) =~= f.take(u.len() as int));
    assert((u + seq![0u8]).take(u.len() as int) =~= u);
    vstd::utf8::encode_utf8_valid_utf8(s);
    vstd::utf8::encode_utf8_decode_utf8(s);
}

/// A string reads back.
proof fn lemma_string(b: Seq<u8>, s: Seq<char>, full: Seq<u8>)
    requires
        ({
            let out = marshal::padded(b, 4) + marshal::string_bytes(s);
            agrees(full, out, b.len() as int) && out.len() < 0x1_0000_0000
        }),
    ensures
        wire::str_at(full, b.len() as int, false) == Ok::<(Seq<char>, int), Seq<char>>(
            (s, (marshal::padded(b, 4) + marshal::string_bytes(s)).len() as int),
        ),
{
    let u = marshal::utf8(s);
    let t = marshal::string_bytes(s);
    lemma_behind(b, 4, t, full);
    let q = wire::aligned(b.len() as int, 4);
    let f = full.subrange(q, q + t.len());
    assert(full.subrange(q, q + 4) =~= f.take(4));
    assert(t.take(4) =~= marshal::le32(u.len() as int));
    lemma_num32(full, q, u.len() as int);
    assert(full.subrange(q + 4, q + 4 + u.len() + 1) =~= f.skip(4));
    assert(t.skip(4) =~= u + seq![0u8]);
    lemma_text(full, q + 4, s, "字符串缺少 NUL 结尾"@);
}

/// A signature reads back.
proof fn lemma_sig(b: Seq<u8>, s: Seq<char>, full: Seq<u8>)
    requires
        marshal::utf8(s).len() < 256,
        agrees(full, b + marshal::sig_bytes(s), b.len() as int),
    ensures
        wire::sig_at(full, b.len() as int) == Ok::<(Seq<char>, int), Seq<char>>(
            (s, (b + marshal::sig_bytes(s)).len() as int),
        ),
{
    let u = marshal::utf8(s);
    let t = marshal::sig_bytes(s);
    let out = b + t;
    let q = b.len() as int;
    assert(full[q] == out[q]);
    assert forall|i: int| 0 <= i < u.len() + 1 implies #[trigger] full.subrange(
        q + 1,
        q + 1 + u.len() + 1,
    )[i] == (u + seq![0u8])[i] by {
        assert(full[q + 1 + i] == out[q + 1 + i]);
    }
    assert(full.subrange(q + 1, q + 1 + u.len() + 1) =~= u + seq![0u8]);
    lemma_text(full, q + 1, s, "签名缺少 NUL 结尾"@);
}

/// What agrees with the whole agrees with its beginning.
proof fn lemma_agrees_prefix(full: Seq<u8>, out: Seq<u8>, next: Seq<u8>, p: int)
    requires
        agrees(full, out, p),
        marshal::starts(out, next),
        0 <= p,
    ensures
        agrees(full, next, p),
{
    assert forall|i: int| p <= i < next.len() implies #[trigger] full[i] == next[i] by {
        assert(out.take(next.len() as int)[i] == out[i]);
    }
}

/// A number of two bytes reads back.
proof fn lemma_u16(b: Seq<u8>, x: int, full: Seq<u8>)
    requires
        0 <= x < 0x1_0000,
        agrees(full, marshal::padded(b, 2) + marshal::le16(x), b.len() as int),
    ensures
        wire::u16_at(full, b.len() as int, false) == Ok::<(u16, int), Seq<char>>(
            (x as u16, (marshal::padded(b, 2) + marshal::le16(x)).len() as int),
        ),
        (marshal::padded(b, 2) + marshal::le16(x)).len() > b.len(),
{
    lemma_behind(b, 2, marshal::le16(x), full);
    let q = wire::aligned(b.len() as int, 2);
    let f = full.subrange(q, q + 2);
    assert(f[0] == full[q] && f[1] == full[q + 1]);
    lemma_num16(full, q, x);
}

/// A number of four bytes reads back.
proof fn lemma_u32(b: Seq<u8>, x: int, full: Seq<u8>)
    requires
        0 <= x < 0x1_0000_0000,
        agrees(full, marshal::padded(b, 4) + marshal::le32(x), b.len() as int),
    ensures
        wire::u32_at(full, b.len() as int, false) == Ok::<(u32, int), Seq<char>>(
            (x as u32, (marshal::padded(b, 4) + marshal::le32(x)).len() as int),
        ),
        (marshal::padded(b, 4) + marshal::le32(x)).len() > b.len(),
{
    lemma_behind(b, 4, marshal::le32(x), full);
    lemma_num32(full, wire::aligned(b.len() as int, 4), x);
}

/// A number of eight bytes reads back.
proof fn lemma_u64(b: Seq<u8>, x: int, full: Seq<u8>)
    requires
        0 <= x < 0x1_0000_0000_0000_0000,
        agrees(full, marshal::padded(b, 8) + marshal::le64(x), b.len() as int),
    ensures
        wire::u64_at(full, b.len() as int, false) == Ok::<(u64, int), Seq<char>>(
            (x as u64, (marshal::padded(b, 8) + marshal::le64(x)).len() as int),
        ),
        (marshal::padded(b, 8) + marshal::le64(x)).len() > b.len(),
{
    lemma_behind(b, 8, marshal::le64(x), full);
    lemma_num64(full, wire::aligned(b.len() as int, 8), x);
}

/// A value of a simple type reads back.
proof fn lemma_simple(b: Seq<u8>, v: ValueView, t: TypeView, out: Seq<u8>, full: Seq<u8>)
    requires
        has_type(v, t),
        !(v is Array) && !(v is Struct) && !(v is Variant),
        marshal::put(b, v) == Ok::<Seq<u8>, Seq<char>>(out),
        out.len() < 0x1_0000_0000,
        agrees(full, out, b.len() as int),
    ensures
        wire::value_at(full, b.len() as int, false, t) == Ok::<(ValueView, int), Seq<char>>(
            (v, out.len() as int),
        ),
        out.len() > b.len(),
{
    match v {
        ValueView::Byte(x) => {
            assert(full[b.len() as int] == out[b.len() as int]);
        },
        ValueView::Bool(x) => lemma_u32(
            b,
            if x {
                1
            } else {
                0
            },
            full,
        ),
        ValueView::I16(x) => lemma_u16(b, marshal::pattern(x as int, 0x1_0000), full),
        ValueView::U16(x) => lemma_u16(b, x as int, full),
        ValueView::I32(x) => lemma_u32(b, marshal::pattern(x as int, 0x1_0000_0000), full),
        ValueView::U32(x) => lemma_u32(b, x as int, full),
        ValueView::I64(x) => lemma_u64(b, marshal::pattern(x as int, 0x1_0000_0000_0000_0000), full),
        ValueView::U64(x) => lemma_u64(b, x as int, full),
        ValueView::F64(x) => lemma_u64(b, x as int, full),
        ValueView::Str(s) => {
            marshal::lemma_padded(b, 4);
            lemma_string(b, s, full);
        },
        ValueView::Path(s) => {
            marshal::lemma_padded(b, 4);
            lemma_string(b, s, full);
        },
        ValueView::Sig(s) => {
            lemma_sig(b, s, full);
        },
        _ => {},
    }
}

/// A value reads back, and takes up room.
proof fn lemma_value(b: Seq<u8>, v: ValueView, t: TypeView, out: Seq<u8>, full: Seq<u8>)
    requires
        has_type(v, t),
        solid(t),
        marshal::put(b, v) == Ok::<Seq<u8>, Seq<char>>(out),
        out.len() < 0x1_0000_0000,
        agrees(full, out, b.len() as int),
    ensures
        wire::value_at(full, b.len() as int, false, t) == Ok::<(ValueView, int), Seq<char>>(
            (v, out.len() as int),
        ),
        out.len() > b.len(),
    decreases v, 0int,
{
    match v {
        ValueView::Array { elem, items } => {
            let e = *t->Array_0;
            lemma_array(b, elem, items, e, out, full);
        },
        ValueView::Struct(vs) => lemma_struct(b, vs, t, out, full),
        ValueView::Variant(inner) => lemma_variant(b, *inner, out, full),
        _ => lemma_simple(b, v, t, out, full),
    }
}

/// A struct or a dictionary entry reads back.
proof fn lemma_struct(b: Seq<u8>, vs: Seq<ValueView>, t: TypeView, out: Seq<u8>, full: Seq<u8>)
    requires
        has_type(ValueView::Struct(vs), t),
        solid(t),
        marshal::put(b, ValueView::Struct(vs)) == Ok::<Seq<u8>, Seq<char>>(out),
        out.len() < 0x1_0000_0000,
        agrees(full, out, b.len() as int),
    ensures
        wire::value_at(full, b.len() as int, false, t) == Ok::<(ValueView, int), Seq<char>>(
            (ValueView::Struct(vs), out.len() as int),
        ),
        out.len() > b.len(),
    decreases vs, 2int,
{
    let start = marshal::padded(b, 8);
    marshal::lemma_padded(b, 8);
    wire::lemma_up_to(b.len() as int, 8);
    assert(agrees(full, out, start.len() as int));
    match t {
        TypeView::Struct(ts) => {
            lemma_fields(start, vs, ts, out, full, Seq::empty());
            assert(Seq::<ValueView>::empty() + vs =~= vs);
        },
        TypeView::DictEntry(k, w) => {
            lemma_entry(start, vs, *k, *w, out, full);
        },
        _ => {},
    }
}

/// A variant reads back.
proof fn lemma_variant(b: Seq<u8>, inner: ValueView, out: Seq<u8>, full: Seq<u8>)
    requires
        typed(inner),
        marshal::put(b, ValueView::Variant(Box::new(inner))) == Ok::<Seq<u8>, Seq<char>>(out),
        out.len() < 0x1_0000_0000,
        agrees(full, out, b.len() as int),
    ensures
        wire::variant_at(full, b.len() as int, false) == Ok::<(ValueView, int), Seq<char>>(
            (ValueView::Variant(Box::new(inner)), out.len() as int),
        ),
        out.len() > b.len(),
    decreases inner, 1int,
{
    let sig = wire::signature_of(inner);
    let next = b + marshal::sig_bytes(sig);
    marshal::lemma_put_starts(next, inner);
    lemma_agrees_prefix(full, out, next, b.len() as int);
    lemma_sig(b, sig, full);
    let (t, q) = wire::type_at(sig, 0)->Ok_0;
    assert(agrees(full, out, next.len() as int));
    lemma_value(next, inner, t, out, full);
}

/// An array reads back.
#[verifier::rlimit(40)]
proof fn lemma_array(
    b: Seq<u8>,
    elem: Seq<char>,
    items: Seq<ValueView>,
    e: TypeView,
    out: Seq<u8>,
    full: Seq<u8>,
)
    requires
        names(elem, e),
        forall|i: int| 0 <= i < items.len() ==> has_type(#[trigger] items[i], e),
        solid(e),
        marshal::put(b, (ValueView::Array { elem, items })) == Ok::<Seq<u8>, Seq<char>>(out),
        out.len() < 0x1_0000_0000,
        agrees(full, out, b.len() as int),
    ensures
        wire::value_at(full, b.len() as int, false, TypeView::Array(Box::new(e))) == Ok::<
            (ValueView, int),
            Seq<char>,
        >((ValueView::Array { elem, items }, out.len() as int)),
        out.len() > b.len(),
    decreases items, 2int,
{
    let n = wire::alignment(e);
    let head = marshal::padded(b, 4);
    let mid = head + marshal::le32(0);
    let start = marshal::padded(mid, n);
    marshal::lemma_padded(b, 4);
    marshal::lemma_padded(mid, n);
    wire::lemma_up_to(b.len() as int, 4);
    wire::lemma_up_to(mid.len() as int, n);
    marshal::lemma_put_all_starts(start, items);
    let raw = marshal::put_all(start, items)->Ok_0;
    let len = raw.len() - start.len();
    assert(out == marshal::patched(raw, head.len() as int, len));
    assert(out.len() == raw.len());
    assert forall|i: int| start.len() <= i < raw.len() implies #[trigger] full[i] == raw[i] by {
        assert(out[i] == raw[i]);
    }
    let at = head.len() as int;
    assert forall|i: int| 0 <= i < 4 implies #[trigger] full.subrange(at, at + 4)[i]
        == marshal::le32(len)[i] by {
        assert(full[at + i] == out[at + i]);
    }
    assert(full.subrange(at, at + 4) =~= marshal::le32(len));
    lemma_num32(full, at, len);
    assert(wire::u32_at(full, b.len() as int, false) == Ok::<(u32, int), Seq<char>>(
        (len as u32, mid.len() as int),
    ));
    lemma_items(start, items, e, raw, full, Seq::empty());
    assert(Seq::<ValueView>::empty() + items =~= items);
}

/// The elements of an array read back.
proof fn lemma_items(
    b: Seq<u8>,
    vs: Seq<ValueView>,
    e: TypeView,
    out: Seq<u8>,
    full: Seq<u8>,
    acc: Seq<ValueView>,
)
    requires
        forall|i: int| 0 <= i < vs.len() ==> has_type(#[trigger] vs[i], e),
        solid(e),
        marshal::put_all(b, vs) == Ok::<Seq<u8>, Seq<char>>(out),
        out.len() < 0x1_0000_0000,
        agrees(full, out, b.len() as int),
    ensures
        wire::items_at(full, b.len() as int, false, e, out.len() as int, acc) == Ok::<
            (Seq<ValueView>, int),
            Seq<char>,
        >((acc + vs, out.len() as int)),
        out.len() >= b.len(),
    decreases vs, 1int,
{
    if vs.len() == 0 {
        assert(acc + vs =~= acc);
    } else {
        let next = marshal::put(b, vs[0])->Ok_0;
        let rest = vs.skip(1);
        marshal::lemma_put_all_starts(next, rest);
        lemma_agrees_prefix(full, out, next, b.len() as int);
        lemma_value(b, vs[0], e, next, full);
        assert forall|i: int| 0 <= i < rest.len() implies has_type(#[trigger] rest[i], e) by {
            assert(rest[i] == vs[i + 1]);
        }
        lemma_items(next, rest, e, out, full, acc.push(vs[0]));
        assert(acc.push(vs[0]) + rest =~= acc + vs);
    }
}

/// The fields of a struct read back.
proof fn lemma_fields(
    b: Seq<u8>,
    vs: Seq<ValueView>,
    ts: Seq<TypeView>,
    out: Seq<u8>,
    full: Seq<u8>,
    acc: Seq<ValueView>,
)
    requires
        vs.len() == ts.len(),
        forall|i: int| 0 <= i < vs.len() ==> has_type(#[trigger] vs[i], ts[i]),
        forall|i: int| 0 <= i < ts.len() ==> solid(#[trigger] ts[i]),
        marshal::put_all(b, vs) == Ok::<Seq<u8>, Seq<char>>(out),
        out.len() < 0x1_0000_0000,
        agrees(full, out, b.len() as int),
    ensures
        wire::fields_at(full, b.len() as int, false, ts, acc) == Ok::<
            (Seq<ValueView>, int),
            Seq<char>,
        >((acc + vs, out.len() as int)),
        out.len() >= b.len(),
        vs.len() > 0 ==> out.len() > b.len(),
    decreases vs, 1int,
{
    if vs.len() == 0 {
        assert(acc + vs =~= acc);
    } else {
        let next = marshal::put(b, vs[0])->Ok_0;
        let rest = vs.skip(1);
        let rest_ts = ts.skip(1);
        marshal::lemma_put_all_starts(next, rest);
        lemma_agrees_prefix(full, out, next, b.len() as int);
        lemma_value(b, vs[0], ts[0], next, full);
        assert forall|i: int| 0 <= i < rest.len() implies has_type(#[trigger] rest[i], rest_ts[i]) by {
            assert(rest[i] == vs[i + 1]);
            assert(rest_ts[i] == ts[i + 1]);
        }
        assert forall|i: int| 0 <= i < rest_ts.len() implies solid(#[trigger] rest_ts[i]) by {
            assert(rest_ts[i] == ts[i + 1]);
        }
        lemma_fields(next, rest, rest_ts, out, full, acc.push(vs[0]));
        assert(acc.push(vs[0]) + rest =~= acc + vs);
    }
}

/// The two parts of a dictionary entry read back.
proof fn lemma_entry(
    b: Seq<u8>,
    vs: Seq<ValueView>,
    k: TypeView,
    w: TypeView,
    out: Seq<u8>,
    full: Seq<u8>,
)
    requires
        vs.len() == 2,
        has_type(vs[0], k),
        has_type(vs[1], w),
        solid(k),
        solid(w),
        marshal::put_all(b, vs) == Ok::<Seq<u8>, Seq<char>>(out),
        out.len() < 0x1_0000_0000,
        agrees(full, out, b.len() as int),
    ensures
        ({
            let mid = wire::value_at(full, b.len() as int, false, k);
            &&& mid matches Ok((x, r)) && x == vs[0] && b.len() < r
            &&& wire::value_at(full, mid->Ok_0.1, false, w) == Ok::<(ValueView, int), Seq<char>>(
                (vs[1], out.len() as int),
            )
        }),
        seq![vs[0], vs[1]] == vs,
        out.len() > b.len(),
    decreases vs, 1int,
{
    let next = marshal::put(b, vs[0])->Ok_0;
    let rest = vs.skip(1);
    assert(rest[0] == vs[1]);
    assert(rest.skip(1).len() == 0);
    marshal::lemma_put_all_starts(next, rest);
    lemma_agrees_prefix(full, out, next, b.len() as int);
    lemma_value(b, vs[0], k, next, full);
    assert(marshal::put_all(next, rest) == marshal::put(next, vs[1])) by {
        reveal_with_fuel(marshal::put_all, 2);
    }
    assert(decreases_to!(vs => vs[1]));
    lemma_value(next, vs[1], w, out, full);
    assert(seq![vs[0], vs[1]] =~= vs);
}

/// The types that the values' own signatures name.
spec fn types_of(vs: Seq<ValueView>) -> Seq<TypeView> {
    vs.map_values(|v: ValueView| wire::type_at(wire::signature_of(v), 0)->Ok_0.0)
}

/// The signature of a row of values names their types.
proof fn lemma_types_of(vs: Seq<ValueView>, sig: Seq<char>, p: int, acc: Seq<TypeView>)
    requires
        all_typed(vs),
        0 <= p <= sig.len(),
        sig.skip(p) == wire::signatures(vs),
    ensures
        wire::all_types(sig, p, acc) == Ok::<Seq<TypeView>, Seq<char>>(acc + types_of(vs)),
    decreases vs.len(),
{
    if vs.len() == 0 {
        assert(acc + types_of(vs) =~= acc);
        assert(sig.skip(p).len() == 0);
    } else {
        let one = wire::signature_of(vs[0]);
        let rest = vs.skip(1);
        assert(typed(vs[0]));
        let (t, q) = wire::type_at(one, 0)->Ok_0;
        wire::lemma_type_at(one, 0);
        assert(one.subrange(0, q) =~= one);
        assert(sig.skip(p).take(q) =~= one);
        assert(sig.skip(p).len() == sig.len() - p);
        assert(sig.subrange(p, p + q) =~= sig.skip(p).take(q));
        lemma_type_window(one, 0, sig, p);
        assert(sig.skip(p + q) =~= sig.skip(p).skip(q));
        assert(sig.skip(p).skip(q) =~= wire::signatures(rest));
        assert forall|i: int| 0 <= i < rest.len() implies typed(#[trigger] rest[i]) by {
            assert(rest[i] == vs[i + 1]);
        }
        lemma_types_of(rest, sig, p + q, acc.push(t));
        assert(acc.push(t) + types_of(rest) =~= acc + types_of(vs));
    }
}

/// The UTF-8 of one letter is short.
proof fn lemma_one_letter(c: char)
    ensures
        marshal::utf8(seq![c]).len() < 256,
{
    reveal_with_fuel(vstd::utf8::encode_utf8, 2);
    assert(seq![c].drop_first() =~= Seq::<char>::empty());
}

/// A header field is one of the values that can be written there.
spec fn plain(v: ValueView) -> bool {
    match v {
        ValueView::Path(_) | ValueView::Str(_) => true,
        ValueView::Sig(s) => marshal::utf8(s).len() < 256,
        _ => false,
    }
}

proof fn lemma_plain_typed(v: ValueView)
    requires
        plain(v),
    ensures
        typed(v),
{
    lemma_one_letter('o');
    lemma_one_letter('s');
    lemma_one_letter('g');
}

/// A header field reads back.
proof fn lemma_field(b: Seq<u8>, code: u8, v: ValueView, full: Seq<u8>, end: int, h: HeaderView)
    requires
        plain(v),
        agrees(full, marshal::with_field(b, code, v), b.len() as int),
        marshal::with_field(b, code, v).len() <= end <= full.len(),
        end < 0x1_0000_0000,
        wire::with_field(h, code, ValueView::Variant(Box::new(v))) is Ok,
    ensures
        wire::header_at(full, b.len() as int, false, end, h) == wire::header_at(
            full,
            marshal::with_field(b, code, v).len() as int,
            false,
            end,
            wire::with_field(h, code, ValueView::Variant(Box::new(v)))->Ok_0,
        ),
        marshal::starts(marshal::with_field(b, code, v), b),
{
    let out = marshal::with_field(b, code, v);
    let at = marshal::padded(b, 8).push(code);
    let var = ValueView::Variant(Box::new(v));
    marshal::lemma_padded(b, 8);
    wire::lemma_up_to(b.len() as int, 8);
    marshal::lemma_put_starts(at, var);
    assert(marshal::put(at, var) is Ok) by {
        reveal_with_fuel(marshal::put, 2);
    }
    assert(out.take(b.len() as int) =~= out.take(at.len() as int).take(b.len() as int));
    assert(at.take(b.len() as int) =~= marshal::padded(b, 8).take(b.len() as int));
    let q = wire::aligned(b.len() as int, 8);
    assert(full[q] == out[q]);
    assert(out.take(at.len() as int)[q] == out[q]);
    lemma_plain_typed(v);
    assert(agrees(full, out, at.len() as int));
    lemma_variant(at, v, out, full);
}

/// The header of a call that reads as `h` and has the given parts.
spec fn read_header_of(
    path: Seq<char>,
    interface: Seq<char>,
    member: Seq<char>,
    sig: Seq<char>,
) -> HeaderView {
    HeaderView {
        reply_serial: None,
        path: Some(path),
        interface: Some(interface),
        member: Some(member),
        error_name: None,
        signature: sig,
    }
}

/// The header of a call reads back.
proof fn lemma_call_head(
    serial: u32,
    flags: u8,
    destination: Seq<char>,
    path: Seq<char>,
    interface: Seq<char>,
    member: Seq<char>,
    sig: Seq<char>,
    full: Seq<u8>,
)
    requires
        marshal::utf8(sig).len() < 256,
        ({
            let head = marshal::call_head(
                serial,
                flags,
                destination,
                path,
                interface,
                member,
                sig,
            );
            agrees(full, head, 16) && head.len() < 0x1_0000_0000
        }),
    ensures
        ({
            let head = marshal::call_head(
                serial,
                flags,
                destination,
                path,
                interface,
                member,
                sig,
            );
            wire::header_at(full, 16, false, head.len() as int, wire::no_header()) == Ok::<
                HeaderView,
                Seq<char>,
            >(read_header_of(path, interface, member, sig))
        }),
{
    let head = marshal::call_head(serial, flags, destination, path, interface, member, sig);
    let end = head.len() as int;
    let b0 = marshal::fixed_head(serial, flags);
    let b1 = marshal::with_field(b0, 1, ValueView::Path(path));
    let b2 = marshal::with_field(b1, 2, ValueView::Str(interface));
    let b3 = marshal::with_field(b2, 3, ValueView::Str(member));
    let b4 = if destination.len() > 0 {
        marshal::with_field(b3, 6, ValueView::Str(destination))
    } else {
        b3
    };
    marshal::lemma_field_starts(b0, 1, ValueView::Path(path));
    marshal::lemma_field_starts(b1, 2, ValueView::Str(interface));
    marshal::lemma_field_starts(b2, 3, ValueView::Str(member));
    marshal::lemma_field_starts(b3, 6, ValueView::Str(destination));
    marshal::lemma_field_starts(b4, 8, ValueView::Sig(sig));
    assert(b3.take(b3.len() as int) =~= b3);
    assert(b4.take(b4.len() as int) =~= b4);
    lemma_agrees_prefix(full, head, b4, 16);
    lemma_agrees_prefix(full, b4, b3, 16);
    lemma_agrees_prefix(full, b3, b2, 16);
    lemma_agrees_prefix(full, b2, b1, 16);
    lemma_starts_trans(b2, b1, b0);
    lemma_starts_trans(b3, b2, b0);
    lemma_starts_trans(b4, b3, b0);
    lemma_starts_trans(head, b4, b0);
    assert(b0.len() == 16);
    let h0 = wire::no_header();
    let h1 = HeaderView { path: Some(path), ..h0 };
    let h2 = HeaderView { interface: Some(interface), ..h1 };
    let h3 = HeaderView { member: Some(member), ..h2 };
    lemma_field(b0, 1, ValueView::Path(path), full, end, h0);
    lemma_field(b1, 2, ValueView::Str(interface), full, end, h1);
    lemma_field(b2, 3, ValueView::Str(member), full, end, h2);
    if destination.len() > 0 {
        lemma_field(b3, 6, ValueView::Str(destination), full, end, h3);
    }
    if sig.len() > 0 {
        lemma_field(b4, 8, ValueView::Sig(sig), full, end, h3);
    } else {
        assert(sig =~= Seq::<char>::empty());
    }
}

pub(super) proof fn lemma_starts_trans(a: Seq<u8>, b: Seq<u8>, c: Seq<u8>)
    requires
        marshal::starts(a, b),
        marshal::starts(b, c),
    ensures
        marshal::starts(a, c),
{
    assert(a.take(c.len() as int) =~= a.take(b.len() as int).take(c.len() as int));
}

/// The header of a call begins with its first 16 bytes.
pub(super) proof fn lemma_call_head_starts(
    serial: u32,
    flags: u8,
    destination: Seq<char>,
    path: Seq<char>,
    interface: Seq<char>,
    member: Seq<char>,
    sig: Seq<char>,
)
    ensures
        marshal::starts(
            marshal::call_head(serial, flags, destination, path, interface, member, sig),
            marshal::fixed_head(serial, flags),
        ),
{
    let head = marshal::call_head(serial, flags, destination, path, interface, member, sig);
    let b0 = marshal::fixed_head(serial, flags);
    let b1 = marshal::with_field(b0, 1, ValueView::Path(path));
    let b2 = marshal::with_field(b1, 2, ValueView::Str(interface));
    let b3 = marshal::with_field(b2, 3, ValueView::Str(member));
    let b4 = if destination.len() > 0 {
        marshal::with_field(b3, 6, ValueView::Str(destination))
    } else {
        b3
    };
    marshal::lemma_field_starts(b0, 1, ValueView::Path(path));
    marshal::lemma_field_starts(b1, 2, ValueView::Str(interface));
    marshal::lemma_field_starts(b2, 3, ValueView::Str(member));
    marshal::lemma_field_starts(b3, 6, ValueView::Str(destination));
    marshal::lemma_field_starts(b4, 8, ValueView::Sig(sig));
    assert(b3.take(b3.len() as int) =~= b3);
    assert(b4.take(b4.len() as int) =~= b4);
    lemma_starts_trans(b2, b1, b0);
    lemma_starts_trans(b3, b2, b0);
    lemma_starts_trans(b4, b3, b0);
    lemma_starts_trans(head, b4, b0);
}

/// The first 16 bytes of a call read back.
pub(super) proof fn lemma_fixed(serial: u32, flags: u8, fields_len: int, body_len: int, raw: Seq<u8>)
    requires
        marshal::starts(raw, marshal::fixed_head(serial, flags)),
        0 <= fields_len < 0x1_0000_0000,
        0 <= body_len < 0x1_0000_0000,
    ensures
        ({
            let full = marshal::patched(marshal::patched(raw, 12, fields_len), 4, body_len);
            &&& full[0] == 0x6C
            &&& full[1] == wire::METHOD_CALL
            &&& wire::num32(full, 4, false) == body_len
            &&& wire::num32(full, 8, false) == serial
            &&& wire::num32(full, 12, false) == fields_len
        }),
{
    let fixed = marshal::fixed_head(serial, flags);
    let mid = marshal::patched(raw, 12, fields_len);
    let full = marshal::patched(mid, 4, body_len);
    assert(fixed.len() == 16);
    assert(raw.take(16)[0] == raw[0]);
    assert(raw.take(16)[1] == raw[1]);
    assert(mid[0] == raw[0] && mid[1] == raw[1]);
    assert(full.subrange(4, 8) =~= marshal::le32(body_len));
    assert(full.subrange(12, 16) =~= mid.subrange(12, 16));
    assert(mid.subrange(12, 16) =~= marshal::le32(fields_len));
    assert(full.subrange(8, 12) =~= raw.take(16).subrange(8, 12));
    assert(fixed.subrange(8, 12) =~= marshal::le32(serial as int));
    lemma_num32(full, 4, body_len);
    lemma_num32(full, 8, serial as int);
    lemma_num32(full, 12, fields_len);
}

/// Outside its lengths, a call holds what was written.
pub(super) proof fn lemma_outside(raw: Seq<u8>, fields_len: int, body_len: int)
    requires
        raw.len() >= 16,
    ensures
        ({
            let full = marshal::patched(marshal::patched(raw, 12, fields_len), 4, body_len);
            full.len() == raw.len() && agrees(full, raw, 16)
        }),
{
    let mid = marshal::patched(raw, 12, fields_len);
    let full = marshal::patched(mid, 4, body_len);
    assert forall|i: int| 16 <= i < raw.len() implies #[trigger] full[i] == raw[i] by {
        assert(mid[i] == raw[i]);
    }
}

/// A message whose parts read is read.
proof fn lemma_parts(full: Seq<u8>, serial: u32, h: HeaderView, ts: Seq<TypeView>, body: Seq<ValueView>)
    requires
        full.len() >= 16,
        full[0] == 0x6C,
        full[1] == wire::METHOD_CALL,
        wire::num32(full, 8, false) == serial,
        wire::num32(full, 4, false) <= wire::MAX_MESSAGE_BYTES,
        wire::num32(full, 12, false) <= wire::MAX_MESSAGE_BYTES,
        wire::aligned(16 + wire::num32(full, 12, false), 8) + wire::num32(full, 4, false)
            <= full.len(),
        wire::header_at(full, 16, false, 16 + wire::num32(full, 12, false), wire::no_header())
            == Ok::<HeaderView, Seq<char>>(h),
        wire::all_types(h.signature, 0, Seq::empty()) == Ok::<Seq<TypeView>, Seq<char>>(ts),
        wire::fields_at(
            full,
            wire::aligned(16 + wire::num32(full, 12, false), 8),
            false,
            ts,
            Seq::empty(),
        ) matches Ok((vs, _)) && vs == body,
    ensures
        wire::parsed(full) == Ok::<MessageView, Seq<char>>(
            MessageView {
                kind: wire::METHOD_CALL,
                serial,
                reply_serial: h.reply_serial,
                path: h.path,
                interface: h.interface,
                member: h.member,
                error_name: h.error_name,
                body,
            },
        ),
{
}

/// A call whose header reads is read.
proof fn lemma_assembled(
    serial: u32,
    h: HeaderView,
    body: Seq<ValueView>,
    head: Seq<u8>,
    raw: Seq<u8>,
    full: Seq<u8>,
)
    requires
        all_typed(body),
        h.signature == wire::signatures(body),
        head.len() >= 16,
        marshal::put_all(marshal::padded(head, 8), body) == Ok::<Seq<u8>, Seq<char>>(raw),
        raw.len() <= wire::MAX_MESSAGE_BYTES,
        full.len() == raw.len(),
        agrees(full, raw, 16),
        wire::header_at(full, 16, false, head.len() as int, wire::no_header()) == Ok::<
            HeaderView,
            Seq<char>,
        >(h),
        full[0] == 0x6C,
        full[1] == wire::METHOD_CALL,
        wire::num32(full, 4, false) == raw.len() - marshal::padded(head, 8).len(),
        wire::num32(full, 8, false) == serial,
        wire::num32(full, 12, false) == head.len() - 16,
    ensures
        wire::parsed(full) == Ok::<MessageView, Seq<char>>(
            MessageView {
                kind: wire::METHOD_CALL,
                serial,
                reply_serial: h.reply_serial,
                path: h.path,
                interface: h.interface,
                member: h.member,
                error_name: h.error_name,
                body,
            },
        ),
{
    let start = marshal::padded(head, 8);
    marshal::lemma_padded(head, 8);
    wire::lemma_up_to(head.len() as int, 8);
    marshal::lemma_put_all_starts(start, body);
    let sig = h.signature;
    assert(sig.skip(0) =~= sig);
    lemma_types_of(body, sig, 0, Seq::empty());
    let ts = types_of(body);
    assert(Seq::<TypeView>::empty() + ts =~= ts);
    assert forall|i: int| 0 <= i < ts.len() implies solid(#[trigger] ts[i]) && has_type(
        body[i],
        ts[i],
    ) by {
        assert(typed(body[i]));
    }
    lemma_fields(start, body, ts, raw, full, Seq::empty());
    assert(Seq::<ValueView>::empty() + body =~= body);
    lemma_parts(full, serial, h, ts, body);
}

pub(super) proof fn lemma_fixed_len(serial: u32, flags: u8)
    ensures
        marshal::fixed_head(serial, flags).len() == 16,
{
}

/// A call reads back: what was put into it comes out of its bytes, whatever its values, as long as
/// they are of the types that their signatures name, the signature is shorter than 256 bytes and
/// the message is not too large to be read.
pub proof fn law_call_reads_back(
    serial: u32,
    flags: u8,
    destination: Seq<char>,
    path: Seq<char>,
    interface: Seq<char>,
    member: Seq<char>,
    body: Seq<ValueView>,
)
    requires
        all_typed(body),
        marshal::utf8(wire::signatures(body)).len() < 256,
        marshal::call_bytes(serial, flags, destination, path, interface, member, body) matches Ok(
            out,
        ) && out.len() <= wire::MAX_MESSAGE_BYTES,
    ensures
        ({
            let bytes = marshal::call_bytes(
                serial,
                flags,
                destination,
                path,
                interface,
                member,
                body,
            )->Ok_0;
            wire::parsed(bytes) == Ok::<MessageView, Seq<char>>(
                MessageView {
                    kind: wire::METHOD_CALL,
                    serial,
                    reply_serial: None,
                    path: Some(path),
                    interface: Some(interface),
                    member: Some(member),
                    error_name: None,
                    body,
                },
            )
        }),
{
    let sig = wire::signatures(body);
    let head = marshal::call_head(serial, flags, destination, path, interface, member, sig);
    let start = marshal::padded(head, 8);
    let raw = marshal::put_all(start, body)->Ok_0;
    let (fields_len, body_len) = (head.len() - 16, raw.len() - start.len());
    let full = marshal::patched(marshal::patched(raw, 12, fields_len), 4, body_len);
    let fixed = marshal::fixed_head(serial, flags);
    marshal::lemma_padded(head, 8);
    marshal::lemma_put_all_starts(start, body);
    lemma_starts_trans(raw, start, head);
    lemma_call_head_starts(serial, flags, destination, path, interface, member, sig);
    lemma_starts_trans(raw, head, fixed);
    lemma_fixed_len(serial, flags);
    lemma_outside(raw, fields_len, body_len);
    lemma_agrees_prefix(full, raw, head, 16);
    lemma_call_head(serial, flags, destination, path, interface, member, sig, full);
    lemma_fixed(serial, flags, fields_len, body_len, raw);
    let h = read_header_of(path, interface, member, sig);
    lemma_assembled(serial, h, body, head, raw, full);
}

/// A dialog that subscribed ends its subscription before it is over: it is over only if it could
/// not subscribe, or after it left; and leaving means to end the subscription.
pub proof fn law_dialog_unsubscribes(
    predicted: Seq<char>,
    phase: filechooser::PhaseView,
    event: filechooser::EventView,
)
    ensures
        ({
            let (next, action) = filechooser::step(predicted, phase, event);
            &&& action is Finish ==> phase is Subscribing || phase is Leaving || phase is Over
            &&& action is Finish <==> next is Over
            &&& next is Leaving ==> action == filechooser::ActionView::RemoveMatch(
                filechooser::match_rule(predicted),
            )
        }),
{
}

/// A dialog is opened only after its answer was subscribed to.
pub proof fn law_subscribe_first(
    predicted: Seq<char>,
    phase: filechooser::PhaseView,
    event: filechooser::EventView,
)
    ensures
        filechooser::step(predicted, phase, event).1 is OpenFile <==> phase is Subscribing
            && event is Done,
        !(filechooser::step(predicted, phase, event).0 is Subscribing),
{
}

/// Whether a character may stand in the token of a request.
pub open spec fn token_char(c: char) -> bool {
    'a' <= c <= 'z' || 'A' <= c <= 'Z' || '0' <= c <= '9' || c == '_'
}

/// The token of a request holds nothing but letters, digits and underscores.
pub proof fn law_token_chars(pid: u32, millis: u32, i: int)
    requires
        0 <= i < ("guanqi_"@ + text::decimal(pid as nat) + "_"@ + text::decimal(
            millis as nat,
        )).len(),
    ensures
        token_char(
            ("guanqi_"@ + text::decimal(pid as nat) + "_"@ + text::decimal(millis as nat))[i],
        ),
{
    reveal_strlit("guanqi_");
    reveal_strlit("_");
    text::lemma_decimal_digits(pid as nat);
    text::lemma_decimal_digits(millis as nat);
}

} // verus!
