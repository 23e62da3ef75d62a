//! How method calls are written, lowest byte first. Every byte of padding is 0.

use vstd::prelude::*;
use super::wire::{self, sig_align, Value, ValueView};
use super::{PortalError, PortalErrorView};

verus! {

/// The two bytes of a number, lowest first.
pub open spec fn le16(x: int) -> Seq<u8> {
    seq![(x % 256) as u8, (x / 256 % 256) as u8]
}

/// The four bytes of a number, lowest first.
pub open spec fn le32(x: int) -> Seq<u8> {
    le16(x % 65536) + le16(x / 65536 % 65536)
}

/// The eight bytes of a number, lowest first.
pub open spec fn le64(x: int) -> Seq<u8> {
    le32(x % 0x1_0000_0000) + le32(x / 0x1_0000_0000 % 0x1_0000_0000)
}

/// A signed number as the pattern of `size` values that stands for it.
pub open spec fn pattern(x: int, size: int) -> int {
    if x < 0 {
        x + size
    } else {
        x
    }
}

/// The bytes, filled with zeros up to a multiple of `n`.
pub open spec fn padded(b: Seq<u8>, n: int) -> Seq<u8> {
    b + Seq::new((wire::aligned(b.len() as int, n) - b.len()) as nat, |i: int| 0u8)
}

/// The text in UTF-8.
pub open spec fn utf8(s: Seq<char>) -> Seq<u8> {
    vstd::utf8::encode_utf8(s)
}

/// A string: its length, its bytes and a NUL.
pub open spec fn string_bytes(s: Seq<char>) -> Seq<u8> {
    le32(utf8(s).len() as int) + utf8(s) + seq![0u8]
}

/// A signature: its length in one byte, its bytes and a NUL.
pub open spec fn sig_bytes(s: Seq<char>) -> Seq<u8> {
    seq![(utf8(s).len() % 256) as u8] + utf8(s) + seq![0u8]
}

/// The bytes with a number of four bytes put in at `at`.
pub open spec fn patched(b: Seq<u8>, at: int, x: int) -> Seq<u8> {
    b.take(at) + le32(x) + b.skip(at + 4)
}

/// The bytes `b` with the values behind them, or what is wrong.
pub open spec fn put_all(b: Seq<u8>, vs: Seq<ValueView>) -> Result<Seq<u8>, Seq<char>>
    decreases vs, 1int,
{
    if vs.len() == 0 {
        Ok(b)
    } else {
        match put(b, vs[0]) {
            Ok(next) => put_all(next, vs.skip(1)),
            Err(e) => Err(e),
        }
    }
}

/// The bytes `b` with a value behind them, or what is wrong.
pub open spec fn put(b: Seq<u8>, v: ValueView) -> Result<Seq<u8>, Seq<char>>
    decreases v, 0int,
{
    match v {
        ValueView::Byte(x) => Ok(b.push(x)),
        ValueView::Bool(x) => Ok(
            padded(b, 4) + le32(
                if x {
                    1
                } else {
                    0
                },
            ),
        ),
        ValueView::I16(x) => Ok(padded(b, 2) + le16(pattern(x as int, 0x1_0000))),
        ValueView::U16(x) => Ok(padded(b, 2) + le16(x as int)),
        ValueView::I32(x) => Ok(padded(b, 4) + le32(pattern(x as int, 0x1_0000_0000))),
        ValueView::U32(x) => Ok(padded(b, 4) + le32(x as int)),
        ValueView::I64(x) => Ok(padded(b, 8) + le64(pattern(x as int, 0x1_0000_0000_0000_0000))),
        ValueView::U64(x) => Ok(padded(b, 8) + le64(x as int)),
        ValueView::F64(x) => Ok(padded(b, 8) + le64(x as int)),
        ValueView::Str(s) => Ok(padded(b, 4) + string_bytes(s)),
        ValueView::Path(s) => Ok(padded(b, 4) + string_bytes(s)),
        ValueView::Sig(s) => Ok(b + sig_bytes(s)),
        ValueView::Array { elem, items } => match wire::sig_alignment(elem) {
            Err(e) => Err(e),
            Ok(n) => {
                let head = padded(b, 4);
                let start = padded(head + le32(0), n);
                match put_all(start, items) {
                    Err(e) => Err(e),
                    Ok(out) => Ok(patched(out, head.len() as int, out.len() - start.len())),
                }
            },
        },
        ValueView::Struct(fields) => put_all(padded(b, 8), fields),
        ValueView::Variant(inner) => put(b + sig_bytes(wire::signature_of(*inner)), *inner),
    }
}

/// The bytes `b` with a header field behind them: its code, and its value in a variant.
pub open spec fn with_field(b: Seq<u8>, code: u8, v: ValueView) -> Seq<u8> {
    put(padded(b, 8).push(code), ValueView::Variant(Box::new(v)))->Ok_0
}

/// The first 16 bytes of a call, without the lengths.
pub open spec fn fixed_head(serial: u32, flags: u8) -> Seq<u8> {
    seq![0x6Cu8, wire::METHOD_CALL, flags, 1u8] + le32(0) + le32(serial as int) + le32(0)
}

/// The header of a call, without the lengths.
pub open spec fn call_head(
    serial: u32,
    flags: u8,
    destination: Seq<char>,
    path: Seq<char>,
    interface: Seq<char>,
    member: Seq<char>,
    sig: Seq<char>,
) -> Seq<u8> {
    let b1 = with_field(fixed_head(serial, flags), 1, ValueView::Path(path));
    let b2 = with_field(b1, 2, ValueView::Str(interface));
    let b3 = with_field(b2, 3, ValueView::Str(member));
    let b4 = if destination.len() > 0 {
        with_field(b3, 6, ValueView::Str(destination))
    } else {
        b3
    };
    if sig.len() > 0 {
        with_field(b4, 8, ValueView::Sig(sig))
    } else {
        b4
    }
}

/// The bytes of a call, or what is wrong with its values.
pub open spec fn call_bytes(
    serial: u32,
    flags: u8,
    destination: Seq<char>,
    path: Seq<char>,
    interface: Seq<char>,
    member: Seq<char>,
    body: Seq<ValueView>,
) -> Result<Seq<u8>, Seq<char>> {
    let sig = wire::signatures(body);
    let head = call_head(serial, flags, destination, path, interface, member, sig);
    let start = padded(head, 8);
    match put_all(start, body) {
        Err(e) => Err(e),
        Ok(out) => Ok(
            patched(patched(out, 12, head.len() - 16), 4, out.len() - start.len()),
        ),
    }
}

fn push_u16(buf: &mut Vec<u8>, x: u16)
    ensures
        final(buf)@ == old(buf)@ + le16(x as int),
{
    let ghost before = buf@;
    buf.push((x % 256) as u8);
    buf.push((x / 256 % 256) as u8);
    assert(buf@ =~= before + le16(x as int));
}

fn push_u32(buf: &mut Vec<u8>, x: u32)
    ensures
        final(buf)@ == old(buf)@ + le32(x as int),
{
    let ghost before = buf@;
    push_u16(buf, (x % 65536) as u16);
    push_u16(buf, (x / 65536 % 65536) as u16);
    assert(buf@ =~= before + le32(x as int));
}

fn push_u64(buf: &mut Vec<u8>, x: u64)
    ensures
        final(buf)@ == old(buf)@ + le64(x as int),
{
    let ghost before = buf@;
    push_u32(buf, (x % 0x1_0000_0000) as u32);
    push_u32(buf, (x / 0x1_0000_0000 % 0x1_0000_0000) as u32);
    assert(buf@ =~= before + le64(x as int));
}

fn push_bytes(buf: &mut Vec<u8>, bytes: &[u8])
    ensures
        final(buf)@ == old(buf)@ + bytes@,
{
    let ghost before = buf@;
    let mut i: usize = 0;
    while i < bytes.len()
        invariant
            i <= bytes@.len(),
            buf@ == before + bytes@.take(i as int),
        decreases bytes@.len() - i,
    {
        buf.push(bytes[i]);
        i += 1;
        assert(buf@ =~= before + bytes@.take(i as int));
    }
    assert(bytes@.take(i as int) =~= bytes@);
}

fn align(buf: &mut Vec<u8>, n: usize)
    requires
        n == 1 || n == 2 || n == 4 || n == 8,
    ensures
        final(buf)@ == padded(old(buf)@, n as int),
{
    let ghost before = buf@;
    let ghost end = wire::aligned(before.len() as int, n as int);
    proof {
        wire::lemma_up_to(before.len() as int, n as int);
    }
    while buf.len() % n != 0
        invariant
            n == 1 || n == 2 || n == 4 || n == 8,
            before.len() <= buf@.len() <= end,
            end % (n as int) == 0,
            end < before.len() + n,
            buf@ == before + Seq::new((buf@.len() - before.len()) as nat, |i: int| 0u8),
        decreases end - buf@.len(),
    {
        buf.push(0);
        assert(buf@ =~= before + Seq::new((buf@.len() - before.len()) as nat, |i: int| 0u8));
    }
    proof {
        wire::lemma_multiples(end, buf@.len() as int, n as int);
    }
}

/// The bytes `out` begin with `b`.
pub open spec fn starts(out: Seq<u8>, b: Seq<u8>) -> bool {
    out.len() >= b.len() && out.take(b.len() as int) == b
}

/// Filling up keeps what is there.
pub proof fn lemma_padded(b: Seq<u8>, n: int)
    requires
        n == 1 || n == 2 || n == 4 || n == 8,
    ensures
        starts(padded(b, n), b),
        padded(b, n).len() == wire::aligned(b.len() as int, n),
{
    wire::lemma_up_to(b.len() as int, n);
    assert(padded(b, n).take(b.len() as int) =~= b);
}

/// A value is written behind what is there.
pub proof fn lemma_put_starts(b: Seq<u8>, v: ValueView)
    ensures
        put(b, v) matches Ok(out) ==> starts(out, b),
    decreases v, 0int,
{
    lemma_padded(b, 2);
    lemma_padded(b, 4);
    lemma_padded(b, 8);
    match v {
        ValueView::Array { elem, items } => {
            if let Ok(n) = wire::sig_alignment(elem) {
                let head = padded(b, 4);
                lemma_padded(head + le32(0), n);
                let start = padded(head + le32(0), n);
                lemma_put_all_starts(start, items);
                if let Ok(out) = put_all(start, items) {
                    let r = patched(out, head.len() as int, out.len() - start.len());
                    assert(out.take(start.len() as int).take((head + le32(0)).len() as int).take(
                        b.len() as int,
                    ) =~= b);
                    assert(r.take(b.len() as int) =~= out.take(b.len() as int));
                    assert(out.take(b.len() as int) =~= b);
                }
            }
        },
        ValueView::Struct(fields) => {
            lemma_put_all_starts(padded(b, 8), fields);
            if let Ok(out) = put_all(padded(b, 8), fields) {
                assert(out.take(b.len() as int) =~= out.take(padded(b, 8).len() as int).take(
                    b.len() as int,
                ));
            }
        },
        ValueView::Variant(inner) => {
            let next = b + sig_bytes(wire::signature_of(*inner));
            lemma_put_starts(next, *inner);
            if let Ok(out) = put(next, *inner) {
                assert(out.take(b.len() as int) =~= out.take(next.len() as int).take(
                    b.len() as int,
                ));
                assert(next.take(b.len() as int) =~= b);
            }
        },
        _ => {
            if let Ok(out) = put(b, v) {
                assert(out.take(b.len() as int) =~= b);
            }
        },
    }
}

/// Values are written behind what is there.
pub proof fn lemma_put_all_starts(b: Seq<u8>, vs: Seq<ValueView>)
    ensures
        put_all(b, vs) matches Ok(out) ==> starts(out, b),
    decreases vs, 1int,
{
    if vs.len() == 0 {
        assert(b.take(b.len() as int) =~= b);
    } else {
        lemma_put_starts(b, vs[0]);
        if let Ok(next) = put(b, vs[0]) {
            lemma_put_all_starts(next, vs.skip(1));
            if let Ok(out) = put_all(next, vs.skip(1)) {
                assert(out.take(b.len() as int) =~= out.take(next.len() as int).take(
                    b.len() as int,
                ));
            }
        }
    }
}

/// Numbers of four bytes are taken modulo what they can hold.
proof fn lemma_le32_mod(x: int)
    requires
        0 <= x,
    ensures
        le32(x % 0x1_0000_0000) == le32(x),
{
    let y = x % 0x1_0000_0000;
    assert(y % 65536 == x % 65536);
    assert(y / 65536 % 65536 == x / 65536 % 65536);
}

fn push_len(buf: &mut Vec<u8>, n: usize)
    ensures
        final(buf)@ == old(buf)@ + le32(n as int),
{
    proof {
        lemma_le32_mod(n as int);
    }
    push_u32(buf, (n as u64 % 0x1_0000_0000u64) as u32);
}

fn push_string(buf: &mut Vec<u8>, s: &str)
    ensures
        final(buf)@ == old(buf)@ + string_bytes(s@),
{
    let ghost before = buf@;
    let bytes = s.as_bytes();
    push_len(buf, bytes.len());
    push_bytes(buf, bytes);
    buf.push(0);
    assert(buf@ =~= before + string_bytes(s@));
}

fn push_sig(buf: &mut Vec<u8>, s: &str)
    ensures
        final(buf)@ == old(buf)@ + sig_bytes(s@),
{
    let ghost before = buf@;
    let bytes = s.as_bytes();
    buf.push((bytes.len() % 256) as u8);
    push_bytes(buf, bytes);
    buf.push(0);
    assert(buf@ =~= before + sig_bytes(s@));
}

/// Puts a number of four bytes in at `at`.
fn patch_len(buf: &mut Vec<u8>, at: usize, n: usize)
    requires
        at + 4 <= old(buf)@.len(),
    ensures
        final(buf)@ == patched(old(buf)@, at as int, n as int),
{
    let ghost before = buf@;
    let room = buf.len();
    assert(at + 4 <= room);
    let mut bytes: Vec<u8> = Vec::new();
    push_len(&mut bytes, n);
    assert(bytes@ =~= le32(n as int));
    buf.set(at, bytes[0]);
    buf.set(at + 1, bytes[1]);
    buf.set(at + 2, bytes[2]);
    buf.set(at + 3, bytes[3]);
    assert(buf@ =~= patched(before, at as int, n as int));
}

/// Writes a value.
fn marshal_value(buf: &mut Vec<u8>, value: &Value) -> (r: Result<(), PortalError>)
    ensures
        match put(old(buf)@, value@) {
            Ok(out) => r is Ok && final(buf)@ == out,
            Err(e) => r matches Err(x) && x@ == PortalErrorView::Protocol(e),
        },
    decreases value, 0int,
{
    match value {
        Value::Byte(x) => buf.push(*x),
        Value::Bool(x) => {
            align(buf, 4);
            push_u32(
                buf,
                if *x {
                    1
                } else {
                    0
                },
            );
        },
        Value::I16(x) => {
            align(buf, 2);
            push_u16(
                buf,
                if *x < 0 {
                    (*x as i32 + 0x1_0000) as u16
                } else {
                    *x as u16
                },
            );
        },
        Value::U16(x) => {
            align(buf, 2);
            push_u16(buf, *x);
        },
        Value::I32(x) => {
            align(buf, 4);
            push_u32(
                buf,
                if *x < 0 {
                    (*x as i64 + 0x1_0000_0000) as u32
                } else {
                    *x as u32
                },
            );
        },
        Value::U32(x) => {
            align(buf, 4);
            push_u32(buf, *x);
        },
        Value::I64(x) => {
            align(buf, 8);
            push_u64(
                buf,
                if *x < 0 {
                    (*x as i128 + 0x1_0000_0000_0000_0000) as u64
                } else {
                    *x as u64
                },
            );
        },
        Value::U64(x) => {
            align(buf, 8);
            push_u64(buf, *x);
        },
        Value::F64(x) => {
            align(buf, 8);
            push_u64(buf, *x);
        },
        Value::Str(s) => {
            align(buf, 4);
            push_string(buf, s.as_str());
        },
        Value::Path(s) => {
            align(buf, 4);
            push_string(buf, s.as_str());
        },
        Value::Sig(s) => {
            push_sig(buf, s.as_str());
        },
        Value::Array { elem, items } => {
            let n = match sig_align(elem.as_str()) {
                Ok(n) => n,
                Err(e) => {
                    return Err(e);
                },
            };
            align(buf, 4);
            let at = buf.len();
            push_u32(buf, 0);
            align(buf, n);
            let start = buf.len();
            let ghost before = buf@;
            assert(decreases_to!(value => value->items));
            proof {
                lemma_put_all_starts(before, wire::value_views(items@));
                match value@ {
                    ValueView::Array { elem, items: vs } => assert(vs =~= wire::value_views(items@)),
                    _ => {},
                }
            }
            match marshal_values(buf, items) {
                Ok(_) => {},
                Err(e) => {
                    return Err(e);
                },
            }
            let end = buf.len();
            patch_len(buf, at, end - start);
        },
        Value::Struct(fields) => {
            align(buf, 8);
            assert(decreases_to!(value => value->Struct_0));
            proof {
                match value@ {
                    ValueView::Struct(vs) => assert(vs =~= wire::value_views(fields@)),
                    _ => {},
                }
            }
            return marshal_values(buf, fields);
        },
        Value::Variant(inner) => {
            let sig = inner.signature();
            push_sig(buf, sig.as_str());
            return marshal_value(buf, inner);
        },
    }
    Ok(())
}

/// Writes values one after the other.
fn marshal_values(buf: &mut Vec<u8>, values: &Vec<Value>) -> (r: Result<(), PortalError>)
    ensures
        match put_all(old(buf)@, wire::value_views(values@)) {
            Ok(out) => r is Ok && final(buf)@ == out,
            Err(e) => r matches Err(x) && x@ == PortalErrorView::Protocol(e),
        },
    decreases values, 1int,
{
    let ghost before = buf@;
    let ghost vs = wire::value_views(values@);
    let mut i: usize = 0;
    assert(vs.skip(0) =~= vs);
    while i < values.len()
        invariant
            i <= values@.len(),
            vs == wire::value_views(values@),
            before == old(buf)@,
            put_all(before, vs) == put_all(buf@, vs.skip(i as int)),
        decreases values@.len() - i,
    {
        assert(vs.skip(i as int)[0] == values@[i as int]@);
        assert(vs.skip(i as int).skip(1) =~= vs.skip(i + 1));
        assert(decreases_to!(values => values@[i as int]));
        match marshal_value(buf, &values[i]) {
            Ok(_) => {},
            Err(e) => {
                return Err(e);
            },
        }
        i += 1;
    }
    Ok(())
}

/// Writes a header field.
fn field(buf: &mut Vec<u8>, code: u8, value: &Value)
    requires
        value@ is Path || value@ is Str || value@ is Sig,
    ensures
        final(buf)@ == with_field(old(buf)@, code, value@),
{
    align(buf, 8);
    buf.push(code);
    let sig = value.signature();
    push_sig(buf, sig.as_str());
    let _ = marshal_value(buf, value);
}

/// The signature of a row of values.
fn signatures(body: &Vec<Value>) -> (r: String)
    ensures
        r@ == wire::signatures(wire::value_views(body@)),
{
    let ghost vs = wire::value_views(body@);
    let mut out = String::new();
    let mut i: usize = 0;
    assert(vs.skip(0) =~= vs);
    assert(out@ + wire::signatures(vs) =~= wire::signatures(vs));
    while i < body.len()
        invariant
            i <= body@.len(),
            vs == wire::value_views(body@),
            out@ + wire::signatures(vs.skip(i as int)) == wire::signatures(vs),
        decreases body@.len() - i,
    {
        let ghost here = out@;
        let sig = body[i].signature();
        out.append(sig.as_str());
        proof {
            let rest = vs.skip(i as int);
            assert(rest.skip(1) =~= vs.skip(i + 1));
            assert(rest[0] == body@[i as int]@);
            assert(out@ + wire::signatures(vs.skip(i + 1)) =~= here + (wire::signature_of(rest[0])
                + wire::signatures(vs.skip(i + 1))));
        }
        i += 1;
    }
    assert(out@ =~= wire::signatures(vs));
    out
}

/// A header field is written behind what is there.
pub proof fn lemma_field_starts(b: Seq<u8>, code: u8, v: ValueView)
    requires
        v is Path || v is Str || v is Sig,
    ensures
        starts(with_field(b, code, v), b),
{
    lemma_padded(b, 8);
    let at = padded(b, 8).push(code);
    lemma_put_starts(at, ValueView::Variant(Box::new(v)));
    let out = with_field(b, code, v);
    assert(put(at, ValueView::Variant(Box::new(v))) is Ok) by {
        reveal_with_fuel(put, 2);
    }
    assert(out.take(b.len() as int) =~= out.take(at.len() as int).take(b.len() as int));
    assert(at.take(b.len() as int) =~= padded(b, 8).take(b.len() as int));
}

/// Writes a method call, and returns all its bytes.
pub(crate) fn marshal_call(
    serial: u32,
    flags: u8,
    destination: &str,
    path: &str,
    interface: &str,
    member: &str,
    body: &Vec<Value>,
) -> (r: Result<Vec<u8>, PortalError>)
    ensures
        match call_bytes(
            serial,
            flags,
            destination@,
            path@,
            interface@,
            member@,
            wire::value_views(body@),
        ) {
            Ok(out) => r matches Ok(x) && x@ == out,
            Err(e) => r matches Err(x) && x@ == PortalErrorView::Protocol(e),
        },
{
    let ghost vs = wire::value_views(body@);
    let sig = signatures(body);
    let mut buf: Vec<u8> = Vec::new();
    buf.push(0x6C);
    buf.push(wire::METHOD_CALL);
    buf.push(flags);
    buf.push(1);
    push_u32(&mut buf, 0);
    push_u32(&mut buf, serial);
    push_u32(&mut buf, 0);
    assert(buf@ =~= fixed_head(serial, flags));
    let ghost b0 = buf@;
    field(&mut buf, 1, &Value::Path(path.to_owned()));
    let ghost b1 = buf@;
    field(&mut buf, 2, &Value::Str(interface.to_owned()));
    let ghost b2 = buf@;
    field(&mut buf, 3, &Value::Str(member.to_owned()));
    let ghost b3 = buf@;
    if !destination.is_empty() {
        field(&mut buf, 6, &Value::Str(destination.to_owned()));
    }
    let ghost b4 = buf@;
    proof {
        lemma_field_starts(b0, 1, ValueView::Path(path@));
        lemma_field_starts(b1, 2, ValueView::Str(interface@));
        lemma_field_starts(b2, 3, ValueView::Str(member@));
        lemma_field_starts(b3, 6, ValueView::Str(destination@));
        lemma_field_starts(b4, 8, ValueView::Sig(sig@));
    }
    if !sig.as_str().is_empty() {
        field(&mut buf, 8, &Value::Sig(sig));
    }
    let head = buf.len();
    proof {
        lemma_padded(buf@, 8);
        lemma_put_all_starts(padded(buf@, 8), vs);
    }
    align(&mut buf, 8);
    let start = buf.len();
    match marshal_values(&mut buf, body) {
        Ok(_) => {},
        Err(e) => {
            return Err(e);
        },
    }
    let end = buf.len();
    patch_len(&mut buf, 12, head - 16);
    patch_len(&mut buf, 4, end - start);
    Ok(buf)
}

} // verus!
