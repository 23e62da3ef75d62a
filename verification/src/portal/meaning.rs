//! What bytes, calls, addresses and dialogs mean.

use vstd::prelude::*;
use super::dbus;
use super::filechooser;
use super::laws;
use super::marshal;
use super::wire::{self, HeaderView, MessageView, TypeView, ValueView};
use crate::text;

verus! {

// ---- numbers and texts on the wire ----

/// A number is written with its lowest byte first: each byte weighs 256 times the one before it.
pub proof fn law_lowest_byte_first(x: int)
    requires
        0 <= x < 0x1_0000_0000,
    ensures
        x < 0x1_0000 ==> {
            let b = marshal::le16(x);
            b.len() == 2 && x == b[0] + 256 * b[1]
        },
        ({
            let b = marshal::le32(x);
            b.len() == 4 && x == b[0] + 256 * b[1] + 65536 * b[2] + 16777216 * b[3]
        }),
{
    lemma_two_bytes(x % 65536);
    lemma_two_bytes(x / 65536);
    if x < 0x1_0000 {
        lemma_two_bytes(x);
    }
}

proof fn lemma_two_bytes(x: int)
    requires
        0 <= x < 0x1_0000,
    ensures
        marshal::le16(x).len() == 2,
        x == marshal::le16(x)[0] + 256 * marshal::le16(x)[1],
{
}

/// A number of eight bytes is written as its lower half and then its upper half.
pub proof fn law_lower_half_first(x: int)
    requires
        0 <= x < 0x1_0000_0000_0000_0000,
    ensures
        ({
            let b = marshal::le64(x);
            &&& b.len() == 8
            &&& b.take(4) == marshal::le32(x % 0x1_0000_0000)
            &&& b.skip(4) == marshal::le32(x / 0x1_0000_0000)
        }),
{
    let b = marshal::le64(x);
    let (lo, hi) = (marshal::le32(x % 0x1_0000_0000), marshal::le32(x / 0x1_0000_0000));
    assert(x / 0x1_0000_0000 % 0x1_0000_0000 == x / 0x1_0000_0000);
    laws::lemma_halves(lo, hi);
    assert(b.take(4) =~= lo);
    assert(b.skip(4) =~= hi);
}

/// A number is read by its byte order: lowest byte first, or highest byte first.
pub proof fn law_bytes_as_a_number(b: Seq<u8>, p: int)
    requires
        0 <= p,
        p + 8 <= b.len(),
    ensures
        wire::num16(b, p, false) == b[p] + 256 * b[p + 1],
        wire::num16(b, p, true) == b[p + 1] + 256 * b[p],
        wire::num32(b, p, false) == b[p] + 256 * b[p + 1] + 65536 * b[p + 2] + 16777216 * b[p + 3],
        wire::num32(b, p, true) == b[p + 3] + 256 * b[p + 2] + 65536 * b[p + 1] + 16777216 * b[p],
        wire::num64(b, p, false) == wire::num32(b, p, false) + 0x1_0000_0000 * (b[p + 4] + 256
            * b[p + 5] + 65536 * b[p + 6] + 16777216 * b[p + 7]),
        wire::num64(b, p, true) == 0x1_0000_0000 * wire::num32(b, p, true) + (b[p + 7] + 256
            * b[p + 6] + 65536 * b[p + 5] + 16777216 * b[p + 4]),
{
}

/// The bytes read from the back are the same number in the other order.
pub proof fn law_orders_mirror(b: Seq<u8>, p: int)
    requires
        0 <= p,
        p + 4 <= b.len(),
    ensures
        wire::num32(b, p, true) == wire::num32(b.reverse(), b.len() - p - 4, false),
{
}

/// A signed number and its pattern differ by nothing, or by the number of patterns where the
/// highest bit is set.
pub proof fn law_signed_pattern(x: u16, y: u32, z: u64)
    ensures
        wire::signed16(x) == x as int || wire::signed16(x) == x - 0x1_0000,
        wire::signed16(x) < 0 <==> x >= 0x8000,
        wire::signed32(y) == y as int || wire::signed32(y) == y - 0x1_0000_0000,
        wire::signed32(y) < 0 <==> y >= 0x8000_0000,
        wire::signed64(z) == z as int || wire::signed64(z) == z - 0x1_0000_0000_0000_0000,
        wire::signed64(z) < 0 <==> z >= 0x8000_0000_0000_0000,
        marshal::pattern(wire::signed16(x) as int, 0x1_0000) == x,
        marshal::pattern(wire::signed32(y) as int, 0x1_0000_0000) == y,
        marshal::pattern(wire::signed64(z) as int, 0x1_0000_0000_0000_0000) == z,
{
}

/// What stands behind bytes begins at the next multiple of its alignment: less than `n` zeros are
/// filled in, and none where the bytes end there already.
pub proof fn law_filled_with_zeros(b: Seq<u8>, n: int)
    requires
        n == 1 || n == 2 || n == 4 || n == 8,
    ensures
        ({
            let out = marshal::padded(b, n);
            &&& out.len() % (n as nat) == 0
            &&& b.len() <= out.len() < b.len() + n
            &&& b.len() % (n as nat) == 0 ==> out == b
            &&& out.take(b.len() as int) == b
            &&& forall|i: int| b.len() <= i < out.len() ==> out[i] == 0
        }),
{
    reveal(wire::aligned);
    let out = marshal::padded(b, n);
    let len = b.len() as int;
    assert(out.take(len) =~= b);
    assert(n == 1 ==> wire::aligned(len, 1) == len);
    assert(n == 2 && len % 2 == 0 ==> wire::aligned(len, 2) == len);
    assert(n == 4 && len % 4 == 0 ==> wire::aligned(len, 4) == len);
    assert(n == 8 && len % 8 == 0 ==> wire::aligned(len, 8) == len);
    if b.len() % (n as nat) == 0 {
        assert(out =~= b);
    }
}

/// A number of two bytes stands behind what was written, at a multiple of its size, and nothing
/// comes behind it.
pub proof fn law_u16_written(b: Seq<u8>, x: u16)
    ensures
        marshal::put(b, ValueView::U16(x)) matches Ok(o) && {
            &&& o.len() % 2 == 0
            &&& b.len() + 2 <= o.len() < b.len() + 4
            &&& wire::num16(o, o.len() - 2, false) == x
            &&& o.take(b.len() as int) == b
        },
{
    law_filled_with_zeros(b, 2);
    let o = marshal::padded(b, 2) + marshal::le16(x as int);
    let n = o.len() as int;
    assert(o.take(b.len() as int) =~= marshal::padded(b, 2).take(b.len() as int));
    assert(o.subrange(n - 2, n) =~= marshal::le16(x as int));
    assert(o[n - 2] == marshal::le16(x as int)[0] && o[n - 1] == marshal::le16(x as int)[1]);
    laws::lemma_num16(o, n - 2, x as int);
}

/// A number of four bytes stands behind what was written, at a multiple of its size, and nothing
/// comes behind it.
pub proof fn law_u32_written(b: Seq<u8>, x: u32)
    ensures
        marshal::put(b, ValueView::U32(x)) matches Ok(o) && {
            &&& o.len() % 4 == 0
            &&& b.len() + 4 <= o.len() < b.len() + 8
            &&& wire::num32(o, o.len() - 4, false) == x
            &&& o.take(b.len() as int) == b
        },
{
    law_filled_with_zeros(b, 4);
    let o = marshal::padded(b, 4) + marshal::le32(x as int);
    let n = o.len() as int;
    assert(o.take(b.len() as int) =~= marshal::padded(b, 4).take(b.len() as int));
    assert(o.subrange(n - 4, n) =~= marshal::le32(x as int));
    laws::lemma_num32(o, n - 4, x as int);
}

/// A number of eight bytes stands behind what was written, at a multiple of its size, and nothing
/// comes behind it.
pub proof fn law_u64_written(b: Seq<u8>, x: u64)
    ensures
        marshal::put(b, ValueView::U64(x)) matches Ok(o) && {
            &&& o.len() % 8 == 0
            &&& b.len() + 8 <= o.len() < b.len() + 16
            &&& wire::num64(o, o.len() - 8, false) == x
            &&& o.take(b.len() as int) == b
        },
{
    law_filled_with_zeros(b, 8);
    let o = marshal::padded(b, 8) + marshal::le64(x as int);
    let n = o.len() as int;
    assert(o.take(b.len() as int) =~= marshal::padded(b, 8).take(b.len() as int));
    assert(o.subrange(n - 8, n) =~= marshal::le64(x as int));
    laws::lemma_num64(o, n - 8, x as int);
}

/// A text is written with the number of its bytes in front, not counting the NUL that ends it.
pub proof fn law_text_written(b: Seq<u8>, s: Seq<char>)
    requires
        vstd::utf8::encode_utf8(s).len() < 0x1_0000_0000,
    ensures
        ({
            let t = vstd::utf8::encode_utf8(s);
            let n = t.len() as int;
            &&& marshal::put(b, ValueView::Path(s)) == marshal::put(b, ValueView::Str(s))
            &&& marshal::put(b, ValueView::Str(s)) matches Ok(o) && {
                &&& o.last() == 0
                &&& o.subrange(o.len() - 1 - n, o.len() - 1) == t
                &&& (o.len() - 5 - n) % 4 == 0
                &&& b.len() <= o.len() - 5 - n < b.len() + 4
                &&& wire::num32(o, o.len() - 5 - n, false) == n
            }
        }),
{
    law_filled_with_zeros(b, 4);
    let t = vstd::utf8::encode_utf8(s);
    let n = t.len() as int;
    let o = marshal::padded(b, 4) + marshal::string_bytes(s);
    law_lowest_byte_first(n);
    let le = marshal::le32(n);
    let at = marshal::padded(b, 4).len() as int;
    assert(o.subrange(o.len() - 1 - n, o.len() - 1) =~= t);
    assert(o[at] == le[0] && o[at + 1] == le[1] && o[at + 2] == le[2] && o[at + 3] == le[3]);
    assert(o.len() - 5 - n == at);
}

/// Yes is 1 and no is 0, in four bytes.
pub proof fn law_yes_is_one(b: Seq<u8>)
    ensures
        marshal::put(b, ValueView::Bool(true)) == marshal::put(b, ValueView::U32(1)),
        marshal::put(b, ValueView::Bool(false)) == marshal::put(b, ValueView::U32(0)),
{
}

/// Each kind of number has a letter of its own, and the alignment that its size asks for; a text
/// is aligned as its length is, a struct to eight bytes, and a signature or variant not at all.
pub proof fn law_letters()
    ensures
        wire::signature_of(ValueView::Byte(0)) == "y"@,
        wire::letter_type('y') == Some(TypeView::Byte) && wire::alignment(TypeView::Byte) == 1,
        wire::letter_type('b') == Some(TypeView::Bool) && wire::alignment(TypeView::Bool) == 4,
        wire::letter_type('n') == Some(TypeView::I16) && wire::alignment(TypeView::I16) == 2,
        wire::letter_type('q') == Some(TypeView::U16) && wire::alignment(TypeView::U16) == 2,
        wire::letter_type('i') == Some(TypeView::I32) && wire::alignment(TypeView::I32) == 4,
        wire::letter_type('u') == Some(TypeView::U32) && wire::alignment(TypeView::U32) == 4,
        wire::letter_type('x') == Some(TypeView::I64) && wire::alignment(TypeView::I64) == 8,
        wire::letter_type('t') == Some(TypeView::U64) && wire::alignment(TypeView::U64) == 8,
        wire::letter_type('d') == Some(TypeView::F64) && wire::alignment(TypeView::F64) == 8,
        wire::letter_type('s') == Some(TypeView::Str) && wire::alignment(TypeView::Str) == 4,
        wire::letter_type('o') == Some(TypeView::Path) && wire::alignment(TypeView::Path) == 4,
        wire::letter_type('g') == Some(TypeView::Sig) && wire::alignment(TypeView::Sig) == 1,
        wire::letter_type('v') == Some(TypeView::Variant)
            && wire::alignment(TypeView::Variant) == 1,
        forall|c: char| #[trigger]
            wire::letter_type(c) matches Some(t) ==> wire::type_sig(t) == seq![c],
        forall|ts: Seq<TypeView>| #[trigger] wire::alignment(TypeView::Struct(ts)) == 8,
        forall|t: TypeView| #[trigger] wire::alignment(TypeView::Array(Box::new(t))) == 4,
{
    reveal_strlit("y");
    assert(wire::signature_of(ValueView::Byte(0)) =~= "y"@);
}

/// The first 16 bytes of a call tell how long the whole call is.
pub proof fn law_head_tells_the_length(
    serial: u32,
    flags: u8,
    destination: Seq<char>,
    path: Seq<char>,
    interface: Seq<char>,
    member: Seq<char>,
    body: Seq<ValueView>,
)
    requires
        marshal::call_bytes(serial, flags, destination, path, interface, member, body) matches Ok(
            out,
        ) && out.len() <= wire::MAX_MESSAGE_BYTES,
    ensures
        ({
            let bytes = marshal::call_bytes(
                serial,
                flags,
                destination,
                path,
                interface,
                member,
                body,
            )->Ok_0;
            &&& bytes.len() >= 16
            &&& dbus::message_len(bytes) == Ok::<int, Seq<char>>(bytes.len() as int)
            &&& bytes[0] == 0x6C
            &&& bytes[1] == 1
            &&& bytes[2] == flags
            &&& bytes[3] == 1
            &&& wire::num32(bytes, 8, false) == serial
        }),
{
    let sig = wire::signatures(body);
    let head = marshal::call_head(serial, flags, destination, path, interface, member, sig);
    let start = marshal::padded(head, 8);
    let raw = marshal::put_all(start, body)->Ok_0;
    let (fields_len, body_len) = (head.len() - 16, raw.len() - start.len());
    let full = marshal::patched(marshal::patched(raw, 12, fields_len), 4, body_len);
    let fixed = marshal::fixed_head(serial, flags);
    marshal::lemma_padded(head, 8);
    marshal::lemma_put_all_starts(start, body);
    laws::lemma_starts_trans(raw, start, head);
    laws::lemma_call_head_starts(serial, flags, destination, path, interface, member, sig);
    laws::lemma_starts_trans(raw, head, fixed);
    laws::lemma_fixed_len(serial, flags);
    laws::lemma_outside(raw, fields_len, body_len);
    laws::lemma_fixed(serial, flags, fields_len, body_len, raw);
}

// ---- calls and their answers ----

/// Calls are numbered one after the other, never with 0, and two calls in a row differ.
pub proof fn law_calls_are_numbered(serial: u32)
    ensures
        dbus::serial_after(serial) != 0,
        dbus::serial_after(serial) != serial,
        serial < u32::MAX ==> dbus::serial_after(serial) == serial + 1,
        dbus::serial_after(u32::MAX) == 1,
{
}

/// An answer counts only for the call whose number it gives, and a signal or a call is no answer.
pub proof fn law_answer_names_its_call(serial: u32, other: u32, m: MessageView)
    ensures
        m.reply_serial != Some(serial) ==> dbus::answer_to(serial, m) is Waiting,
        m.kind != 2 && m.kind != 3 ==> dbus::answer_to(serial, m) is Waiting,
        m.kind == 2 && m.reply_serial == Some(serial) ==> dbus::answer_to(serial, m)
            == dbus::AnswerView::Body(m.body),
        m.kind == 3 && m.reply_serial == Some(serial) ==> dbus::answer_to(serial, m) is Failed,
        serial != other && !(dbus::answer_to(serial, m) is Waiting) ==> dbus::answer_to(
            other,
            m,
        ) is Waiting,
{
}

/// What failed is told by the name and the first text of the answer.
pub proof fn law_failure_is_told(serial: u32, m: MessageView, name: Seq<char>, why: Seq<char>)
    requires
        m.kind == 3,
        m.reply_serial == Some(serial),
        m.error_name == Some(name),
        m.body.len() > 0,
        m.body[0] == ValueView::Str(why),
    ensures
        dbus::answer_to(serial, m) == dbus::AnswerView::Failed(
            super::PortalErrorView::CallFailed { name, message: why },
        ),
{
}

/// The signal that is taken out is the first one that is waited for.
pub proof fn law_first_signal_counts(
    inbox: Seq<MessageView>,
    interface: Seq<char>,
    member: Seq<char>,
    paths: Seq<Seq<char>>,
    from: int,
)
    requires
        0 <= from,
    ensures
        match dbus::find_signal(inbox, interface, member, paths, from) {
            Some(i) => from <= i < inbox.len() && dbus::is_signal(
                inbox[i],
                interface,
                member,
                paths,
            ) && forall|k: int|
                from <= k < i ==> !dbus::is_signal(#[trigger] inbox[k], interface, member, paths),
            None => forall|k: int|
                from <= k < inbox.len() ==> !dbus::is_signal(
                    #[trigger] inbox[k],
                    interface,
                    member,
                    paths,
                ),
        },
    decreases inbox.len() - from,
{
    if from < inbox.len() && !dbus::is_signal(inbox[from], interface, member, paths) {
        law_first_signal_counts(inbox, interface, member, paths, from + 1);
    }
}

/// A message is the signal that is waited for only if its kind, interface, name and object are.
pub proof fn law_what_is_a_signal(
    m: MessageView,
    interface: Seq<char>,
    member: Seq<char>,
    paths: Seq<Seq<char>>,
)
    ensures
        dbus::is_signal(m, interface, member, paths) <==> m.kind == 4 && m.interface == Some(
            interface,
        ) && m.member == Some(member) && exists|i: int|
            0 <= i < paths.len() && m.path == Some(#[trigger] paths[i]),
{
    if dbus::is_signal(m, interface, member, paths) {
        let i = choose|i: int| 0 <= i < paths.len() && paths[i] == m.path->0;
        assert(m.path == Some(paths[i]));
    }
}

/// Each field of a header stands under its own number; the others keep what they hold, and a field
/// with an unknown number changes nothing.
pub proof fn law_header_fields(h: HeaderView, code: u8, s: Seq<char>, n: u32)
    ensures
        ({
            let text = ValueView::Variant(Box::new(ValueView::Str(s)));
            let number = ValueView::Variant(Box::new(ValueView::U32(n)));
            let after = wire::with_field(h, code, text);
            &&& code == 5 ==> after is Err
            &&& code != 5 ==> (after matches Ok(g) && {
                &&& g.path == if code == 1 { Some(s) } else { h.path }
                &&& g.interface == if code == 2 { Some(s) } else { h.interface }
                &&& g.member == if code == 3 { Some(s) } else { h.member }
                &&& g.error_name == if code == 4 { Some(s) } else { h.error_name }
                &&& g.signature == if code == 8 { s } else { h.signature }
                &&& g.reply_serial == h.reply_serial
            })
            &&& wire::with_field(h, 5, number) matches Ok(g) && g.reply_serial == Some(n) && g.path
                == h.path && g.interface == h.interface && g.member == h.member && g.error_name
                == h.error_name && g.signature == h.signature
        }),
{
}

// ---- the object that answers ----

/// The name of the object that answers is that of the sender without colons in front: it has the
/// length of that name, its dots are underscores, and everything else stays.
pub proof fn law_request_object(name: Seq<char>, token: Seq<char>)
    requires
        name.len() == 0 || name[0] != ':',
    ensures
        ({
            let open = "/org/freedesktop/portal/desktop/request/"@;
            let o = filechooser::request_object(name, token);
            &&& o == filechooser::request_object(seq![':'] + name, token)
            &&& o.len() == open.len() + name.len() + 1 + token.len()
            &&& o.take(open.len() as int) == open
            &&& o[open.len() + name.len() as int] == '/'
            &&& o.skip((open.len() + name.len() + 1) as int) == token
            &&& forall|i: int|
                0 <= i < name.len() ==> o[open.len() + i] == if #[trigger] name[i] == '.' {
                    '_'
                } else {
                    name[i]
                }
        }),
{
    let open = "/org/freedesktop/portal/desktop/request/"@;
    reveal_strlit("/");
    reveal_with_fuel(filechooser::uncoloned, 2);
    assert((seq![':'] + name).skip(1) =~= name);
    let o = filechooser::request_object(name, token);
    let u = filechooser::undotted(name);
    assert(o =~= open + u + "/"@ + token);
    assert(o.take(open.len() as int) =~= open);
    assert(o.skip((open.len() + name.len() + 1) as int) =~= token);
    assert forall|i: int| 0 <= i < name.len() implies o[open.len() + i] == if #[trigger] name[i]
        == '.' {
        '_'
    } else {
        name[i]
    } by {
        assert(o[open.len() + i] == u[i]);
    }
}

// ---- file addresses ----

/// The hexadecimal digits are `0` to `9` and `A` to `F`, in either case.
pub proof fn law_hexadecimal_digits(d: int)
    requires
        0 <= d < 16,
    ensures
        d < 10 ==> text::hex_value((0x30 + d) as u8) == Some(d as nat),
        d >= 10 ==> text::hex_value((0x41 + d - 10) as u8) == Some(d as nat),
        d >= 10 ==> text::hex_value((0x61 + d - 10) as u8) == Some(d as nat),
{
}

/// Bytes in a file address: each one as it is, or as `%` and two hexadecimal digits, the higher
/// half first.
pub open spec fn spelled(b: Seq<u8>, plain: Seq<bool>) -> Seq<u8>
    decreases b.len(),
{
    if b.len() == 0 {
        Seq::empty()
    } else {
        (if plain[0] {
            seq![b[0]]
        } else {
            seq![0x25, hex_letter(b[0] / 16), hex_letter(b[0] % 16)]
        }) + spelled(b.skip(1), plain.skip(1))
    }
}

/// The upper-case hexadecimal digit of a number below 16.
pub open spec fn hex_letter(d: u8) -> u8 {
    if d < 10 {
        (0x30 + d) as u8
    } else {
        (0x41 + d - 10) as u8
    }
}

proof fn lemma_two_letters(x: u8, y: u8)
    requires
        x < 0x80,
        y < 0x80,
    ensures
        vstd::utf8::valid_utf8(seq![x, y]),
{
    let s = seq![x as char, y as char];
    assert(vstd::utf8::is_ascii_chars(s));
    vstd::utf8::is_ascii_chars_encode_utf8(s);
    assert(s[0] as u8 == x && s[1] as u8 == y);
    assert(vstd::utf8::encode_utf8(s) =~= seq![x, y]);
    vstd::utf8::encode_utf8_valid_utf8(s);
}

proof fn lemma_spelled(full: Seq<u8>, i: int, b: Seq<u8>, plain: Seq<bool>, acc: Seq<u8>)
    requires
        0 <= i <= full.len(),
        full.skip(i) == spelled(b, plain),
        plain.len() == b.len(),
        forall|k: int| 0 <= k < b.len() && plain[k] ==> #[trigger] b[k] != 0x25,
    ensures
        filechooser::unescaped(full, i, acc) == Some(acc + b),
    decreases b.len(),
{
    if b.len() == 0 {
        assert(acc + b =~= acc);
    } else {
        let (rest, more) = (b.skip(1), plain.skip(1));
        let tail = spelled(rest, more);
        let f = full.skip(i);
        assert forall|k: int| 0 <= k < rest.len() && more[k] implies #[trigger] rest[k] != 0x25 by {
            assert(rest[k] == b[k + 1]);
        }
        assert(acc.push(b[0]) + rest =~= acc + b);
        if plain[0] {
            assert(f =~= seq![b[0]] + tail);
            assert(full[i] == f[0]);
            assert(full.skip(i + 1) =~= f.skip(1));
            assert(f.skip(1) =~= tail);
            lemma_spelled(full, i + 1, rest, more, acc.push(b[0]));
        } else {
            let (x, y) = (hex_letter(b[0] / 16), hex_letter(b[0] % 16));
            assert(f =~= seq![0x25u8, x, y] + tail);
            assert(full[i] == f[0] && full[i + 1] == f[1] && full[i + 2] == f[2]);
            assert(full.skip(i + 3) =~= f.skip(3));
            assert(f.skip(3) =~= tail);
            assert(full.subrange(i + 1, i + 3) =~= seq![x, y]);
            lemma_two_letters(x, y);
            assert(filechooser::escaped_byte(x, y) == Some(b[0]));
            lemma_spelled(full, i + 3, rest, more, acc.push(b[0]));
        }
    }
}

/// Whichever of its bytes are escaped, the address gives the bytes back; a `%` has to be.
pub proof fn law_escapes_are_resolved(b: Seq<u8>, plain: Seq<bool>)
    requires
        plain.len() == b.len(),
        forall|k: int| 0 <= k < b.len() && plain[k] ==> #[trigger] b[k] != 0x25,
    ensures
        filechooser::unescaped(spelled(b, plain), 0, Seq::empty()) == Some(b),
{
    let full = spelled(b, plain);
    assert(full.skip(0) =~= full);
    lemma_spelled(full, 0, b, plain, Seq::empty());
    assert(Seq::<u8>::empty() + b =~= b);
}

/// The file of an address is what stands behind `file://` and the host, from its slash on: the host
/// does not matter.
pub proof fn law_host_does_not_matter(host: Seq<char>, path: Seq<char>)
    requires
        forall|i: int| 0 <= i < host.len() ==> #[trigger] host[i] != '/',
    ensures
        ({
            let file = filechooser::uri_file("file://"@ + host + seq!['/'] + path);
            &&& filechooser::percent_decoded(path) is None ==> file is None
            &&& filechooser::percent_decoded(path) matches Some(t) ==> file == Some(seq!['/'] + t)
        }),
{
    let open = "file://"@;
    let uri = open + host + seq!['/'] + path;
    let rest = host + seq!['/'] + path;
    assert(uri.take(open.len() as int) =~= open);
    assert(uri.skip(open.len() as int) =~= rest);
    assert(rest[host.len() as int] == '/');
    assert forall|k: int| 0 <= k < host.len() implies #[trigger] rest[k] != '/' by {
        assert(rest[k] == host[k]);
    }
    text::lemma_found(rest, '/', 0, host.len() as int);
    assert(rest.skip((host.len() + 1) as int) =~= path);
}

// ---- the answer to a dialog ----

/// A dialog that was closed chose nothing, and that is no failure; only an answer with code 0 can
/// give a file, and any other code is a failure.
pub proof fn law_response_code(body: Seq<ValueView>, code: u32)
    requires
        body.len() > 0,
        body[0] == ValueView::U32(code),
    ensures
        code == 1 ==> filechooser::response(body) == Ok::<
            Option<Seq<char>>,
            super::PortalErrorView,
        >(None),
        code > 1 ==> filechooser::response(body) matches Err(
            super::PortalErrorView::CallFailed { .. },
        ),
        filechooser::response(body) matches Ok(Some(_)) ==> code == 0,
{
}

/// The first of the addresses is the file that was chosen, wherever in the answer they stand.
pub proof fn law_first_address_counts(
    body: Seq<ValueView>,
    at: int,
    elem: Seq<char>,
    uris: Seq<ValueView>,
    sig: Seq<char>,
    items: Seq<ValueView>,
    uri: Seq<char>,
)
    requires
        body.len() > 1,
        body[0] == ValueView::U32(0),
        body[1] == (ValueView::Array { elem: sig, items }),
        0 <= at < items.len(),
        items[at] == filechooser::entry_of("uris"@, ValueView::Array { elem, items: uris }),
        forall|k: int|
            0 <= k < at ==> filechooser::array_under(#[trigger] items[k], "uris"@) is None,
        uris.len() > 0,
        uris[0] == ValueView::Str(uri),
    ensures
        filechooser::uri_file(uri) matches Some(path) ==> filechooser::response(body) == Ok::<
            Option<Seq<char>>,
            super::PortalErrorView,
        >(Some(path)),
        filechooser::uri_file(uri) is None ==> filechooser::response(body) is Err,
{
    lemma_array_found(items, 0, at, uris);
}

proof fn lemma_array_found(items: Seq<ValueView>, i: int, at: int, uris: Seq<ValueView>)
    requires
        0 <= i <= at < items.len(),
        filechooser::array_under(items[at], "uris"@) == Some(uris),
        forall|k: int|
            0 <= k < at ==> filechooser::array_under(#[trigger] items[k], "uris"@) is None,
    ensures
        filechooser::find_array(items, "uris"@, i) == Some(uris),
    decreases at - i,
{
    if i < at {
        lemma_array_found(items, i + 1, at, uris);
    }
}

/// A dialog that times out is closed at the object that answers it; whatever it came to is handed
/// on unchanged until it is over.
pub proof fn law_dialog_keeps_its_outcome(
    predicted: Seq<char>,
    handle: Seq<char>,
    extra: bool,
    o: filechooser::OutcomeView,
    event: filechooser::EventView,
    body: Seq<ValueView>,
)
    ensures
        ({
            let waiting = filechooser::PhaseView::Waiting(handle, extra);
            let (phase, action) = filechooser::step(
                predicted,
                waiting,
                filechooser::EventView::Response(body),
            );
            &&& extra ==> phase == filechooser::PhaseView::LeavingAgain(
                filechooser::response(body),
            )
            &&& !extra ==> phase == filechooser::PhaseView::Leaving(filechooser::response(body))
            &&& action == filechooser::ActionView::RemoveMatch(
                filechooser::match_rule(
                    if extra {
                        handle
                    } else {
                        predicted
                    },
                ),
            )
        }),
        filechooser::step(predicted, filechooser::PhaseView::Closing(o), event).0
            == filechooser::PhaseView::Leaving(o),
        filechooser::step(predicted, filechooser::PhaseView::LeavingAgain(o), event).0
            == filechooser::PhaseView::Leaving(o),
        filechooser::step(predicted, filechooser::PhaseView::Leaving(o), event).1
            == filechooser::ActionView::Finish(o),
        forall|n: u64|
            filechooser::step(
                predicted,
                filechooser::PhaseView::Waiting(handle, extra),
                #[trigger] timed_out(n),
            ).1 == filechooser::ActionView::Close(handle),
{
}

/// The event of a wait that took too long.
pub open spec fn timed_out(n: u64) -> filechooser::EventView {
    filechooser::EventView::Failed(super::PortalErrorView::Timeout(n))
}

// ---- the session bus ----

/// The first path of an address is the socket, and an abstract socket is refused only where no path
/// is given.
pub proof fn law_path_of_parameters(ps: Seq<Seq<char>>, at: int, path: Seq<char>)
    requires
        0 <= at < ps.len(),
        ps[at] == "path="@ + path,
        forall|k: int| 0 <= k < at ==> !text::starts_with(#[trigger] ps[k], "path="@),
    ensures
        dbus::params_socket(ps, 0, false) == Some(Ok::<Seq<char>, Seq<char>>(path)),
{
    lemma_path_found(ps, 0, false, at, path);
}

proof fn lemma_path_found(ps: Seq<Seq<char>>, i: int, hidden: bool, at: int, path: Seq<char>)
    requires
        0 <= i <= at < ps.len(),
        ps[at] == "path="@ + path,
        forall|k: int| 0 <= k < at ==> !text::starts_with(#[trigger] ps[k], "path="@),
    ensures
        dbus::params_socket(ps, i, hidden) == Some(Ok::<Seq<char>, Seq<char>>(path)),
    decreases at - i,
{
    let open = "path="@;
    if i == at {
        assert(ps[at].take(open.len() as int) =~= open);
        assert(ps[at].skip(open.len() as int) =~= path);
    } else {
        lemma_path_found(
            ps,
            i + 1,
            hidden || text::starts_with(ps[i], "abstract="@),
            at,
            path,
        );
    }
}

proof fn lemma_no_path(ps: Seq<Seq<char>>, i: int, hidden: bool)
    requires
        0 <= i,
        forall|k: int| i <= k < ps.len() ==> !text::starts_with(#[trigger] ps[k], "path="@),
    ensures
        dbus::params_socket(ps, i, hidden) is None <==> !hidden && forall|k: int|
            i <= k < ps.len() ==> !text::starts_with(#[trigger] ps[k], "abstract="@),
        dbus::params_socket(ps, i, hidden) matches Some(r) ==> r is Err,
    decreases ps.len() - i,
{
    if i < ps.len() {
        lemma_no_path(ps, i + 1, hidden || text::starts_with(ps[i], "abstract="@));
    }
}

/// Parameters without a path lead nowhere; they are refused where one of them is abstract.
pub proof fn law_no_path_of_parameters(ps: Seq<Seq<char>>)
    requires
        forall|k: int| 0 <= k < ps.len() ==> !text::starts_with(#[trigger] ps[k], "path="@),
    ensures
        dbus::params_socket(ps, 0, false) is None <==> forall|k: int|
            0 <= k < ps.len() ==> !text::starts_with(#[trigger] ps[k], "abstract="@),
        dbus::params_socket(ps, 0, false) matches Some(r) ==> r is Err,
{
    lemma_no_path(ps, 0, false);
}

/// An address goes before the runtime directory.
pub proof fn law_address_goes_first(address: Seq<char>, bus: Option<Seq<char>>, path: Seq<char>)
    ensures
        dbus::session_path(Some(address), bus) == dbus::address_socket(address),
        dbus::session_path(None, Some(path)) == Ok::<Seq<char>, Seq<char>>(path),
        dbus::session_path(None, None) is Err,
{
}

/// Whether a digit stands in a line at `at` as its two hexadecimal digits.
pub open spec fn digit_at(line: Seq<char>, at: int, c: char) -> bool {
    line[at] == '3' && line[at + 1] == c
}

proof fn lemma_hex_of_digit(b: Seq<u8>, i: int)
    requires
        0 <= i < b.len(),
        0x30 <= b[i] <= 0x39,
    ensures
        dbus::hex_text(b).len() == 2 * b.len(),
        digit_at(dbus::hex_text(b), 2 * i, b[i] as char),
    decreases b.len(),
{
    let (rest, last) = (b.drop_last(), b.last());
    let h = dbus::hex_text(b);
    lemma_hex_len(b);
    lemma_hex_len(rest);
    assert(h =~= dbus::hex_text(rest) + text::hex_byte(last));
    if i < rest.len() {
        assert(rest[i] == b[i]);
        lemma_hex_of_digit(rest, i);
        assert(h[2 * i] == dbus::hex_text(rest)[2 * i]);
        assert(h[2 * i + 1] == dbus::hex_text(rest)[2 * i + 1]);
    } else {
        assert(h[2 * i] == text::hex_byte(last)[0]);
        assert(h[2 * i + 1] == text::hex_byte(last)[1]);
        assert(last / 16 == 3 && last % 16 == last - 48);
    }
}

proof fn lemma_hex_len(b: Seq<u8>)
    ensures
        dbus::hex_text(b).len() == 2 * b.len(),
    decreases b.len(),
{
    if b.len() > 0 {
        lemma_hex_len(b.drop_last());
    }
}

/// A client asks to be let in under its decimal user id, each digit `d` of which is written `3d`.
pub proof fn law_user_is_named(uid: u32)
    ensures
        ({
            let open = "AUTH EXTERNAL "@;
            let d = text::decimal(uid as nat);
            let line = dbus::auth_text(uid);
            &&& line.take(open.len() as int) == open
            &&& line.skip((open.len() + 2 * d.len()) as int) == "\r\n"@
            &&& forall|i: int|
                0 <= i < d.len() ==> digit_at(line, open.len() + 2 * i, #[trigger] d[i])
        }),
{
    let open = "AUTH EXTERNAL "@;
    let d = text::decimal(uid as nat);
    text::lemma_decimal_digits(uid as nat);
    assert(vstd::utf8::is_ascii_chars(d));
    vstd::utf8::is_ascii_chars_encode_utf8(d);
    let b = vstd::utf8::encode_utf8(d);
    lemma_hex_len(b);
    let h = dbus::hex_text(b);
    let line = dbus::auth_text(uid);
    assert(line =~= open + h + "\r\n"@);
    assert(line.take(open.len() as int) =~= open);
    assert(line.skip((open.len() + 2 * d.len()) as int) =~= "\r\n"@);
    assert forall|i: int| 0 <= i < d.len() implies digit_at(
        line,
        open.len() + 2 * i,
        #[trigger] d[i],
    ) by {
        assert(d[i] as u8 == b[i]);
        assert(text::is_digit(d[i]));
        lemma_hex_of_digit(b, i);
        assert(line[open.len() + 2 * i] == h[2 * i]);
        assert(line[open.len() + 2 * i + 1] == h[2 * i + 1]);
    }
}

/// The user id stands as a number behind `Uid:`; the first line that has one counts.
pub proof fn law_user_id_is_found(lines: Seq<Seq<char>>, at: int, rest: Seq<char>, n: nat)
    requires
        0 <= at < lines.len(),
        lines[at] == "Uid:"@ + rest,
        text::first_word(rest) matches Some(w) && text::parsed_unsigned(w, 0xFFFF_FFFF) == Some(n),
        forall|k: int| 0 <= k < at ==> !text::starts_with(#[trigger] lines[k], "Uid:"@),
    ensures
        dbus::uid_from(lines, 0) == Some(n),
{
    lemma_user_id(lines, 0, at, rest, n);
}

proof fn lemma_user_id(lines: Seq<Seq<char>>, i: int, at: int, rest: Seq<char>, n: nat)
    requires
        0 <= i <= at < lines.len(),
        lines[at] == "Uid:"@ + rest,
        text::first_word(rest) matches Some(w) && text::parsed_unsigned(w, 0xFFFF_FFFF) == Some(n),
        forall|k: int| 0 <= k < at ==> !text::starts_with(#[trigger] lines[k], "Uid:"@),
    ensures
        dbus::uid_from(lines, i) == Some(n),
    decreases at - i,
{
    let open = "Uid:"@;
    if i < at {
        lemma_user_id(lines, i + 1, at, rest, n);
    } else {
        assert(lines[at].take(open.len() as int) =~= open);
        assert(lines[at].skip(open.len() as int) =~= rest);
    }
}

/// A dialog is asked for with its title, its token and the directory it begins in, as the bytes of
/// the path and a zero; one file is chosen, and a name is offered where one is saved.
pub proof fn law_what_a_dialog_is_asked(
    title: Seq<char>,
    name: Seq<char>,
    token: Seq<char>,
    dir: Seq<char>,
)
    ensures
        ({
            let o = filechooser::open_values(title, token, Some(dir));
            let p = filechooser::open_values(title, token, None);
            let w = filechooser::save_values(title, name, token, Some(dir));
            let at = filechooser::entry_of("handle_token"@, ValueView::Str(token));
            let here = filechooser::entry_of("current_folder"@, filechooser::folder_of(dir));
            &&& o.len() == 3 && w.len() == 3
            &&& o[1] == ValueView::Str(title) && w[1] == ValueView::Str(title)
            &&& o[2]->items.contains(at) && w[2]->items.contains(at)
            &&& o[2]->items.contains(here) && w[2]->items.contains(here)
            &&& p[2]->items.len() == o[2]->items.len() - 1
            &&& o[2]->items.contains(
                filechooser::entry_of("multiple"@, ValueView::Bool(false)),
            )
            &&& w[2]->items.contains(
                filechooser::entry_of("current_name"@, ValueView::Str(name)),
            )
        }),
        ({
            let b = vstd::utf8::encode_utf8(dir);
            let f = filechooser::folder_of(dir)->items;
            &&& f.len() == b.len() + 1
            &&& f.last() == ValueView::Byte(0)
            &&& forall|i: int| 0 <= i < b.len() ==> f[i] == ValueView::Byte(#[trigger] b[i])
        }),
{
    let o = filechooser::open_values(title, token, Some(dir))[2]->items;
    let w = filechooser::save_values(title, name, token, Some(dir))[2]->items;
    assert(o.len() == 4 && w.len() == 4);
    assert(o[0] == filechooser::entry_of("handle_token"@, ValueView::Str(token)));
    assert(w[0] == o[0]);
    assert(o[1] == filechooser::entry_of("multiple"@, ValueView::Bool(false)));
    assert(w[1] == filechooser::entry_of("current_name"@, ValueView::Str(name)));
    assert(o[3] == filechooser::entry_of("current_folder"@, filechooser::folder_of(dir)));
    assert(w[3] == o[3]);
    let b = vstd::utf8::encode_utf8(dir);
    let f = filechooser::folder_of(dir)->items;
    assert forall|i: int| 0 <= i < b.len() implies f[i] == ValueView::Byte(#[trigger] b[i]) by {
        assert(b.push(0)[i] == b[i]);
    }
}

} // verus!
