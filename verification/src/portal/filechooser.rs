//! The file dialog of the portal.
//!
//! The answer comes as a signal, so a client subscribes first and calls afterwards: it foretells
//! the object that will send the signal from a token of its own, subscribes to it, calls, and
//! waits. Where the portal names another object, the client subscribes to that one too.

use vstd::prelude::*;
use super::dbus;
use super::wire::{self, Value, ValueView};
use super::{protocol, PortalError, PortalErrorView};
use crate::text::{self, chars_of, has_suffix, push_decimal, same_text, string_of};

verus! {

/// The desktop portal, as the receiver of calls.
pub const SERVICE: &'static str = "org.freedesktop.portal.Desktop";

pub const OBJECT_PATH: &'static str = "/org/freedesktop/portal/desktop";

pub const FILECHOOSER: &'static str = "org.freedesktop.portal.FileChooser";

pub const REQUEST: &'static str = "org.freedesktop.portal.Request";

/// How long the user may take, in seconds.
pub const DIALOG_TIMEOUT: u64 = 300;

// ---- probing ----

/// Whether an error says that there is no such service.
pub open spec fn says_missing(name: Seq<char>) -> bool {
    text::ends_with(name, "UnknownInterface"@) || text::ends_with(name, "UnknownObject"@)
        || text::ends_with(name, "UnknownMethod"@) || text::ends_with(name, "ServiceUnknown"@)
}

/// What a failed probe means: that there is no file dialog, where the error says so.
pub open spec fn probe_error(e: PortalErrorView) -> PortalErrorView {
    match e {
        PortalErrorView::CallFailed { name, message } => if says_missing(name) {
            PortalErrorView::NoPortal("portal 未提供 "@ + FILECHOOSER@ + "："@ + message)
        } else {
            e
        },
        _ => e,
    }
}

/// What a failed probe means: that there is no file dialog, where the error says so.
pub fn probe_failed(error: PortalError) -> (r: PortalError)
    ensures
        r@ == probe_error(error@),
{
    match error {
        PortalError::CallFailed { name, message } => {
            let n = chars_of(name.as_str());
            if has_suffix(&n, "UnknownInterface") || has_suffix(&n, "UnknownObject") || has_suffix(
                &n,
                "UnknownMethod",
            ) || has_suffix(&n, "ServiceUnknown") {
                let mut out = "portal 未提供 ".to_owned();
                out.append(FILECHOOSER);
                out.append("：");
                out.append(message.as_str());
                PortalError::NoPortal(out)
            } else {
                PortalError::CallFailed { name, message }
            }
        },
        e => e,
    }
}

/// The values of the call that asks for the version of the file dialog.
pub fn probe_body() -> (r: Vec<Value>)
    ensures
        wire::value_views(r@) == seq![ValueView::Str(FILECHOOSER@), ValueView::Str("version"@)],
{
    let r = vec![Value::Str(FILECHOOSER.to_owned()), Value::Str("version".to_owned())];
    assert(wire::value_views(r@) =~= seq![
        ValueView::Str(FILECHOOSER@),
        ValueView::Str("version"@),
    ]);
    r
}

/// The version in the answer to a probe, or what is wrong with it.
pub open spec fn probed(reply: Seq<ValueView>) -> Result<u32, Seq<char>> {
    if reply.len() == 0 {
        Err("Properties.Get 应答不是变体"@)
    } else {
        match reply[0] {
            ValueView::Variant(inner) => match *inner {
                ValueView::U32(n) => Ok(n),
                _ => Err("FileChooser.version 不是 u32"@),
            },
            _ => Err("Properties.Get 应答不是变体"@),
        }
    }
}

/// The version of the file dialog, from the answer to a probe.
pub fn probe_version(reply: &Vec<Value>) -> (r: Result<u32, PortalError>)
    ensures
        match probed(wire::value_views(reply@)) {
            Ok(n) => r == Ok::<u32, PortalError>(n),
            Err(e) => r matches Err(x) && x@ == PortalErrorView::Protocol(e),
        },
{
    proof {
        reveal_with_fuel(wire::value_view, 2);
    }
    if reply.len() == 0 {
        return Err(protocol("Properties.Get 应答不是变体"));
    }
    assert(wire::value_views(reply@)[0] == reply@[0]@);
    match &reply[0] {
        Value::Variant(inner) => match &**inner {
            Value::U32(n) => Ok(*n),
            _ => Err(protocol("FileChooser.version 不是 u32")),
        },
        _ => Err(protocol("Properties.Get 应答不是变体")),
    }
}

// ---- requests ----

/// The text without its leading colons.
pub open spec fn uncoloned(s: Seq<char>) -> Seq<char>
    decreases s.len(),
{
    if s.len() > 0 && s[0] == ':' {
        uncoloned(s.skip(1))
    } else {
        s
    }
}

/// The text with underscores for dots.
pub open spec fn undotted(s: Seq<char>) -> Seq<char> {
    s.map_values(
        |c: char|
            if c == '.' {
                '_'
            } else {
                c
            },
    )
}

/// The object that will answer a request: the sender's name without its colon and with
/// underscores for dots, and the token.
pub open spec fn request_object(unique_name: Seq<char>, token: Seq<char>) -> Seq<char> {
    "/org/freedesktop/portal/desktop/request/"@ + undotted(uncoloned(unique_name)) + "/"@ + token
}

/// The object that will answer a request.
pub fn request_path(unique_name: &str, token: &str) -> (r: String)
    ensures
        r@ == request_object(unique_name@, token@),
{
    let name = chars_of(unique_name);
    let mut i: usize = 0;
    assert(name@.skip(0) =~= name@);
    while i < name.len() && name[i] == ':'
        invariant
            i <= name@.len(),
            name@ == unique_name@,
            uncoloned(name@) == uncoloned(name@.skip(i as int)),
        decreases name@.len() - i,
    {
        assert(name@.skip(i as int)[0] == ':');
        assert(name@.skip(i as int).skip(1) =~= name@.skip(i + 1));
        i += 1;
    }
    let ghost sender = name@.skip(i as int);
    assert(uncoloned(sender) == sender) by {
        if sender.len() > 0 {
            assert(sender[0] == name@[i as int]);
        }
    }
    let mut out = "/org/freedesktop/portal/desktop/request/".to_owned();
    let ghost open = out@;
    let mut k: usize = i;
    assert(undotted(sender.take(0)) =~= Seq::empty());
    assert(out@ =~= open + undotted(sender.take(0)));
    while k < name.len()
        invariant
            i <= k <= name@.len(),
            sender == name@.skip(i as int),
            out@ == open + undotted(sender.take(k - i)),
        decreases name@.len() - k,
    {
        if name[k] == '.' {
            out.push('_');
        } else {
            out.push(name[k]);
        }
        k += 1;
        proof {
            let t = sender.take(k - i);
            assert(t.drop_last() =~= sender.take(k - i - 1));
            assert(undotted(t) =~= undotted(t.drop_last()).push(undotted(t).last()));
            assert(out@ =~= open + undotted(t));
        }
    }
    assert(sender.take(k - i) =~= sender);
    out.append("/");
    out.append(token);
    out
}

/// The rule that subscribes to the answer of an object.
pub open spec fn match_rule(path: Seq<char>) -> Seq<char> {
    "type='signal',interface='"@ + REQUEST@ + "',member='Response',path='"@ + path + "'"@
}

/// The rule that subscribes to the answer of an object.
pub fn response_match_rule(path: &str) -> (r: String)
    ensures
        r@ == match_rule(path@),
{
    let mut out = "type='signal',interface='".to_owned();
    out.append(REQUEST);
    out.append("',member='Response',path='");
    out.append(path);
    out.append("'");
    out
}

/// The token of a request, from the process and the milliseconds of the clock.
pub fn handle_token(pid: u32, millis: u32) -> (r: String)
    ensures
        r@ == "guanqi_"@ + text::decimal(pid as nat) + "_"@ + text::decimal(millis as nat),
{
    let mut out = "guanqi_".to_owned();
    push_decimal(&mut out, pid as u64);
    out.append("_");
    push_decimal(&mut out, millis as u64);
    out
}

/// An entry of an options dictionary.
pub open spec fn entry_of(key: Seq<char>, v: ValueView) -> ValueView {
    ValueView::Struct(seq![ValueView::Str(key), ValueView::Variant(Box::new(v))])
}

fn entry(key: &str, value: Value) -> (r: Value)
    ensures
        r@ == entry_of(key@, value@),
{
    let pair = vec![Value::Str(key.to_owned()), Value::Variant(Box::new(value))];
    let r = Value::Struct(pair);
    proof {
        reveal_with_fuel(wire::value_view, 2);
        assert(r@->Struct_0 =~= seq![ValueView::Str(key@), ValueView::Variant(Box::new(value@))]);
    }
    r
}

/// A file pattern of the filter; 0 says that it is a glob.
pub open spec fn glob_of(pattern: Seq<char>) -> ValueView {
    ValueView::Struct(seq![ValueView::U32(0), ValueView::Str(pattern)])
}

fn glob(pattern: &str) -> (r: Value)
    ensures
        r@ == glob_of(pattern@),
{
    let r = Value::Struct(vec![Value::U32(0), Value::Str(pattern.to_owned())]);
    proof {
        reveal_with_fuel(wire::value_view, 2);
        assert(r@->Struct_0 =~= seq![ValueView::U32(0), ValueView::Str(pattern@)]);
    }
    r
}

/// The filter that shows game records only.
pub open spec fn filters_of() -> ValueView {
    ValueView::Array {
        elem: "(sa(us))"@,
        items: seq![
            ValueView::Struct(
                seq![
                    ValueView::Str("棋谱 (SGF)"@),
                    ValueView::Array {
                        elem: "(us)"@,
                        items: seq![glob_of("*.sgf"@), glob_of("*.SGF"@)],
                    },
                ],
            ),
        ],
    }
}

fn filters() -> (r: Value)
    ensures
        r@ == filters_of(),
{
    let globs = Value::Array {
        elem: "(us)".to_owned(),
        items: vec![glob("*.sgf"), glob("*.SGF")],
    };
    assert(globs@->items =~= seq![glob_of("*.sgf"@), glob_of("*.SGF"@)]);
    let one = Value::Struct(vec![Value::Str("棋谱 (SGF)".to_owned()), globs]);
    assert(one@->Struct_0 =~= seq![ValueView::Str("棋谱 (SGF)"@), globs@]) by {
        reveal_with_fuel(wire::value_view, 2);
    }
    let r = Value::Array { elem: "(sa(us))".to_owned(), items: vec![one] };
    assert(r@->items =~= seq![one@]);
    r
}

/// A directory as bytes, with a zero at the end.
pub open spec fn folder_of(dir: Seq<char>) -> ValueView {
    ValueView::Array {
        elem: "y"@,
        items: vstd::utf8::encode_utf8(dir).push(0).map_values(|b: u8| ValueView::Byte(b)),
    }
}

/// The option for the directory in which a dialog begins, if one is asked for.
pub open spec fn folder_entries(dir: Option<Seq<char>>) -> Seq<ValueView> {
    match dir {
        Some(d) => seq![entry_of("current_folder"@, folder_of(d))],
        None => Seq::empty(),
    }
}

/// The characters of a text, if there is one.
pub open spec fn opt_str(s: Option<&str>) -> Option<Seq<char>> {
    match s {
        Some(x) => Some(x@),
        None => None,
    }
}

fn folder(dir: &str) -> (r: Value)
    ensures
        r@ == folder_of(dir@),
{
    let bytes = dir.as_bytes();
    let ghost all = bytes@.push(0);
    let mut items: Vec<Value> = Vec::new();
    let mut i: usize = 0;
    assert(wire::value_views(items@) =~= all.take(0).map_values(|b: u8| ValueView::Byte(b)));
    while i < bytes.len()
        invariant
            i <= bytes@.len(),
            all == bytes@.push(0),
            wire::value_views(items@) == all.take(i as int).map_values(
                |b: u8| ValueView::Byte(b),
            ),
        decreases bytes@.len() - i,
    {
        let ghost before = items@;
        let v = Value::Byte(bytes[i]);
        assert(v@ == ValueView::Byte(all[i as int]));
        items.push(v);
        i += 1;
        assert(wire::value_views(items@) =~= wire::value_views(before).push(v@));
        assert(all.take(i as int).map_values(|b: u8| ValueView::Byte(b)) =~= all.take(
            i - 1,
        ).map_values(|b: u8| ValueView::Byte(b)).push(v@));
    }
    let ghost before = items@;
    let v = Value::Byte(0);
    assert(v@ == ValueView::Byte(all[i as int]));
    items.push(v);
    assert(wire::value_views(items@) =~= wire::value_views(before).push(v@));
    assert(all.map_values(|b: u8| ValueView::Byte(b)) =~= all.take(i as int).map_values(
        |b: u8| ValueView::Byte(b),
    ).push(v@));
    let r = Value::Array { elem: "y".to_owned(), items };
    assert(r@->items =~= wire::value_views(items@));
    r
}

/// The options of a dialog, with the directory in which it begins, if one is asked for.
fn options(items: Vec<Value>, dir: Option<&str>) -> (r: Value)
    ensures
        r@ == (ValueView::Array {
            elem: "{sv}"@,
            items: wire::value_views(items@) + folder_entries(opt_str(dir)),
        }),
{
    let mut items = items;
    let ghost before = items@;
    if let Some(d) = dir {
        items.push(entry("current_folder", folder(d)));
    }
    assert(wire::value_views(items@) =~= wire::value_views(before) + folder_entries(opt_str(dir)));
    let r = Value::Array { elem: "{sv}".to_owned(), items };
    assert(r@->items =~= wire::value_views(items@));
    r
}

/// The values of the call that opens a dialog: no parent window, the title, and the options.
pub open spec fn open_values(title: Seq<char>, token: Seq<char>, dir: Option<Seq<char>>) -> Seq<
    ValueView,
> {
    seq![
        ValueView::Str(Seq::empty()),
        ValueView::Str(title),
        ValueView::Array {
            elem: "{sv}"@,
            items: seq![
                entry_of("handle_token"@, ValueView::Str(token)),
                entry_of("multiple"@, ValueView::Bool(false)),
                entry_of("filters"@, filters_of()),
            ] + folder_entries(dir),
        },
    ]
}

/// The values of the call that opens a dialog.
pub fn open_body(title: &str, token: &str, dir: Option<&str>) -> (r: Vec<Value>)
    ensures
        wire::value_views(r@) == open_values(title@, token@, opt_str(dir)),
{
    let items = vec![
        entry("handle_token", Value::Str(token.to_owned())),
        entry("multiple", Value::Bool(false)),
        entry("filters", filters()),
    ];
    assert(wire::value_views(items@) =~= seq![
        entry_of("handle_token"@, ValueView::Str(token@)),
        entry_of("multiple"@, ValueView::Bool(false)),
        entry_of("filters"@, filters_of()),
    ]);
    let parent = Value::Str(String::new());
    assert(parent@->Str_0 =~= Seq::empty());
    let r = vec![parent, Value::Str(title.to_owned()), options(items, dir)];
    assert(wire::value_views(r@) =~= open_values(title@, token@, opt_str(dir)));
    r
}

/// The object that answers, from the answer to the call that opens a dialog.
pub fn open_file_handle(reply: &Vec<Value>) -> (r: Result<String, PortalError>)
    ensures
        if reply@.len() > 0 && reply@[0]@ is Path {
            r matches Ok(x) && x@ == reply@[0]@->Path_0
        } else {
            r matches Err(e) && e@ == PortalErrorView::Protocol("OpenFile 应答不是对象路径"@)
        },
{
    if reply.len() > 0 {
        if let Value::Path(handle) = &reply[0] {
            return Ok(handle.clone());
        }
    }
    Err(protocol("OpenFile 应答不是对象路径"))
}

// ---- file addresses ----

/// The byte that two characters behind a `%` stand for: two hexadecimal digits, or a sign and one.
pub open spec fn escaped_byte(a: u8, b: u8) -> Option<u8> {
    match (text::hex_value(a), text::hex_value(b)) {
        (Some(x), Some(y)) => Some((x * 16 + y) as u8),
        (None, Some(y)) => if a == 0x2B {
            Some(y as u8)
        } else {
            None
        },
        _ => None,
    }
}

/// The bytes from `i` on with their escapes resolved, where `acc` have been; `None` where a
/// character is cut through behind a `%`.
pub open spec fn unescaped(b: Seq<u8>, i: int, acc: Seq<u8>) -> Option<Seq<u8>>
    decreases b.len() - i,
{
    if !(0 <= i < b.len()) {
        Some(acc)
    } else if b[i] == 0x25 && i + 3 <= b.len() {
        if !vstd::utf8::valid_utf8(b.subrange(i + 1, i + 3)) {
            None
        } else {
            match escaped_byte(b[i + 1], b[i + 2]) {
                Some(x) => unescaped(b, i + 3, acc.push(x)),
                None => unescaped(b, i + 1, acc.push(b[i])),
            }
        }
    } else {
        unescaped(b, i + 1, acc.push(b[i]))
    }
}

/// The text with its escapes resolved, where that is text.
pub open spec fn percent_decoded(s: Seq<char>) -> Option<Seq<char>> {
    match unescaped(vstd::utf8::encode_utf8(s), 0, Seq::empty()) {
        Some(b) => if vstd::utf8::valid_utf8(b) {
            Some(vstd::utf8::decode_utf8(b))
        } else {
            None
        },
        None => None,
    }
}

/// The text with its escapes resolved.
pub fn percent_decode(s: &str) -> (r: Option<String>)
    ensures
        match percent_decoded(s@) {
            Some(t) => r matches Some(x) && x@ == t,
            None => r is None,
        },
{
    let bytes = s.as_bytes();
    let n = bytes.len();
    let mut out: Vec<u8> = Vec::new();
    let mut i: usize = 0;
    while i < n
        invariant
            n == bytes@.len(),
            i <= n,
            bytes@ == vstd::utf8::encode_utf8(s@),
            unescaped(bytes@, 0, Seq::empty()) == unescaped(bytes@, i as int, out@),
        decreases n - i,
    {
        let mut step: usize = 1;
        let mut byte = bytes[i];
        if bytes[i] == 0x25 && n - i >= 3 {
            match text::utf8_text(vstd::slice::slice_subrange(bytes, i + 1, i + 3)) {
                Some(_) => {},
                None => {
                    return None;
                },
            }
            match (text::hex_digit_value(bytes[i + 1]), text::hex_digit_value(bytes[i + 2])) {
                (Some(x), Some(y)) => {
                    byte = x * 16 + y;
                    step = 3;
                },
                (None, Some(y)) => {
                    if bytes[i + 1] == 0x2B {
                        byte = y;
                        step = 3;
                    }
                },
                _ => {},
            }
        }
        out.push(byte);
        i = i + step;
    }
    text::utf8_text(&out)
}

/// The file that an address names: `file:///...` or `file://host/...`.
pub open spec fn uri_file(uri: Seq<char>) -> Option<Seq<char>> {
    match text::after_prefix(uri, "file://"@) {
        None => None,
        Some(rest) => match text::find_from(rest, '/', 0) {
            None => None,
            Some(i) => match percent_decoded(rest.skip(i + 1)) {
                Some(t) => Some(seq!['/'] + t),
                None => None,
            },
        },
    }
}

/// The file that an address names.
pub fn uri_to_path(uri: &str) -> (r: Option<String>)
    ensures
        match uri_file(uri@) {
            Some(t) => r matches Some(x) && x@ == t,
            None => r is None,
        },
{
    let rest = match text::strip_prefix(&chars_of(uri), "file://") {
        Some(x) => x,
        None => {
            return None;
        },
    };
    match text::find_char(&rest, '/') {
        None => None,
        Some(i) => {
            let path = text::slice_chars(&rest, i + 1, rest.len());
            assert(path@ =~= rest@.skip(i + 1));
            match percent_decode(string_of(&path).as_str()) {
                Some(t) => {
                    let mut out = String::new();
                    out.push('/');
                    out.append(t.as_str());
                    assert(out@ =~= seq!['/'] + t@);
                    Some(out)
                },
                None => None,
            }
        },
    }
}

// ---- the answer ----

/// The array that a dictionary entry holds under the key, where it is such an entry.
pub open spec fn array_under(item: ValueView, key: Seq<char>) -> Option<Seq<ValueView>> {
    match item {
        ValueView::Struct(pair) => if pair.len() == 2 && pair[0] == ValueView::Str(key) {
            match pair[1] {
                ValueView::Variant(inner) => match *inner {
                    ValueView::Array { elem, items } => Some(items),
                    _ => None,
                },
                _ => None,
            }
        } else {
            None
        },
        _ => None,
    }
}

/// The first array under the key in the entries from `i` on.
pub open spec fn find_array(items: Seq<ValueView>, key: Seq<char>, i: int) -> Option<Seq<ValueView>>
    decreases items.len() - i,
{
    if !(0 <= i < items.len()) {
        None
    } else {
        match array_under(items[i], key) {
            Some(vs) => Some(vs),
            None => find_array(items, key, i + 1),
        }
    }
}

/// The file that the first of the addresses names.
pub open spec fn first_file(uris: Option<Seq<ValueView>>) -> Result<
    Option<Seq<char>>,
    PortalErrorView,
> {
    match uris {
        None => Err(PortalErrorView::Protocol("成功应答缺少 uris"@)),
        Some(vs) => if vs.len() > 0 && vs[0] is Str {
            let uri = vs[0]->Str_0;
            match uri_file(uri) {
                Some(p) => Ok(Some(p)),
                None => Err(PortalErrorView::Protocol("无法解析文件 URI："@ + uri)),
            }
        } else {
            Err(PortalErrorView::Protocol("uris 为空或元素不是字符串"@))
        },
    }
}

/// What the user chose, by the values of the answer: 0 and the file, 1 for a dialog that was
/// closed, and other codes for failures.
pub open spec fn response(body: Seq<ValueView>) -> Result<Option<Seq<char>>, PortalErrorView> {
    if !(body.len() > 0 && body[0] is U32) {
        Err(PortalErrorView::Protocol("Response 缺少 response 码"@))
    } else {
        let code = body[0]->U32_0;
        if code == 1 {
            Ok(None)
        } else if code != 0 {
            Err(
                PortalErrorView::CallFailed {
                    name: REQUEST@,
                    message: "portal 对话框返回失败码 "@ + text::decimal(code as nat),
                },
            )
        } else if !(body.len() > 1 && body[1] is Array) {
            Err(PortalErrorView::Protocol("Response 缺少 results 字典"@))
        } else {
            first_file(find_array(body[1]->items, "uris"@, 0))
        }
    }
}

/// Whether an outcome is the one described.
pub open spec fn outcome_is(
    r: Result<Option<String>, PortalError>,
    o: Result<Option<Seq<char>>, PortalErrorView>,
) -> bool {
    match o {
        Ok(Some(p)) => r matches Ok(Some(x)) && x@ == p,
        Ok(None) => r matches Ok(None),
        Err(e) => r matches Err(x) && x@ == e,
    }
}

fn dict_array<'a>(item: &'a Value, key: &str) -> (r: Option<&'a Vec<Value>>)
    ensures
        match array_under(item@, key@) {
            Some(vs) => r matches Some(x) && wire::value_views(x@) == vs,
            None => r is None,
        },
{
    proof {
        reveal_with_fuel(wire::value_view, 3);
    }
    if let Value::Struct(pair) = item {
        assert(item@->Struct_0 =~= wire::value_views(pair@));
        if pair.len() != 2 {
            return None;
        }
        assert(item@->Struct_0[0] == pair@[0]@);
        assert(item@->Struct_0[1] == pair@[1]@);
        if let Value::Str(name) = &pair[0] {
            if !same_text(name.as_str(), key) {
                return None;
            }
            if let Value::Variant(inner) = &pair[1] {
                if let Value::Array { items, .. } = &**inner {
                    assert(inner@->items =~= wire::value_views(items@));
                    return Some(items);
                }
            }
        }
    }
    None
}

/// What the user chose, by the values of the answer.
pub fn decode_response(body: &Vec<Value>) -> (r: Result<Option<String>, PortalError>)
    ensures
        outcome_is(r, response(wire::value_views(body@))),
{
    let ghost views = wire::value_views(body@);
    if body.len() == 0 {
        return Err(protocol("Response 缺少 response 码"));
    }
    assert(views[0] == body@[0]@);
    let code = match &body[0] {
        Value::U32(n) => *n,
        _ => {
            return Err(protocol("Response 缺少 response 码"));
        },
    };
    if code == 1 {
        return Ok(None);
    }
    if code != 0 {
        let mut message = "portal 对话框返回失败码 ".to_owned();
        push_decimal(&mut message, code as u64);
        return Err(PortalError::CallFailed { name: REQUEST.to_owned(), message });
    }
    if body.len() < 2 {
        return Err(protocol("Response 缺少 results 字典"));
    }
    assert(views[1] == body@[1]@);
    let results = match &body[1] {
        Value::Array { items, .. } => items,
        _ => {
            return Err(protocol("Response 缺少 results 字典"));
        },
    };
    assert(views[1]->items =~= wire::value_views(results@));
    chosen_file(results)
}

/// The file that the results of an answer name.
fn chosen_file(results: &Vec<Value>) -> (r: Result<Option<String>, PortalError>)
    ensures
        outcome_is(r, first_file(find_array(wire::value_views(results@), "uris"@, 0))),
{
    let ghost views = wire::value_views(results@);
    let mut i: usize = 0;
    while i < results.len()
        invariant
            i <= results@.len(),
            views == wire::value_views(results@),
            find_array(views, "uris"@, 0) == find_array(views, "uris"@, i as int),
        decreases results@.len() - i,
    {
        assert(views[i as int] == results@[i as int]@);
        if let Some(uris) = dict_array(&results[i], "uris") {
            if uris.len() > 0 {
                assert(wire::value_views(uris@)[0] == uris@[0]@);
                if let Value::Str(uri) = &uris[0] {
                    return match uri_to_path(uri.as_str()) {
                        Some(p) => Ok(Some(p)),
                        None => {
                            let mut out = "无法解析文件 URI：".to_owned();
                            out.append(uri.as_str());
                            Err(PortalError::Protocol(out))
                        },
                    };
                }
            }
            return Err(protocol("uris 为空或元素不是字符串"));
        }
        i += 1;
    }
    Err(protocol("成功应答缺少 uris"))
}

// ---- calls ----

/// The bytes of the call that asks for the version of the file dialog.
pub fn probe(conn: &mut dbus::Connection) -> (r: Result<Vec<u8>, PortalError>)
    ensures
        final(conn)@ == (dbus::ConnectionView {
            serial: dbus::serial_after(old(conn)@.serial),
            ..old(conn)@
        }),
        dbus::wrote(
            r,
            dbus::serial_after(old(conn)@.serial),
            0,
            SERVICE@,
            OBJECT_PATH@,
            "org.freedesktop.DBus.Properties"@,
            "Get"@,
            seq![ValueView::Str(FILECHOOSER@), ValueView::Str("version"@)],
        ),
{
    conn.call(SERVICE, OBJECT_PATH, "org.freedesktop.DBus.Properties", "Get", &probe_body())
}

/// The bytes of the call that opens a dialog.
pub fn open_file_call(
    conn: &mut dbus::Connection,
    title: &str,
    token: &str,
    dir: Option<&str>,
) -> (r: Result<Vec<u8>, PortalError>)
    ensures
        final(conn)@ == (dbus::ConnectionView {
            serial: dbus::serial_after(old(conn)@.serial),
            ..old(conn)@
        }),
        dbus::wrote(
            r,
            dbus::serial_after(old(conn)@.serial),
            0,
            SERVICE@,
            OBJECT_PATH@,
            FILECHOOSER@,
            "OpenFile"@,
            open_values(title@, token@, opt_str(dir)),
        ),
{
    conn.call(SERVICE, OBJECT_PATH, FILECHOOSER, "OpenFile", &open_body(title, token, dir))
}

/// The values of the call that opens a dialog for saving: no parent window, the title, and the
/// options with the name that is offered.
pub open spec fn save_values(
    title: Seq<char>,
    name: Seq<char>,
    token: Seq<char>,
    dir: Option<Seq<char>>,
) -> Seq<ValueView> {
    seq![
        ValueView::Str(Seq::empty()),
        ValueView::Str(title),
        ValueView::Array {
            elem: "{sv}"@,
            items: seq![
                entry_of("handle_token"@, ValueView::Str(token)),
                entry_of("current_name"@, ValueView::Str(name)),
                entry_of("filters"@, filters_of()),
            ] + folder_entries(dir),
        },
    ]
}

/// The values of the call that opens a dialog for saving.
pub fn save_body(title: &str, name: &str, token: &str, dir: Option<&str>) -> (r: Vec<Value>)
    ensures
        wire::value_views(r@) == save_values(title@, name@, token@, opt_str(dir)),
{
    let items = vec![
        entry("handle_token", Value::Str(token.to_owned())),
        entry("current_name", Value::Str(name.to_owned())),
        entry("filters", filters()),
    ];
    assert(wire::value_views(items@) =~= seq![
        entry_of("handle_token"@, ValueView::Str(token@)),
        entry_of("current_name"@, ValueView::Str(name@)),
        entry_of("filters"@, filters_of()),
    ]);
    let parent = Value::Str(String::new());
    assert(parent@->Str_0 =~= Seq::empty());
    let r = vec![parent, Value::Str(title.to_owned()), options(items, dir)];
    assert(wire::value_views(r@) =~= save_values(title@, name@, token@, opt_str(dir)));
    r
}

/// The bytes of the call that opens a dialog for saving.
pub fn save_file_call(
    conn: &mut dbus::Connection,
    title: &str,
    name: &str,
    token: &str,
    dir: Option<&str>,
) -> (r: Result<Vec<u8>, PortalError>)
    ensures
        final(conn)@ == (dbus::ConnectionView {
            serial: dbus::serial_after(old(conn)@.serial),
            ..old(conn)@
        }),
        dbus::wrote(
            r,
            dbus::serial_after(old(conn)@.serial),
            0,
            SERVICE@,
            OBJECT_PATH@,
            FILECHOOSER@,
            "SaveFile"@,
            save_values(title@, name@, token@, opt_str(dir)),
        ),
{
    conn.call(SERVICE, OBJECT_PATH, FILECHOOSER, "SaveFile", &save_body(title, name, token, dir))
}

/// The bytes of the call that closes a dialog; no answer is waited for.
pub fn close_request(conn: &mut dbus::Connection, handle: &str) -> (r: Result<Vec<u8>, PortalError>)
    ensures
        final(conn)@ == (dbus::ConnectionView {
            serial: dbus::serial_after(old(conn)@.serial),
            ..old(conn)@
        }),
        dbus::wrote(
            r,
            dbus::serial_after(old(conn)@.serial),
            wire::FLAG_NO_REPLY_EXPECTED,
            SERVICE@,
            handle@,
            REQUEST@,
            "Close"@,
            Seq::empty(),
        ),
{
    let body: Vec<Value> = Vec::new();
    assert(wire::value_views(body@) =~= Seq::empty());
    conn.call_no_reply(SERVICE, handle, REQUEST, "Close", &body)
}

// ---- the course of a dialog ----

/// What a dialog came to: a file, nothing, or an error.
pub type Outcome = Result<Option<String>, PortalError>;

/// The model of [`Outcome`].
pub type OutcomeView = Result<Option<Seq<char>>, PortalErrorView>;

/// The model of an outcome.
pub open spec fn outcome_view(o: Outcome) -> OutcomeView {
    match o {
        Ok(Some(p)) => Ok(Some(p@)),
        Ok(None) => Ok(None),
        Err(e) => Err(e@),
    }
}

/// What to do next.
#[derive(Debug)]
pub enum Action {
    /// Subscribe, and report [`Event::Done`] or the failure.
    AddMatch(String),
    /// Open the dialog, and report its object or the failure.
    OpenFile,
    /// Wait for the answer of one of these objects, and report it or the failure.
    Wait(Vec<String>),
    /// Close the dialog, and report [`Event::Done`] whatever came of it.
    Close(String),
    /// End a subscription, and report [`Event::Done`] whatever came of it.
    RemoveMatch(String),
    /// The dialog is over.
    Finish(Outcome),
}

/// The model of [`Action`].
#[verifier::ext_equal]
pub enum ActionView {
    AddMatch(Seq<char>),
    OpenFile,
    Wait(Seq<Seq<char>>),
    Close(Seq<char>),
    RemoveMatch(Seq<char>),
    Finish(OutcomeView),
}

impl View for Action {
    type V = ActionView;

    open spec fn view(&self) -> ActionView {
        match *self {
            Action::AddMatch(s) => ActionView::AddMatch(s@),
            Action::OpenFile => ActionView::OpenFile,
            Action::Wait(paths) => ActionView::Wait(dbus::texts(paths@)),
            Action::Close(s) => ActionView::Close(s@),
            Action::RemoveMatch(s) => ActionView::RemoveMatch(s@),
            Action::Finish(o) => ActionView::Finish(outcome_view(o)),
        }
    }
}

/// What came of it.
#[derive(Debug)]
pub enum Event {
    Done,
    /// The object of the dialog.
    Handle(String),
    /// The values of the answer.
    Response(Vec<Value>),
    Failed(PortalError),
}

/// The model of [`Event`].
pub enum EventView {
    Done,
    Handle(Seq<char>),
    Response(Seq<ValueView>),
    Failed(PortalErrorView),
}

impl View for Event {
    type V = EventView;

    open spec fn view(&self) -> EventView {
        match *self {
            Event::Done => EventView::Done,
            Event::Handle(s) => EventView::Handle(s@),
            Event::Response(vs) => EventView::Response(wire::value_views(vs@)),
            Event::Failed(e) => EventView::Failed(e@),
        }
    }
}

/// How far a dialog is.
#[derive(Debug)]
pub enum Phase {
    /// It subscribes to the object that it foretold.
    Subscribing,
    /// It opens the dialog.
    Calling,
    /// It subscribes to the object that the portal named.
    SubscribingAgain(String),
    /// It waits for the user; `true` where there is a second subscription.
    Waiting(String, bool),
    /// It closes the dialog.
    Closing(Outcome),
    /// It ends the second subscription.
    LeavingAgain(Outcome),
    /// It ends the first subscription.
    Leaving(Outcome),
    /// It is over.
    Over,
}

/// The model of [`Phase`].
pub enum PhaseView {
    Subscribing,
    Calling,
    SubscribingAgain(Seq<char>),
    Waiting(Seq<char>, bool),
    Closing(OutcomeView),
    LeavingAgain(OutcomeView),
    Leaving(OutcomeView),
    Over,
}

impl View for Phase {
    type V = PhaseView;

    open spec fn view(&self) -> PhaseView {
        match *self {
            Phase::Subscribing => PhaseView::Subscribing,
            Phase::Calling => PhaseView::Calling,
            Phase::SubscribingAgain(h) => PhaseView::SubscribingAgain(h@),
            Phase::Waiting(h, extra) => PhaseView::Waiting(h@, extra),
            Phase::Closing(o) => PhaseView::Closing(outcome_view(o)),
            Phase::LeavingAgain(o) => PhaseView::LeavingAgain(outcome_view(o)),
            Phase::Leaving(o) => PhaseView::Leaving(outcome_view(o)),
            Phase::Over => PhaseView::Over,
        }
    }
}

/// What is wrong with an event that does not answer the action.
pub open spec fn out_of_turn() -> OutcomeView {
    Err(PortalErrorView::Protocol("对话框时序错乱"@))
}

/// Ends the first subscription, and keeps what the dialog came to.
pub open spec fn leave(predicted: Seq<char>, o: OutcomeView) -> (PhaseView, ActionView) {
    (PhaseView::Leaving(o), ActionView::RemoveMatch(match_rule(predicted)))
}

/// The next phase and what to do in it.
pub open spec fn step(predicted: Seq<char>, phase: PhaseView, event: EventView) -> (
    PhaseView,
    ActionView,
) {
    match phase {
        PhaseView::Subscribing => match event {
            EventView::Done => (PhaseView::Calling, ActionView::OpenFile),
            EventView::Failed(e) => (PhaseView::Over, ActionView::Finish(Err(e))),
            _ => (PhaseView::Over, ActionView::Finish(out_of_turn())),
        },
        PhaseView::Calling => match event {
            EventView::Handle(h) => if h != predicted {
                (PhaseView::SubscribingAgain(h), ActionView::AddMatch(match_rule(h)))
            } else {
                (PhaseView::Waiting(h, false), ActionView::Wait(seq![predicted, h]))
            },
            EventView::Failed(e) => leave(predicted, Err(e)),
            _ => leave(predicted, out_of_turn()),
        },
        PhaseView::SubscribingAgain(h) => match event {
            EventView::Done => (PhaseView::Waiting(h, true), ActionView::Wait(seq![predicted, h])),
            EventView::Failed(e) => leave(predicted, Err(e)),
            _ => leave(predicted, out_of_turn()),
        },
        PhaseView::Waiting(h, extra) => match event {
            EventView::Response(body) => if extra {
                (
                    PhaseView::LeavingAgain(response(body)),
                    ActionView::RemoveMatch(match_rule(h)),
                )
            } else {
                leave(predicted, response(body))
            },
            EventView::Failed(PortalErrorView::Timeout(_)) => (
                PhaseView::Closing(Err(PortalErrorView::Timeout(DIALOG_TIMEOUT))),
                ActionView::Close(h),
            ),
            EventView::Failed(e) => leave(predicted, Err(e)),
            _ => leave(predicted, out_of_turn()),
        },
        PhaseView::Closing(o) => leave(predicted, o),
        PhaseView::LeavingAgain(o) => leave(predicted, o),
        PhaseView::Leaving(o) => (PhaseView::Over, ActionView::Finish(o)),
        PhaseView::Over => (PhaseView::Over, ActionView::Finish(out_of_turn())),
    }
}

/// A dialog and how far it is.
#[derive(Debug)]
pub struct Request {
    /// The object that was foretold.
    pub predicted: String,
    pub phase: Phase,
}

fn leaving(predicted: &str, outcome: Outcome) -> (r: (Phase, Action))
    ensures
        (r.0@, r.1@) == leave(predicted@, outcome_view(outcome)),
{
    (Phase::Leaving(outcome), Action::RemoveMatch(response_match_rule(predicted)))
}

fn out_of_order() -> (r: Outcome)
    ensures
        outcome_view(r) == out_of_turn(),
{
    Err(protocol("对话框时序错乱"))
}

fn waiting(predicted: &str, handle: String, extra: bool) -> (r: (Phase, Action))
    ensures
        (r.0@, r.1@) == (
            PhaseView::Waiting(handle@, extra),
            ActionView::Wait(seq![predicted@, handle@]),
        ),
{
    let paths = vec![predicted.to_owned(), handle.clone()];
    assert(dbus::texts(paths@) =~= seq![predicted@, handle@]);
    (Phase::Waiting(handle, extra), Action::Wait(paths))
}

impl Request {
    /// A dialog whose object is foretold from the client's name and a token, and the first thing
    /// to do: to subscribe.
    pub fn start(unique_name: &str, token: &str) -> (r: (Request, Action))
        ensures
            r.0.predicted@ == request_object(unique_name@, token@),
            r.0.phase@ == PhaseView::Subscribing,
            r.1@ == ActionView::AddMatch(match_rule(r.0.predicted@)),
    {
        let predicted = request_path(unique_name, token);
        let rule = response_match_rule(predicted.as_str());
        (Request { predicted, phase: Phase::Subscribing }, Action::AddMatch(rule))
    }

    /// What to do after an event.
    pub fn next(self, event: Event) -> (r: (Request, Action))
        ensures
            r.0.predicted == self.predicted,
            (r.0.phase@, r.1@) == step(self.predicted@, self.phase@, event@),
    {
        let predicted = self.predicted;
        let p = predicted.as_str();
        let (phase, action) = match (self.phase, event) {
            (Phase::Subscribing, Event::Done) => (Phase::Calling, Action::OpenFile),
            (Phase::Subscribing, Event::Failed(e)) => (Phase::Over, Action::Finish(Err(e))),
            (Phase::Subscribing, _) => (Phase::Over, Action::Finish(out_of_order())),
            (Phase::Calling, Event::Handle(h)) => {
                if same_text(h.as_str(), p) {
                    waiting(p, h, false)
                } else {
                    let rule = response_match_rule(h.as_str());
                    (Phase::SubscribingAgain(h), Action::AddMatch(rule))
                }
            },
            (Phase::Calling, Event::Failed(e)) => leaving(p, Err(e)),
            (Phase::Calling, _) => leaving(p, out_of_order()),
            (Phase::SubscribingAgain(h), Event::Done) => waiting(p, h, true),
            (Phase::SubscribingAgain(_), Event::Failed(e)) => leaving(p, Err(e)),
            (Phase::SubscribingAgain(_), _) => leaving(p, out_of_order()),
            (Phase::Waiting(h, extra), Event::Response(body)) => {
                let outcome = decode_response(&body);
                assert(outcome_view(outcome) == response(wire::value_views(body@)));
                if extra {
                    let rule = response_match_rule(h.as_str());
                    (Phase::LeavingAgain(outcome), Action::RemoveMatch(rule))
                } else {
                    leaving(p, outcome)
                }
            },
            (Phase::Waiting(h, _), Event::Failed(PortalError::Timeout(_))) => (
                Phase::Closing(Err(PortalError::Timeout(DIALOG_TIMEOUT))),
                Action::Close(h),
            ),
            (Phase::Waiting(_, _), Event::Failed(e)) => leaving(p, Err(e)),
            (Phase::Waiting(_, _), _) => leaving(p, out_of_order()),
            (Phase::Closing(o), _) => leaving(p, o),
            (Phase::LeavingAgain(o), _) => leaving(p, o),
            (Phase::Leaving(o), _) => (Phase::Over, Action::Finish(o)),
            (Phase::Over, _) => (Phase::Over, Action::Finish(out_of_order())),
        };
        (Request { predicted, phase }, action)
    }
}

} // verus!
