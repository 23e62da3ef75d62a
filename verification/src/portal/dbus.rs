//! The session bus: where it is, how a client introduces itself, and which message answers which
//! call. A [`Connection`] holds what is known of the connection; the caller owns the socket, sends
//! the bytes it is given and hands in the messages it reads.

use vstd::prelude::*;
use super::marshal::{self, marshal_call};
use super::wire::{self, Message, MessageView, Value, ValueView};
use super::{protocol, PortalError, PortalErrorView};
use crate::text::{self, chars_of, has_prefix, push_hex, same_text, string_of};

verus! {

// ---- the address ----

/// What a piece of an address (`unix:...`) leads to: a path, an error, or nothing.
pub open spec fn entry_socket(entry: Seq<char>) -> Option<Result<Seq<char>, Seq<char>>> {
    match text::after_prefix(text::trimmed(entry), "unix:"@) {
        None => None,
        Some(rest) => params_socket(text::pieces(rest, ','), 0, false),
    }
}

/// What the parameters from `i` on lead to; the first path counts, and an abstract socket only
/// where there is none.
pub open spec fn params_socket(ps: Seq<Seq<char>>, i: int, hidden: bool) -> Option<
    Result<Seq<char>, Seq<char>>,
>
    decreases ps.len() - i,
{
    if !(0 <= i < ps.len()) {
        if hidden {
            Some(Err("不支持 abstract socket 地址"@))
        } else {
            None
        }
    } else {
        match text::after_prefix(ps[i], "path="@) {
            Some(path) => Some(Ok(path)),
            None => params_socket(ps, i + 1, hidden || text::starts_with(ps[i], "abstract="@)),
        }
    }
}

/// What the pieces of an address from `i` on lead to.
pub open spec fn entries_socket(es: Seq<Seq<char>>, i: int) -> Option<Result<Seq<char>, Seq<char>>>
    decreases es.len() - i,
{
    if !(0 <= i < es.len()) {
        None
    } else {
        match entry_socket(es[i]) {
            Some(r) => Some(r),
            None => entries_socket(es, i + 1),
        }
    }
}

/// The socket that an address names, or what is wrong.
pub open spec fn address_socket(address: Seq<char>) -> Result<Seq<char>, Seq<char>> {
    match entries_socket(text::pieces(address, ';'), 0) {
        Some(r) => r,
        None => Err("无法解析 DBUS_SESSION_BUS_ADDRESS："@ + address),
    }
}

/// The socket of the session bus: what the address names where there is one, else the bus in the
/// runtime directory where that is there.
pub open spec fn session_path(address: Option<Seq<char>>, bus: Option<Seq<char>>) -> Result<
    Seq<char>,
    Seq<char>,
> {
    match address {
        Some(a) => address_socket(a),
        None => match bus {
            Some(path) => Ok(path),
            None => Err("未设置 DBUS_SESSION_BUS_ADDRESS / XDG_RUNTIME_DIR，找不到会话总线"@),
        },
    }
}

fn socket_of_params(ps: &Vec<Vec<char>>) -> (r: Option<Result<String, PortalError>>)
    ensures
        match params_socket(text::char_lists(ps@), 0, false) {
            None => r is None,
            Some(Ok(path)) => r matches Some(Ok(x)) && x@ == path,
            Some(Err(e)) => r matches Some(Err(x)) && x@ == PortalErrorView::NoDBus(e),
        },
{
    let ghost views = text::char_lists(ps@);
    let mut hidden = false;
    let mut i: usize = 0;
    while i < ps.len()
        invariant
            i <= ps@.len(),
            views == text::char_lists(ps@),
            params_socket(views, 0, false) == params_socket(views, i as int, hidden),
        decreases ps@.len() - i,
    {
        assert(views[i as int] == ps@[i as int]@);
        if let Some(path) = text::strip_prefix(&ps[i], "path=") {
            return Some(Ok(string_of(&path)));
        }
        if has_prefix(&ps[i], "abstract=") {
            hidden = true;
        }
        i += 1;
    }
    if hidden {
        Some(Err(PortalError::NoDBus("不支持 abstract socket 地址".to_owned())))
    } else {
        None
    }
}

/// The socket that an address names.
pub fn socket_of_address(address: &str) -> (r: Result<String, PortalError>)
    ensures
        match address_socket(address@) {
            Ok(path) => r matches Ok(x) && x@ == path,
            Err(e) => r matches Err(x) && x@ == PortalErrorView::NoDBus(e),
        },
{
    let entries = text::split_on(&chars_of(address), ';');
    let ghost views = text::char_lists(entries@);
    let mut i: usize = 0;
    while i < entries.len()
        invariant
            i <= entries@.len(),
            views == text::char_lists(entries@),
            views == text::pieces(address@, ';'),
            entries_socket(views, 0) == entries_socket(views, i as int),
        decreases entries@.len() - i,
    {
        assert(views[i as int] == entries@[i as int]@);
        let entry = text::trim(&entries[i]);
        if let Some(rest) = text::strip_prefix(&entry, "unix:") {
            let params = text::split_on(&rest, ',');
            if let Some(found) = socket_of_params(&params) {
                return found;
            }
        }
        i += 1;
    }
    let mut out = "无法解析 DBUS_SESSION_BUS_ADDRESS：".to_owned();
    out.append(address);
    Err(PortalError::NoDBus(out))
}

/// The socket of the session bus, by its address and by the bus in the runtime directory, each
/// where there is one.
pub fn session_socket(address: Option<&str>, bus: Option<String>) -> (r: Result<
    String,
    PortalError,
>)
    ensures
        match session_path(
            match address {
                Some(a) => Some(a@),
                None => None,
            },
            wire::opt_text(bus),
        ) {
            Ok(path) => r matches Ok(x) && x@ == path,
            Err(e) => r matches Err(x) && x@ == PortalErrorView::NoDBus(e),
        },
{
    match address {
        Some(a) => socket_of_address(a),
        None => match bus {
            Some(path) => Ok(path),
            None => Err(
                PortalError::NoDBus(
                    "未设置 DBUS_SESSION_BUS_ADDRESS / XDG_RUNTIME_DIR，找不到会话总线".to_owned(),
                ),
            ),
        },
    }
}

/// The bus of a runtime directory.
pub fn bus_in(dir: &str) -> (r: String)
    ensures
        r@ == dir@ + "/bus"@,
{
    let mut out = dir.to_owned();
    out.append("/bus");
    out
}

// ---- introducing oneself ----

/// The user id on a line of the process status, where it is the line that has it.
pub open spec fn uid_on(line: Seq<char>) -> Option<nat> {
    match text::after_prefix(line, "Uid:"@) {
        None => None,
        Some(rest) => match text::first_word(rest) {
            None => None,
            Some(w) => text::parsed_unsigned(w, u32::MAX as nat),
        },
    }
}

/// The first user id on the lines from `i` on.
pub open spec fn uid_from(lines: Seq<Seq<char>>, i: int) -> Option<nat>
    decreases lines.len() - i,
{
    if !(0 <= i < lines.len()) {
        None
    } else {
        match uid_on(lines[i]) {
            Some(n) => Some(n),
            None => uid_from(lines, i + 1),
        }
    }
}

/// The user id in the text of `/proc/self/status`: the first number of its `Uid:` line.
pub fn uid_of_status(status: &str) -> (r: Result<u32, PortalError>)
    ensures
        match uid_from(text::pieces(status@, '\n'), 0) {
            Some(n) => r matches Ok(x) && x == n,
            None => r matches Err(x) && x@ == PortalErrorView::NoDBus(
                "无法从 /proc/self/status 确定 uid"@,
            ),
        },
{
    let lines = text::split_on(&chars_of(status), '\n');
    let ghost views = text::char_lists(lines@);
    let mut i: usize = 0;
    while i < lines.len()
        invariant
            i <= lines@.len(),
            views == text::char_lists(lines@),
            views == text::pieces(status@, '\n'),
            uid_from(views, 0) == uid_from(views, i as int),
        decreases lines@.len() - i,
    {
        assert(views[i as int] == lines@[i as int]@);
        if let Some(rest) = text::strip_prefix(&lines[i], "Uid:") {
            if let Some(w) = text::word_of(&rest) {
                if let Some(n) = text::parse_unsigned(&w, u32::MAX as u64) {
                    return Ok(n as u32);
                }
            }
        }
        i += 1;
    }
    Err(PortalError::NoDBus("无法从 /proc/self/status 确定 uid".to_owned()))
}

/// Each byte in two hexadecimal digits.
pub open spec fn hex_text(b: Seq<u8>) -> Seq<char>
    decreases b.len(),
{
    if b.len() == 0 {
        Seq::empty()
    } else {
        hex_text(b.drop_last()) + text::hex_byte(b.last())
    }
}

/// The line that asks to be let in as the given user: the decimal id, its bytes in hexadecimal.
pub open spec fn auth_text(uid: u32) -> Seq<char> {
    "AUTH EXTERNAL "@ + hex_text(vstd::utf8::encode_utf8(text::decimal(uid as nat))) + "\r\n"@
}

/// The line that asks to be let in as the given user.
pub fn auth_line(uid: u32) -> (r: String)
    ensures
        r@ == auth_text(uid),
{
    let mut out = "AUTH EXTERNAL ".to_owned();
    let id = text::decimal_text(uid as u64);
    let bytes = id.as_str().as_bytes();
    let ghost open = out@;
    let mut i: usize = 0;
    assert(out@ =~= open + hex_text(bytes@.take(0)));
    while i < bytes.len()
        invariant
            i <= bytes@.len(),
            out@ == open + hex_text(bytes@.take(i as int)),
        decreases bytes@.len() - i,
    {
        push_hex(&mut out, bytes[i]);
        i += 1;
        proof {
            let t = bytes@.take(i as int);
            assert(t.drop_last() =~= bytes@.take(i - 1));
            assert(out@ =~= open + hex_text(t));
        }
    }
    assert(bytes@.take(i as int) =~= bytes@);
    out.append("\r\n");
    out
}

/// Takes in one byte of the answer to that line, and says whether the line is complete.
pub fn sasl_byte(line: &mut String, byte: u8) -> (r: bool)
    ensures
        r == (byte == 0x0A),
        final(line)@ == if byte == 0x0A || byte == 0x0D {
            old(line)@
        } else {
            old(line)@.push(byte as char)
        },
{
    if byte == 0x0A {
        true
    } else if byte == 0x0D {
        false
    } else {
        line.push(byte as char);
        false
    }
}

/// Whether the answer lets the client in.
pub fn auth_accepted(line: &str) -> (r: Result<(), PortalError>)
    ensures
        match r {
            Ok(_) => text::starts_with(line@, "OK "@),
            Err(e) => !text::starts_with(line@, "OK "@) && e@ == PortalErrorView::NoDBus(
                "会话总线拒绝了认证："@ + line@,
            ),
        },
{
    if has_prefix(&chars_of(line), "OK ") {
        Ok(())
    } else {
        let mut out = "会话总线拒绝了认证：".to_owned();
        out.append(line);
        Err(PortalError::NoDBus(out))
    }
}

// ---- messages ----

/// How long a message is, by its first 16 bytes, or what is wrong with them.
pub open spec fn message_len(head: Seq<u8>) -> Result<int, Seq<char>> {
    match wire::byte_order(head[0]) {
        None => Err(wire::bad_order(head[0])),
        Some(big) => {
            let body_len = wire::num32(head, 4, big);
            let fields_len = wire::num32(head, 12, big);
            if body_len > wire::MAX_MESSAGE_BYTES || fields_len > wire::MAX_MESSAGE_BYTES {
                Err("消息超过大小上限"@)
            } else {
                Ok(wire::aligned(16 + fields_len, 8) + body_len)
            }
        },
    }
}

/// How long a message is, by its first 16 bytes.
pub fn frame_len(head: &[u8]) -> (r: Result<usize, PortalError>)
    requires
        head@.len() >= 16,
    ensures
        match message_len(head@) {
            Ok(n) => r matches Ok(x) && x == n && x >= 16,
            Err(e) => r matches Err(x) && x@ == PortalErrorView::Protocol(e),
        },
{
    let big = if head[0] == 0x6C {
        false
    } else if head[0] == 0x42 {
        true
    } else {
        return Err(wire::unknown_order(head[0]));
    };
    let body_len = wire::read_u32(head, 4, big);
    let fields_len = wire::read_u32(head, 12, big);
    if body_len as u64 > wire::MAX_MESSAGE_BYTES as u64 || fields_len as u64
        > wire::MAX_MESSAGE_BYTES as u64 {
        return Err(protocol("消息超过大小上限"));
    }
    proof {
        wire::lemma_up_to(16 + fields_len as int, 8);
    }
    Ok(wire::align_up(16 + fields_len as usize, 8) + body_len as usize)
}

// ---- calls and their answers ----

/// The bus itself, as the receiver of calls.
pub const BUS_DEST: &'static str = "org.freedesktop.DBus";

pub const BUS_PATH: &'static str = "/org/freedesktop/DBus";

/// The models of a list of messages.
pub open spec fn message_views(ms: Seq<Message>) -> Seq<MessageView> {
    ms.map_values(|m: Message| m@)
}

/// The texts of a list of strings.
pub open spec fn texts(v: Seq<String>) -> Seq<Seq<char>> {
    v.map_values(|s: String| s@)
}

/// Whether a message is the signal that is waited for, from one of the given objects.
pub open spec fn is_signal(
    m: MessageView,
    interface: Seq<char>,
    member: Seq<char>,
    paths: Seq<Seq<char>>,
) -> bool {
    &&& m.kind == wire::SIGNAL
    &&& m.interface == Some(interface)
    &&& m.member == Some(member)
    &&& m.path is Some
    &&& paths.contains(m.path->0)
}

fn opt_is(s: &Option<String>, t: &str) -> (r: bool)
    ensures
        r == (wire::opt_text(*s) == Some(t@)),
{
    match s {
        Some(x) => same_text(x.as_str(), t),
        None => false,
    }
}

fn holds_text(list: &Vec<String>, t: &str) -> (r: bool)
    ensures
        r == texts(list@).contains(t@),
{
    let ghost views = texts(list@);
    let mut i: usize = 0;
    while i < list.len()
        invariant
            i <= list@.len(),
            views == texts(list@),
            forall|k: int| 0 <= k < i ==> #[trigger] views[k] != t@,
        decreases list@.len() - i,
    {
        assert(views[i as int] == list@[i as int]@);
        if same_text(list[i].as_str(), t) {
            return true;
        }
        i += 1;
    }
    false
}

/// Whether a message is the signal that is waited for, from one of the given objects.
pub fn signal_matches(msg: &Message, interface: &str, member: &str, paths: &Vec<String>) -> (r: bool)
    ensures
        r == is_signal(msg@, interface@, member@, texts(paths@)),
{
    if msg.kind != wire::SIGNAL || !opt_is(&msg.interface, interface) || !opt_is(
        &msg.member,
        member,
    ) {
        return false;
    }
    match &msg.path {
        Some(p) => holds_text(paths, p.as_str()),
        None => false,
    }
}

/// What a message means to a call that waits for its answer.
#[derive(Debug)]
pub enum Answer {
    /// The values of the answer.
    Body(Vec<Value>),
    /// The call failed.
    Failed(PortalError),
    /// The message is something else.
    Waiting,
}

/// The model of [`Answer`].
#[verifier::ext_equal]
pub enum AnswerView {
    Body(Seq<ValueView>),
    Failed(PortalErrorView),
    Waiting,
}

impl View for Answer {
    type V = AnswerView;

    open spec fn view(&self) -> AnswerView {
        match *self {
            Answer::Body(vs) => AnswerView::Body(wire::value_views(vs@)),
            Answer::Failed(e) => AnswerView::Failed(e@),
            Answer::Waiting => AnswerView::Waiting,
        }
    }
}

/// What a message means to the call `serial`.
pub open spec fn answer_to(serial: u32, m: MessageView) -> AnswerView {
    if m.kind == wire::METHOD_RETURN && m.reply_serial == Some(serial) {
        AnswerView::Body(m.body)
    } else if m.kind == wire::ERROR && m.reply_serial == Some(serial) {
        AnswerView::Failed(
            PortalErrorView::CallFailed {
                name: match m.error_name {
                    Some(n) => n,
                    None => "未知错误"@,
                },
                message: if m.body.len() > 0 && m.body[0] is Str {
                    m.body[0]->Str_0
                } else {
                    "（对端未附错误消息）"@
                },
            },
        )
    } else {
        AnswerView::Waiting
    }
}

/// What is known of a connection to the bus.
#[derive(Debug)]
pub struct Connection {
    pub(crate) serial: u32,
    pub(crate) unique_name: String,
    /// The signals that came while a call waited for its answer.
    pub(crate) inbox: Vec<Message>,
}

/// The model of [`Connection`].
#[verifier::ext_equal]
pub struct ConnectionView {
    pub serial: u32,
    pub unique_name: Seq<char>,
    pub inbox: Seq<MessageView>,
}

impl View for Connection {
    type V = ConnectionView;

    closed spec fn view(&self) -> ConnectionView {
        ConnectionView {
            serial: self.serial,
            unique_name: self.unique_name@,
            inbox: message_views(self.inbox@),
        }
    }
}

/// The number of the call after `serial`; 0 is no number of a call.
pub open spec fn serial_after(serial: u32) -> u32 {
    if serial == u32::MAX {
        1
    } else {
        (serial + 1) as u32
    }
}

/// Where the first signal that is waited for stands in the inbox, from `i` on.
pub open spec fn find_signal(
    inbox: Seq<MessageView>,
    interface: Seq<char>,
    member: Seq<char>,
    paths: Seq<Seq<char>>,
    i: int,
) -> Option<int>
    decreases inbox.len() - i,
{
    if !(0 <= i < inbox.len()) {
        None
    } else if is_signal(inbox[i], interface, member, paths) {
        Some(i)
    } else {
        find_signal(inbox, interface, member, paths, i + 1)
    }
}

/// The outcome of writing a call, as a result.
pub open spec fn wrote(
    r: Result<Vec<u8>, PortalError>,
    serial: u32,
    flags: u8,
    destination: Seq<char>,
    path: Seq<char>,
    interface: Seq<char>,
    member: Seq<char>,
    body: Seq<ValueView>,
) -> bool {
    match marshal::call_bytes(serial, flags, destination, path, interface, member, body) {
        Ok(out) => r matches Ok(x) && x@ == out,
        Err(e) => r matches Err(x) && x@ == PortalErrorView::Protocol(e),
    }
}

impl Connection {
    /// A connection on which nothing has happened yet.
    pub fn new() -> (r: Connection)
        ensures
            r@ == (ConnectionView { serial: 0, unique_name: Seq::empty(), inbox: Seq::empty() }),
    {
        let r = Connection { serial: 0, unique_name: String::new(), inbox: Vec::new() };
        assert(r@.inbox =~= Seq::empty());
        assert(r@.unique_name =~= Seq::empty());
        r
    }

    /// The name that the bus gave the client.
    pub fn unique_name(&self) -> (r: &str)
        ensures
            r@ == self@.unique_name,
    {
        self.unique_name.as_str()
    }

    /// The number of the last call.
    pub fn last_serial(&self) -> (r: u32)
        ensures
            r == self@.serial,
    {
        self.serial
    }

    fn next_serial(&mut self) -> (r: u32)
        ensures
            r == serial_after(old(self)@.serial),
            final(self)@ == (ConnectionView { serial: r, ..old(self)@ }),
    {
        self.serial = if self.serial == u32::MAX {
            1
        } else {
            self.serial + 1
        };
        self.serial
    }

    /// The bytes of the next call, which waits for an answer.
    pub fn call(
        &mut self,
        destination: &str,
        path: &str,
        interface: &str,
        member: &str,
        body: &Vec<Value>,
    ) -> (r: Result<Vec<u8>, PortalError>)
        ensures
            final(self)@ == (ConnectionView { serial: serial_after(old(self)@.serial), ..old(self)@
            }),
            wrote(
                r,
                serial_after(old(self)@.serial),
                0,
                destination@,
                path@,
                interface@,
                member@,
                wire::value_views(body@),
            ),
    {
        let serial = self.next_serial();
        marshal_call(serial, 0, destination, path, interface, member, body)
    }

    /// The bytes of the next call, which wants no answer.
    pub fn call_no_reply(
        &mut self,
        destination: &str,
        path: &str,
        interface: &str,
        member: &str,
        body: &Vec<Value>,
    ) -> (r: Result<Vec<u8>, PortalError>)
        ensures
            final(self)@ == (ConnectionView { serial: serial_after(old(self)@.serial), ..old(self)@
            }),
            wrote(
                r,
                serial_after(old(self)@.serial),
                wire::FLAG_NO_REPLY_EXPECTED,
                destination@,
                path@,
                interface@,
                member@,
                wire::value_views(body@),
            ),
    {
        let serial = self.next_serial();
        marshal_call(
            serial,
            wire::FLAG_NO_REPLY_EXPECTED,
            destination,
            path,
            interface,
            member,
            body,
        )
    }

    /// What a message means to the call that was made last. A signal that comes in between is kept
    /// for later; anything else is dropped.
    pub fn answer(&mut self, msg: Message) -> (r: Answer)
        ensures
            r@ == answer_to(old(self)@.serial, msg@),
            final(self)@ == if msg@.kind == wire::SIGNAL {
                (ConnectionView { inbox: old(self)@.inbox.push(msg@), ..old(self)@ })
            } else {
                old(self)@
            },
    {
        let ghost before = self.inbox@;
        let mine = match msg.reply_serial {
            Some(n) => n == self.serial,
            None => false,
        };
        if msg.kind == wire::METHOD_RETURN && mine {
            return Answer::Body(msg.body);
        }
        if msg.kind == wire::ERROR && mine {
            let ghost vs = msg@.body;
            let message = if msg.body.len() > 0 {
                assert(vs[0] == msg.body@[0]@);
                match &msg.body[0] {
                    Value::Str(s) => s.clone(),
                    _ => "（对端未附错误消息）".to_owned(),
                }
            } else {
                "（对端未附错误消息）".to_owned()
            };
            let name = match msg.error_name {
                Some(n) => n,
                None => "未知错误".to_owned(),
            };
            return Answer::Failed(PortalError::CallFailed { name, message });
        }
        if msg.kind == wire::SIGNAL {
            self.inbox.push(msg);
            assert(message_views(self.inbox@) =~= message_views(before).push(msg@));
        }
        Answer::Waiting
    }

    /// Takes the first signal that is waited for out of those that were kept.
    pub fn wait_signal(&mut self, interface: &str, member: &str, paths: &Vec<String>) -> (r: Option<
        Vec<Value>,
    >)
        ensures
            match find_signal(old(self)@.inbox, interface@, member@, texts(paths@), 0) {
                Some(i) => (r matches Some(vs) && wire::value_views(vs@) == old(
                    self,
                )@.inbox[i].body) && final(self)@ == (ConnectionView {
                    inbox: old(self)@.inbox.remove(i),
                    ..old(self)@
                }),
                None => r is None && final(self)@ == old(self)@,
            },
    {
        let ghost views = message_views(self.inbox@);
        let mut i: usize = 0;
        while i < self.inbox.len()
            invariant
                i <= self.inbox@.len(),
                *self == *old(self),
                views == message_views(self.inbox@),
                find_signal(views, interface@, member@, texts(paths@), 0) == find_signal(
                    views,
                    interface@,
                    member@,
                    texts(paths@),
                    i as int,
                ),
            decreases self.inbox@.len() - i,
        {
            assert(views[i as int] == self.inbox@[i as int]@);
            if signal_matches(&self.inbox[i], interface, member, paths) {
                let msg = self.inbox.remove(i);
                assert(message_views(self.inbox@) =~= views.remove(i as int));
                return Some(msg.body);
            }
            i += 1;
        }
        None
    }

    /// The bytes of the call that subscribes to messages.
    pub fn add_match(&mut self, rule: &str) -> (r: Result<Vec<u8>, PortalError>)
        ensures
            final(self)@ == (ConnectionView { serial: serial_after(old(self)@.serial), ..old(self)@
            }),
            wrote(
                r,
                serial_after(old(self)@.serial),
                0,
                BUS_DEST@,
                BUS_PATH@,
                BUS_DEST@,
                "AddMatch"@,
                seq![ValueView::Str(rule@)],
            ),
    {
        let body = vec![Value::Str(rule.to_owned())];
        assert(wire::value_views(body@) =~= seq![ValueView::Str(rule@)]);
        self.call(BUS_DEST, BUS_PATH, BUS_DEST, "AddMatch", &body)
    }

    /// The bytes of the call that ends a subscription.
    pub fn remove_match(&mut self, rule: &str) -> (r: Result<Vec<u8>, PortalError>)
        ensures
            final(self)@ == (ConnectionView { serial: serial_after(old(self)@.serial), ..old(self)@
            }),
            wrote(
                r,
                serial_after(old(self)@.serial),
                0,
                BUS_DEST@,
                BUS_PATH@,
                BUS_DEST@,
                "RemoveMatch"@,
                seq![ValueView::Str(rule@)],
            ),
    {
        let body = vec![Value::Str(rule.to_owned())];
        assert(wire::value_views(body@) =~= seq![ValueView::Str(rule@)]);
        self.call(BUS_DEST, BUS_PATH, BUS_DEST, "RemoveMatch", &body)
    }

    /// The bytes of the first call, which asks for a name.
    pub fn hello(&mut self) -> (r: Result<Vec<u8>, PortalError>)
        ensures
            final(self)@ == (ConnectionView { serial: serial_after(old(self)@.serial), ..old(self)@
            }),
            wrote(
                r,
                serial_after(old(self)@.serial),
                0,
                BUS_DEST@,
                BUS_PATH@,
                BUS_DEST@,
                "Hello"@,
                Seq::empty(),
            ),
    {
        let body: Vec<Value> = Vec::new();
        assert(wire::value_views(body@) =~= Seq::empty());
        self.call(BUS_DEST, BUS_PATH, BUS_DEST, "Hello", &body)
    }

    /// Takes in the answer to the first call.
    pub fn hello_answer(&mut self, reply: Vec<Value>) -> (r: Result<(), PortalError>)
        ensures
            if reply@.len() > 0 && reply@[0]@ is Str {
                r is Ok && final(self)@ == (ConnectionView {
                    unique_name: reply@[0]@->Str_0,
                    ..old(self)@
                })
            } else {
                (r matches Err(e) && e@ == PortalErrorView::Protocol("Hello 应答不是字符串"@))
                    && final(self)@ == old(self)@
            },
    {
        if reply.len() > 0 {
            if let Value::Str(name) = &reply[0] {
                self.unique_name = name.clone();
                return Ok(());
            }
        }
        Err(protocol("Hello 应答不是字符串"))
    }
}

} // verus!
