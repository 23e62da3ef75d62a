//! The desktop's file dialog: the wire format, the connection, and the steps of a request.

use guanqi::portal::dbus::{
    auth_accepted, auth_line, bus_in, frame_len, sasl_byte, session_socket, signal_matches,
    socket_of_address, uid_of_status, Answer, Connection,
};
use guanqi::portal::filechooser::{
    close_request, decode_response, handle_token, open_body, open_file_call, open_file_handle,
    percent_decode, probe, probe_body, probe_failed, probe_version, request_path,
    response_match_rule, save_body, save_file_call, uri_to_path, Action, Event, Phase, Request,
};
use guanqi::portal::wire::{parse, sig_align, Message, Value};
use guanqi::portal::{event_of, PortalError, PortalEvent};

fn text(s: &str) -> Value {
    Value::Str(s.to_string())
}

fn entry(key: &str, v: Value) -> Value {
    Value::Struct(vec![text(key), Value::Variant(Box::new(v))])
}

fn signal(path: &str, member: &str, body: Vec<Value>) -> Message {
    Message {
        kind: 4,
        serial: 7,
        reply_serial: None,
        path: Some(path.to_string()),
        interface: Some("org.freedesktop.portal.Request".to_string()),
        member: Some(member.to_string()),
        error_name: None,
        body,
    }
}

fn reply(to: u32, kind: u8, body: Vec<Value>) -> Message {
    Message {
        kind,
        serial: 9,
        reply_serial: Some(to),
        path: None,
        interface: None,
        member: None,
        error_name: Some("org.x.Oops".to_string()),
        body,
    }
}

#[test]
fn a_written_call_reads_back() {
    let mut c = Connection::new();
    let body = vec![
        text("围"),
        Value::U32(7),
        Value::Byte(1),
        Value::I64(-2),
        Value::Array { elem: "u".to_string(), items: vec![Value::U32(1), Value::U32(2)] },
        entry("k", Value::Bool(true)),
    ];
    let bytes = c.call("d.e", "/p", "i.f", "M", &body).unwrap();
    assert_eq!(c.last_serial(), 1);
    assert_eq!(frame_len(&bytes[..16]).unwrap(), bytes.len());
    let m = parse(&bytes).unwrap();
    assert_eq!((m.kind, m.serial), (1, 1));
    assert_eq!(m.path, Some("/p".to_string()));
    assert_eq!(m.interface, Some("i.f".to_string()));
    assert_eq!(m.member, Some("M".to_string()));
    assert_eq!(format!("{:?}", m.body), format!("{:?}", body));
}

#[test]
fn values_of_every_kind_read_back() {
    let mut c = Connection::new();
    let body = vec![
        Value::I16(-3),
        Value::U16(65535),
        Value::I32(i32::MIN),
        Value::U64(u64::MAX),
        Value::F64(0x3ff0_0000_0000_0000),
        Value::Path("/a/b".to_string()),
        Value::Sig("a{sv}".to_string()),
        Value::Array { elem: "{sv}".to_string(), items: vec![entry("x", text("y"))] },
        Value::Array { elem: "s".to_string(), items: vec![] },
        Value::Variant(Box::new(Value::Struct(vec![Value::Byte(1), text("z")]))),
    ];
    let bytes = c.call("d", "/p", "i", "M", &body).unwrap();
    assert_eq!(format!("{:?}", parse(&bytes).unwrap().body), format!("{:?}", body));
}

#[test]
fn a_call_without_reply_says_so() {
    let mut c = Connection::new();
    let with = c.call("d", "/p", "i", "M", &vec![]).unwrap();
    let without = c.call_no_reply("d", "/p", "i", "M", &vec![]).unwrap();
    assert_eq!(with[2], 0);
    assert_eq!(without[2], 1);
    assert_eq!(c.last_serial(), 2);
}

#[test]
fn signatures_and_alignment() {
    let v = Value::Array { elem: "{sv}".to_string(), items: vec![] };
    assert_eq!(v.signature(), "a{sv}");
    assert_eq!(Value::Struct(vec![Value::U32(1), text("a")]).signature(), "(us)");
    assert_eq!(Value::Variant(Box::new(Value::U32(1))).signature(), "v");
    for (s, n) in [("y", 1), ("n", 2), ("u", 4), ("s", 4), ("x", 8), ("(y)", 8), ("{sv}", 8), ("g", 1), ("v", 1), ("as", 4)] {
        assert_eq!(sig_align(s).unwrap(), n);
    }
    assert!(sig_align("?").is_err());
    assert!(sig_align("").is_err());
}

#[test]
fn broken_frames_are_told() {
    let head = [0x78u8; 16];
    assert!(matches!(frame_len(&head), Err(PortalError::Protocol(_))));
    let mut big = [0u8; 16];
    big[0] = 0x6c;
    big[7] = 0xff;
    let e = frame_len(&big).err().unwrap();
    assert_eq!(e.message(), "portal 协议异常：消息超过大小上限");
    assert!(parse(&[]).is_err());
    let mut c = Connection::new();
    let mut bytes = c.hello().unwrap();
    bytes.pop();
    bytes.truncate(bytes.len() - 8);
    assert!(parse(&bytes).is_err());
}

#[test]
fn replies_are_told_from_the_rest() {
    let mut c = Connection::new();
    let _ = c.hello().unwrap();
    assert!(matches!(c.answer(reply(5, 2, vec![])), Answer::Waiting));
    match c.answer(reply(1, 2, vec![text(":1.5")])) {
        Answer::Body(b) => assert!(c.hello_answer(b).is_ok()),
        _ => panic!("no body"),
    }
    assert_eq!(c.unique_name(), ":1.5");
    match c.answer(reply(1, 3, vec![text("why")])) {
        Answer::Failed(e) => assert_eq!(e.message(), "portal 调用失败（org.x.Oops）：why"),
        _ => panic!("no failure"),
    }
    match c.answer(reply(1, 3, vec![])) {
        Answer::Failed(e) => {
            assert_eq!(e.message(), "portal 调用失败（org.x.Oops）：（对端未附错误消息）")
        }
        _ => panic!("no failure"),
    }
    assert!(c.hello_answer(vec![Value::U32(1)]).is_err());
    assert_eq!(c.unique_name(), ":1.5");
}

#[test]
fn signals_wait_in_line() {
    let mut c = Connection::new();
    let paths = vec!["/r".to_string()];
    assert!(matches!(c.answer(signal("/other", "Response", vec![])), Answer::Waiting));
    assert!(matches!(c.answer(signal("/r", "Response", vec![Value::U32(1)])), Answer::Waiting));
    assert!(matches!(c.answer(signal("/r", "Response", vec![Value::U32(2)])), Answer::Waiting));
    let i = "org.freedesktop.portal.Request";
    let first = c.wait_signal(i, "Response", &paths).unwrap();
    assert!(matches!(first[0], Value::U32(1)));
    let second = c.wait_signal(i, "Response", &paths).unwrap();
    assert!(matches!(second[0], Value::U32(2)));
    assert!(c.wait_signal(i, "Response", &paths).is_none());
    assert!(signal_matches(&signal("/r", "Response", vec![]), i, "Response", &paths));
    assert!(!signal_matches(&signal("/r", "Other", vec![]), i, "Response", &paths));
}

#[test]
fn finding_the_bus() {
    assert_eq!(socket_of_address("unix:path=/run/user/1/bus").unwrap(), "/run/user/1/bus");
    assert_eq!(
        socket_of_address("tcp:host=x;unix:guid=1,path=/b").unwrap(),
        "/b"
    );
    let e = socket_of_address("tcp:host=x").err().unwrap();
    assert_eq!(
        e.message(),
        "D-Bus 会话总线不可用：无法解析 DBUS_SESSION_BUS_ADDRESS：tcp:host=x"
    );
    assert!(socket_of_address("unix:abstract=/x").is_err());
    assert_eq!(bus_in("/run/user/1"), "/run/user/1/bus");
    assert_eq!(session_socket(None, Some("/b".to_string())).unwrap(), "/b");
    assert_eq!(session_socket(Some("unix:path=/a"), Some("/b".to_string())).unwrap(), "/a");
    assert_eq!(
        session_socket(None, None).err().unwrap().message(),
        "D-Bus 会话总线不可用：未设置 DBUS_SESSION_BUS_ADDRESS / XDG_RUNTIME_DIR，找不到会话总线"
    );
}

#[test]
fn saying_who_we_are() {
    assert_eq!(uid_of_status("Name:\tx\nUid:\t1000\t1000\nGid:\t5\n").unwrap(), 1000);
    assert_eq!(
        uid_of_status("Name:\tx\n").err().unwrap().message(),
        "D-Bus 会话总线不可用：无法从 /proc/self/status 确定 uid"
    );
    assert_eq!(auth_line(1000), "AUTH EXTERNAL 31303030\r\n");
    let mut line = String::new();
    for b in "OK 12\r".bytes() {
        assert!(!sasl_byte(&mut line, b));
    }
    assert!(sasl_byte(&mut line, b'\n'));
    assert_eq!(line, "OK 12");
    assert!(auth_accepted(&line).is_ok());
    assert_eq!(
        auth_accepted("REJECTED").err().unwrap().message(),
        "D-Bus 会话总线不可用：会话总线拒绝了认证：REJECTED"
    );
}

#[test]
fn names_of_a_request() {
    assert_eq!(
        request_path(":1.42", "guanqi_1_2"),
        "/org/freedesktop/portal/desktop/request/1_42/guanqi_1_2"
    );
    assert_eq!(
        response_match_rule("/p"),
        "type='signal',interface='org.freedesktop.portal.Request',member='Response',path='/p'"
    );
    assert_eq!(handle_token(12, 34), "guanqi_12_34");
    let token = handle_token(u32::MAX, 0);
    assert!(token.chars().all(|c| c.is_ascii_alphanumeric() || c == '_'));
}

#[test]
fn asking_for_a_dialog() {
    let b = open_body("打开", "t", None);
    assert_eq!(b.len(), 3);
    assert!(matches!(&b[0], Value::Str(s) if s.is_empty()));
    assert!(matches!(&b[1], Value::Str(s) if s == "打开"));
    assert_eq!(b[2].signature(), "a{sv}");
    let s = save_body("保存", "x.sgf", "t", None);
    let shown = format!("{:?}", s[2]);
    assert!(shown.contains("current_name") && shown.contains("x.sgf"));
    let mut c = Connection::new();
    let m = parse(&open_file_call(&mut c, "打开", "t", None).unwrap()).unwrap();
    assert_eq!(m.member, Some("OpenFile".to_string()));
    assert_eq!(format!("{:?}", m.body), format!("{:?}", b));
    let m = parse(&save_file_call(&mut c, "保存", "x.sgf", "t", Some("/é")).unwrap()).unwrap();
    assert_eq!(m.member, Some("SaveFile".to_string()));
    let shown = format!("{:?}", m.body[2]);
    assert!(shown.contains("current_folder"));
    assert!(shown.contains("Byte(47), Byte(195), Byte(169), Byte(0)"));
    assert!(!format!("{:?}", b[2]).contains("current_folder"));
    let m = parse(&close_request(&mut c, "/r").unwrap()).unwrap();
    assert_eq!((m.member, m.path), (Some("Close".to_string()), Some("/r".to_string())));
    let m = parse(&probe(&mut c).unwrap()).unwrap();
    assert_eq!(m.member, Some("Get".to_string()));
    assert_eq!(format!("{:?}", m.body), format!("{:?}", probe_body()));
}

#[test]
fn replies_of_the_portal() {
    assert_eq!(open_file_handle(&vec![Value::Path("/r".to_string())]).unwrap(), "/r");
    assert!(open_file_handle(&vec![text("/r")]).is_err());
    assert_eq!(probe_version(&vec![Value::Variant(Box::new(Value::U32(4)))]).unwrap(), 4);
    assert!(probe_version(&vec![]).is_err());
    assert!(probe_version(&vec![Value::Variant(Box::new(text("4")))]).is_err());
    let gone = PortalError::CallFailed {
        name: "org.freedesktop.DBus.Error.ServiceUnknown".to_string(),
        message: "no".to_string(),
    };
    assert!(matches!(probe_failed(gone), PortalError::NoPortal(_)));
    let other = PortalError::CallFailed { name: "x".to_string(), message: "no".to_string() };
    assert!(matches!(probe_failed(other), PortalError::CallFailed { .. }));
    assert!(matches!(probe_failed(PortalError::Timeout(3)), PortalError::Timeout(3)));
}

#[test]
fn chosen_files() {
    let uris = |u: &str| {
        vec![
            Value::U32(0),
            Value::Array {
                elem: "{sv}".to_string(),
                items: vec![entry(
                    "uris",
                    Value::Array { elem: "s".to_string(), items: vec![text(u)] },
                )],
            },
        ]
    };
    assert_eq!(
        decode_response(&uris("file:///home/a%20b/%E6%A3%8B.sgf")).unwrap(),
        Some("/home/a b/棋.sgf".to_string())
    );
    assert_eq!(decode_response(&vec![Value::U32(1)]).unwrap(), None);
    assert_eq!(
        decode_response(&vec![Value::U32(2)]).err().unwrap().message(),
        "portal 调用失败（org.freedesktop.portal.Request）：portal 对话框返回失败码 2"
    );
    assert!(decode_response(&vec![]).is_err());
    assert!(decode_response(&vec![Value::U32(0)]).is_err());
    assert!(decode_response(&uris("http://x/y")).is_err());
}

#[test]
fn percent_signs_and_addresses() {
    assert_eq!(percent_decode("a%2Fb"), Some("a/b".to_string()));
    assert_eq!(percent_decode("%E6%A3%8B"), Some("棋".to_string()));
    assert_eq!(percent_decode("%"), Some("%".to_string()));
    assert_eq!(percent_decode("%zz"), Some("%zz".to_string()));
    assert_eq!(percent_decode("%+f"), Some("\u{f}".to_string()));
    assert_eq!(percent_decode("%ff"), None);
    assert_eq!(uri_to_path("file:///a"), Some("/a".to_string()));
    assert_eq!(uri_to_path("file://host/a"), Some("/a".to_string()));
    assert_eq!(uri_to_path("/a"), None);
    assert_eq!(uri_to_path("file://host"), None);
}

fn waiting() -> (Request, Action) {
    let (r, a) = Request::start(":1.2", "t");
    assert!(matches!(a, Action::AddMatch(_)));
    let (r, a) = r.next(Event::Done);
    assert!(matches!(a, Action::OpenFile));
    let h = r.predicted.clone();
    r.next(Event::Handle(h))
}

#[test]
fn a_request_runs_its_course() {
    let (r, a) = waiting();
    assert!(matches!(a, Action::Wait(_)));
    let (r, a) = r.next(Event::Response(vec![Value::U32(1)]));
    assert!(matches!(a, Action::RemoveMatch(_)));
    let (r, a) = r.next(Event::Done);
    assert!(matches!(a, Action::Finish(Ok(None))));
    assert!(matches!(r.phase, Phase::Over));
}

#[test]
fn another_handle_is_subscribed_too() {
    let (r, _) = Request::start(":1.2", "t");
    let (r, _) = r.next(Event::Done);
    let (r, a) = r.next(Event::Handle("/other".to_string()));
    assert!(matches!(a, Action::AddMatch(rule) if rule == response_match_rule("/other")));
    let (r, a) = r.next(Event::Done);
    match a {
        Action::Wait(paths) => {
            assert_eq!(paths.len(), 2);
            assert!(paths.contains(&"/other".to_string()) && paths.contains(&r.predicted));
        }
        _ => panic!("no wait"),
    }
    let (r, a) = r.next(Event::Response(vec![Value::U32(1)]));
    assert!(matches!(a, Action::RemoveMatch(rule) if rule == response_match_rule("/other")));
    let (r, a) = r.next(Event::Done);
    assert!(matches!(a, Action::RemoveMatch(_)));
    let (_, a) = r.next(Event::Done);
    assert!(matches!(a, Action::Finish(Ok(None))));
}

#[test]
fn a_slow_dialog_is_closed() {
    let (r, _) = waiting();
    let h = r.predicted.clone();
    let (r, a) = r.next(Event::Failed(PortalError::Timeout(1)));
    assert!(matches!(a, Action::Close(x) if x == h));
    let (r, a) = r.next(Event::Done);
    assert!(matches!(a, Action::RemoveMatch(_)));
    let (_, a) = r.next(Event::Done);
    match a {
        Action::Finish(Err(e)) => {
            assert!(e.message().starts_with("等待用户选择超时（"));
        }
        _ => panic!("no end"),
    }
}

#[test]
fn a_failed_subscription_ends_it() {
    let (r, _) = Request::start(":1.2", "t");
    let (r, a) = r.next(Event::Failed(PortalError::Io("gone".to_string())));
    assert!(matches!(a, Action::Finish(Err(PortalError::Io(_)))));
    assert!(matches!(r.phase, Phase::Over));
}

#[test]
fn how_a_dialog_ended() {
    assert!(matches!(event_of(Ok(Some("/a".to_string()))), PortalEvent::Picked(p) if p == "/a"));
    assert!(matches!(event_of(Ok(None)), PortalEvent::Cancelled));
    assert!(matches!(event_of(Err(PortalError::Timeout(1))), PortalEvent::Failed(_)));
}

#[test]
fn portal_errors_have_their_words() {
    let m = |s: &str| s.to_string();
    assert_eq!(PortalError::NoDBus(m("a")).message(), "D-Bus 会话总线不可用：a");
    assert_eq!(PortalError::NoPortal(m("a")).message(), "portal 文件对话框服务不可用：a");
    assert_eq!(
        PortalError::Timeout(300).message(),
        "等待用户选择超时（300s），已尽力关闭对话框"
    );
    assert_eq!(PortalError::Protocol(m("a")).message(), "portal 协议异常：a");
    assert_eq!(PortalError::Io(m("a")).message(), "与 D-Bus 的通信失败：a");
}
