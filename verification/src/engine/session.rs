//! What is known of a running engine: which queries wait for an answer, until when, and whether
//! the engine is ready. The caller owns the process and the clock, sends the lines it is given and
//! hands in what it reads. Times are in milliseconds since the engine was started.

use vstd::prelude::*;
use std::collections::HashMap;
use super::json;
use super::protocol::{self, AnalysisQuery, ControlRequest, QueryId};
use super::record;
use super::report::{self, AnalysisReport, Incoming, IncomingView, ReportView};
use crate::board::Size;
use crate::text::{self, chars_of, push_decimal};

verus! {

broadcast use vstd::std_specs::hash::group_hash_axioms;

/// How long the engine may take to start.
pub const STARTUP_LIMIT: u64 = 90_000;

/// How many of its last lines are kept.
pub const TAIL_LINES: usize = 8;

/// The line that says that the engine is ready.
pub const READY_MARKER: &'static str = "Started, ready to begin handling requests";

/// How many seconds a query may take: two for each 60 visits and 15 more, from 30 to 600. A query
/// without a limit of visits gets 30.
pub open spec fn timeout_secs(visits: u32) -> u64 {
    if visits == u32::MAX || visits / 30 + 15 < 30 {
        30
    } else if visits / 30 + 15 > 600 {
        600
    } else {
        (visits / 30 + 15) as u64
    }
}

/// How many seconds a query may take.
pub fn query_timeout_secs(visits: u32) -> (r: u64)
    ensures
        r == timeout_secs(visits),
{
    if visits == u32::MAX {
        return 30;
    }
    let t = visits / 30 + 15;
    if t < 30 {
        30
    } else if t > 600 {
        600
    } else {
        t as u64
    }
}

// ---- errors ----

/// What can go wrong with the engine.
#[derive(Debug)]
pub enum EngineError {
    EngineNotFound(String),
    SpawnFailed(String),
    StdinWrite(String),
    ProcessGone,
    ModelNotConfigured,
    ModelMissing(String),
    Config(String),
    /// The engine was not ready after so many seconds.
    StartupTimeout(u64),
    /// A query was not answered after so many seconds.
    QueryTimeout { id: QueryId, elapsed: u64 },
    QueryRejected { id: Option<QueryId>, message: String },
    Protocol(String),
}

/// The model of [`EngineError`].
pub enum ErrorView {
    EngineNotFound(Seq<char>),
    SpawnFailed(Seq<char>),
    StdinWrite(Seq<char>),
    ProcessGone,
    ModelNotConfigured,
    ModelMissing(Seq<char>),
    Config(Seq<char>),
    StartupTimeout(u64),
    QueryTimeout { id: QueryId, elapsed: u64 },
    QueryRejected { id: Option<QueryId>, message: Seq<char> },
    Protocol(Seq<char>),
}

impl View for EngineError {
    type V = ErrorView;

    open spec fn view(&self) -> ErrorView {
        match *self {
            EngineError::EngineNotFound(s) => ErrorView::EngineNotFound(s@),
            EngineError::SpawnFailed(s) => ErrorView::SpawnFailed(s@),
            EngineError::StdinWrite(s) => ErrorView::StdinWrite(s@),
            EngineError::ProcessGone => ErrorView::ProcessGone,
            EngineError::ModelNotConfigured => ErrorView::ModelNotConfigured,
            EngineError::ModelMissing(s) => ErrorView::ModelMissing(s@),
            EngineError::Config(s) => ErrorView::Config(s@),
            EngineError::StartupTimeout(n) => ErrorView::StartupTimeout(n),
            EngineError::QueryTimeout { id, elapsed } => ErrorView::QueryTimeout { id, elapsed },
            EngineError::QueryRejected { id, message } => ErrorView::QueryRejected {
                id,
                message: message@,
            },
            EngineError::Protocol(s) => ErrorView::Protocol(s@),
        }
    }
}

impl ErrorView {
    /// The message shown to the user.
    pub open spec fn message(self) -> Seq<char> {
        match self {
            ErrorView::EngineNotFound(p) => "引擎可执行文件不存在："@ + p,
            ErrorView::SpawnFailed(e) => "启动引擎进程失败："@ + e,
            ErrorView::StdinWrite(e) => "向引擎写入查询失败："@ + e,
            ErrorView::ProcessGone => "引擎进程已退出"@,
            ErrorView::ModelNotConfigured => "尚未配置权重文件，请在设置中选择一个网络权重"@,
            ErrorView::ModelMissing(p) => "权重文件不存在："@ + p
                + "（可能已被移动或删除，请到设置中重新选择）"@,
            ErrorView::Config(m) => "引擎配置问题："@ + m,
            ErrorView::StartupTimeout(n) => "引擎在 "@ + text::decimal(n as nat)
                + "s 内未就绪，可能已卡死（如 OpenCL 调优异常）"@,
            ErrorView::QueryTimeout { id, elapsed } => "查询 #"@ + text::decimal(
                id.number() as nat,
            ) + " 超时（"@ + text::decimal(elapsed as nat) + "s 无终态）"@,
            ErrorView::QueryRejected { id: Some(id), message } => "查询 #"@ + text::decimal(
                id.number() as nat,
            ) + " 被拒绝："@ + message,
            ErrorView::QueryRejected { id: None, message } => "请求被拒绝："@ + message,
            ErrorView::Protocol(m) => "协议异常："@ + m,
        }
    }
}

fn two_parts(a: &str, b: &str) -> (r: String)
    ensures
        r@ == a@ + b@,
{
    let mut out = a.to_owned();
    out.append(b);
    out
}

impl EngineError {
    /// The message shown to the user.
    pub fn message(&self) -> (r: String)
        ensures
            r@ == self@.message(),
    {
        match self {
            EngineError::EngineNotFound(p) => two_parts("引擎可执行文件不存在：", p.as_str()),
            EngineError::SpawnFailed(e) => two_parts("启动引擎进程失败：", e.as_str()),
            EngineError::StdinWrite(e) => two_parts("向引擎写入查询失败：", e.as_str()),
            EngineError::ProcessGone => "引擎进程已退出".to_owned(),
            EngineError::ModelNotConfigured => {
                "尚未配置权重文件，请在设置中选择一个网络权重".to_owned()
            },
            EngineError::ModelMissing(p) => {
                let mut out = two_parts("权重文件不存在：", p.as_str());
                out.append("（可能已被移动或删除，请到设置中重新选择）");
                out
            },
            EngineError::Config(m) => two_parts("引擎配置问题：", m.as_str()),
            EngineError::StartupTimeout(n) => {
                let mut out = "引擎在 ".to_owned();
                push_decimal(&mut out, *n);
                out.append("s 内未就绪，可能已卡死（如 OpenCL 调优异常）");
                out
            },
            EngineError::QueryTimeout { id, elapsed } => {
                let mut out = "查询 #".to_owned();
                push_decimal(&mut out, id.raw());
                out.append(" 超时（");
                push_decimal(&mut out, *elapsed);
                out.append("s 无终态）");
                out
            },
            EngineError::QueryRejected { id, message } => match id {
                Some(id) => {
                    let mut out = "查询 #".to_owned();
                    push_decimal(&mut out, id.raw());
                    out.append(" 被拒绝：");
                    out.append(message.as_str());
                    out
                },
                None => two_parts("请求被拒绝：", message.as_str()),
            },
            EngineError::Protocol(m) => two_parts("协议异常：", m.as_str()),
        }
    }
}

// ---- events ----

/// What the user interface is told.
#[derive(Debug)]
pub enum EngineEvent {
    Ready,
    Report { id: QueryId, report: AnalysisReport, is_final: bool },
    Warning { id: Option<QueryId>, field: Option<String>, message: String },
    Log(String),
    Failed(EngineError),
}

/// The model of [`EngineEvent`].
pub enum EventView {
    Ready,
    Report { id: QueryId, report: ReportView, is_final: bool },
    Warning { id: Option<QueryId>, field: Option<Seq<char>>, message: Seq<char> },
    Log(Seq<char>),
    Failed(ErrorView),
}

impl View for EngineEvent {
    type V = EventView;

    open spec fn view(&self) -> EventView {
        match *self {
            EngineEvent::Ready => EventView::Ready,
            EngineEvent::Report { id, report, is_final } => EventView::Report {
                id,
                report: report@,
                is_final,
            },
            EngineEvent::Warning { id, field, message } => EventView::Warning {
                id,
                field: record::opt_text(field),
                message: message@,
            },
            EngineEvent::Log(s) => EventView::Log(s@),
            EngineEvent::Failed(e) => EventView::Failed(e@),
        }
    }
}

// ---- the engine ----

/// A query that waits for its answer.
#[derive(Clone, Copy, PartialEq, Eq, Structural, Debug)]
pub struct Pending {
    pub size: Size,
    /// When it has waited long enough.
    pub deadline: u64,
    /// How many seconds it may take.
    pub timeout: u32,
}

/// What is known of a running engine.
#[derive(Debug)]
pub struct Engine {
    pub(crate) next_id: u64,
    pub(crate) pending: HashMap<u64, Pending>,
    pub(crate) last_size: Option<Size>,
    pub(crate) ready_seen: bool,
    pub(crate) startup_timeout_emitted: bool,
    pub(crate) exit_reported: bool,
    pub(crate) stderr_tail: Vec<String>,
}

/// The model of [`Engine`].
#[verifier::ext_equal]
pub struct EngineView {
    /// The number of the next request.
    pub next_id: u64,
    /// The queries that wait, by number.
    pub pending: Map<u64, Pending>,
    /// The board of the last query.
    pub last_size: Option<Size>,
    pub ready_seen: bool,
    pub startup_timeout_emitted: bool,
    pub exit_reported: bool,
    /// The last lines of the engine's log.
    pub tail: Seq<Seq<char>>,
}

impl View for Engine {
    type V = EngineView;

    closed spec fn view(&self) -> EngineView {
        EngineView {
            next_id: self.next_id,
            pending: self.pending@,
            last_size: self.last_size,
            ready_seen: self.ready_seen,
            startup_timeout_emitted: self.startup_timeout_emitted,
            exit_reported: self.exit_reported,
            tail: json::texts(self.stderr_tail@),
        }
    }
}

/// Whether query `id` has waited long enough.
pub open spec fn overdue(pending: Map<u64, Pending>, id: u64, now: u64) -> bool {
    pending.contains_key(id) && pending[id].deadline <= now
}

/// Whether query `id` is the first that has waited long enough.
pub open spec fn first_overdue(pending: Map<u64, Pending>, id: u64, now: u64) -> bool {
    overdue(pending, id, now) && forall|k: u64| #[trigger] overdue(pending, k, now) ==> id <= k
}

/// Whether some query has waited long enough.
pub open spec fn any_overdue(pending: Map<u64, Pending>, now: u64) -> bool {
    exists|k: u64| #[trigger] overdue(pending, k, now)
}

/// The board that a report is about.
pub open spec fn report_size(e: EngineView, id: u64, usual: Size) -> Size {
    if e.pending.contains_key(id) {
        e.pending[id].size
    } else {
        match e.last_size {
            Some(s) => s,
            None => usual,
        }
    }
}

/// What is said of a refused request.
pub open spec fn rejection(message: Seq<char>) -> Seq<char> {
    if text::holds(message, "rules"@) {
        "查询被拒绝（规则串问题，请检查规则设置）："@ + message
    } else {
        message
    }
}

/// What a line of the engine comes to: the queries that wait afterwards, and the event.
pub open spec fn handled(e: EngineView, m: IncomingView) -> (Map<u64, Pending>, EventView) {
    match m {
        IncomingView::Report { id: None, report } => (
            e.pending,
            EventView::Log("收到无 id 的报告，已忽略"@),
        ),
        IncomingView::Report { id: Some(id), report } => {
            let is_final = !report.is_during_search;
            (
                if is_final {
                    e.pending.remove(id.number())
                } else {
                    e.pending
                },
                EventView::Report {
                    id,
                    report: report::report_on(
                        report_size(e, id.number(), Size::of(19)),
                        report,
                    ),
                    is_final,
                },
            )
        },
        IncomingView::Error { id, message, field } => (
            match id {
                Some(x) => e.pending.remove(x.number()),
                None => e.pending,
            },
            EventView::Failed(ErrorView::QueryRejected { id, message: rejection(message) }),
        ),
        IncomingView::Warning { id, field, message } => (
            e.pending,
            EventView::Warning { id, field, message },
        ),
        IncomingView::TerminateEcho { id, terminate_id } => (
            e.pending,
            EventView::Log(
                match terminate_id {
                    Some(t) => "引擎已确认终止查询 "@ + t,
                    None => "引擎已确认终止"@,
                },
            ),
        ),
        IncomingView::Version { id, version } => (
            e.pending,
            EventView::Log("引擎版本 "@ + version),
        ),
    }
}

/// The last lines with one more.
pub open spec fn tail_with(tail: Seq<Seq<char>>, line: Seq<char>) -> Seq<Seq<char>> {
    if tail.len() >= TAIL_LINES {
        tail.skip(tail.len() - TAIL_LINES + 1).push(line)
    } else {
        tail.push(line)
    }
}

impl Engine {
    /// An engine that was just started.
    pub fn new() -> (r: Self)
        ensures
            r@ == (EngineView {
                next_id: 1,
                pending: Map::empty(),
                last_size: None,
                ready_seen: false,
                startup_timeout_emitted: false,
                exit_reported: false,
                tail: Seq::empty(),
            }),
    {
        let r = Engine {
            next_id: 1,
            pending: HashMap::new(),
            last_size: None,
            ready_seen: false,
            startup_timeout_emitted: false,
            exit_reported: false,
            stderr_tail: Vec::new(),
        };
        assert(r@.tail =~= Seq::empty());
        assert(r@.pending =~= Map::empty());
        r
    }

    fn alloc_id(&mut self) -> (r: QueryId)
        requires
            old(self)@.next_id < u64::MAX,
        ensures
            r == QueryId::of(old(self)@.next_id),
            r.number() == old(self)@.next_id,
            final(self)@ == (EngineView {
                next_id: (old(self)@.next_id + 1) as u64,
                ..old(self)@
            }),
    {
        let id = QueryId::new(self.next_id);
        self.next_id = self.next_id + 1;
        id
    }

    /// Starts a query: its id and its line.
    pub fn analyze(&mut self, query: &AnalysisQuery, now: u64) -> (r: (QueryId, String))
        requires
            old(self)@.next_id < u64::MAX,
            now <= u64::MAX - 600_000,
            protocol::moves_fit(query@.moves, query@.board_size),
        ensures
            r.0.number() == old(self)@.next_id,
            r.1@ == protocol::query_line(
                query@,
                old(self)@.next_id,
                |s: Seq<char>| json::json_quoted(s),
            ),
            ({
                let timeout = timeout_secs(query@.max_visits.unwrap_or(u32::MAX));
                final(self)@ == (EngineView {
                    next_id: (old(self)@.next_id + 1) as u64,
                    last_size: Some(query@.board_size),
                    pending: old(self)@.pending.insert(
                        old(self)@.next_id,
                        Pending {
                            size: query@.board_size,
                            deadline: (now + 1000 * timeout) as u64,
                            timeout: timeout as u32,
                        },
                    ),
                    ..old(self)@
                })
            }),
    {
        let id = self.alloc_id();
        let visits = match query.max_visits {
            Some(n) => n,
            None => u32::MAX,
        };
        let timeout = query_timeout_secs(visits);
        self.last_size = Some(query.board_size);
        self.pending.insert(
            id.raw(),
            Pending {
                size: query.board_size,
                deadline: now + 1000 * timeout,
                timeout: timeout as u32,
            },
        );
        (id, query.encode(id))
    }

    /// Takes in that the line of a query could not be sent: it waits no longer.
    pub fn write_failed(&mut self, id: QueryId)
        ensures
            final(self)@ == (EngineView {
                pending: old(self)@.pending.remove(id.number()),
                ..old(self)@
            }),
    {
        self.pending.remove(&id.raw());
        assert(self@.pending =~= old(self)@.pending.remove(id.number()));
    }

    /// The line that ends a query.
    pub fn terminate(&mut self, id: QueryId) -> (r: String)
        requires
            old(self)@.next_id < u64::MAX,
        ensures
            r@ == ControlRequest::Terminate(id).line(old(self)@.next_id),
            final(self)@ == (EngineView {
                next_id: (old(self)@.next_id + 1) as u64,
                ..old(self)@
            }),
    {
        let own = self.alloc_id();
        ControlRequest::Terminate(id).encode(own)
    }

    /// The line that ends all queries.
    pub fn terminate_all(&mut self) -> (r: String)
        requires
            old(self)@.next_id < u64::MAX,
        ensures
            r@ == ControlRequest::TerminateAll.line(old(self)@.next_id),
            final(self)@ == (EngineView {
                next_id: (old(self)@.next_id + 1) as u64,
                ..old(self)@
            }),
    {
        let own = self.alloc_id();
        ControlRequest::TerminateAll.encode(own)
    }

    fn next_timed_out(&self, now: u64) -> (r: Option<u64>)
        ensures
            match r {
                Some(id) => first_overdue(self@.pending, id, now),
                None => !any_overdue(self@.pending, now),
            },
    {
        let ghost all = self.pending@;
        let mut best: Option<u64> = None;
        let ghost mut i: int = 0;
        let keys = self.pending.keys();
        let ghost ks = vstd::std_specs::iter::IteratorSpec::remaining(&keys).unref();
        for k in it: keys
            invariant
                all == self.pending@,
                it.seq().unref() == ks,
                ks.to_set() == all.dom(),
                i == it.index(),
                best matches Some(b) ==> overdue(all, b, now),
                forall|j: int|
                    0 <= j < i && overdue(all, #[trigger] ks[j], now) ==> best is Some && best->0
                        <= ks[j],
        {
            proof {
                assert(ks[i] == *k);
                assert(ks.to_set().contains(*k)) by {
                    assert(ks.contains(ks[i]));
                }
            }
            if let Some(p) = self.pending.get(k) {
                if p.deadline <= now {
                    let better = match best {
                        Some(b) => *k < b,
                        None => true,
                    };
                    if better {
                        best = Some(*k);
                    }
                }
            }
            proof {
                i = i + 1;
            }
        }
        proof {
            assert forall|x: u64| #[trigger] overdue(all, x, now) implies best is Some && best->0
                <= x by {
                assert(all.dom().contains(x));
                assert(ks.to_set().contains(x));
                let j = ks.index_of(x);
                assert(ks[j] == x);
            }
        }
        best
    }

    /// What has taken too long: the engine's start, once, and otherwise the first query that has
    /// waited long enough, which waits no longer. The line that ends it goes with it.
    pub fn poll(&mut self, now: u64) -> (r: Option<(EngineError, Option<String>)>)
        requires
            old(self)@.next_id < u64::MAX,
        ensures
            ({
                let e = old(self)@;
                if !e.ready_seen && !e.startup_timeout_emitted && now >= STARTUP_LIMIT {
                    &&& (r matches Some((x, None)) && x@ == ErrorView::StartupTimeout(90))
                    &&& final(self)@ == (EngineView { startup_timeout_emitted: true, ..e })
                } else if any_overdue(e.pending, now) {
                    &&& (r matches Some((x, Some(line))) && (x@ matches ErrorView::QueryTimeout {
                        id,
                        elapsed,
                    } && first_overdue(e.pending, id.number(), now) && elapsed
                        == e.pending[id.number()].timeout + (now - e.pending[id.number()].deadline
                        + 500) / 1000 && line@ == ControlRequest::Terminate(id).line(e.next_id)
                        && final(self)@ == (EngineView {
                        next_id: (e.next_id + 1) as u64,
                        pending: e.pending.remove(id.number()),
                        ..e
                    })))
                } else {
                    r is None && final(self)@ == e
                }
            }),
    {
        if !self.ready_seen && !self.startup_timeout_emitted && now >= STARTUP_LIMIT {
            self.startup_timeout_emitted = true;
            return Some((EngineError::StartupTimeout(90), None));
        }
        let n = match self.next_timed_out(now) {
            Some(n) => n,
            None => {
                return None;
            },
        };
        assert(overdue(self@.pending, n, now));
        let (timeout, deadline) = match self.pending.get(&n) {
            Some(p) => (p.timeout as u64, p.deadline),
            None => {
                assert(false);
                (0, now)
            },
        };
        self.pending.remove(&n);
        assert(self@.pending =~= old(self)@.pending.remove(n));
        let id = QueryId::new(n);
        let line = self.terminate(id);
        let over = now - deadline;
        let elapsed = timeout + over / 1000 + if over % 1000 >= 500 {
            1
        } else {
            0
        };
        Some((EngineError::QueryTimeout { id, elapsed }, Some(line)))
    }

    /// Takes in a line of the engine.
    pub fn handle_incoming(&mut self, incoming: Incoming) -> (r: EngineEvent)
        ensures
            r@ == handled(old(self)@, incoming@).1,
            final(self)@ == (EngineView {
                pending: handled(old(self)@, incoming@).0,
                ..old(self)@
            }),
    {
        match incoming {
            Incoming::Report { id, report } => {
                let id = match id {
                    Some(id) => id,
                    None => {
                        return EngineEvent::Log("收到无 id 的报告，已忽略".to_owned());
                    },
                };
                let is_final = report.is_final();
                let size = match self.pending.get(&id.raw()) {
                    Some(p) => p.size,
                    None => match self.last_size {
                        Some(s) => s,
                        None => Size::usual(),
                    },
                };
                if is_final {
                    self.pending.remove(&id.raw());
                    assert(self@.pending =~= old(self)@.pending.remove(id.number()));
                }
                EngineEvent::Report { id, report: report.decode(size), is_final }
            },
            Incoming::Error { id, message, field } => {
                if let Some(x) = id {
                    self.pending.remove(&x.raw());
                    assert(self@.pending =~= old(self)@.pending.remove(x.number()));
                }
                let message = if text::has(&chars_of(message.as_str()), "rules") {
                    two_parts(
                        "查询被拒绝（规则串问题，请检查规则设置）：",
                        message.as_str(),
                    )
                } else {
                    message
                };
                EngineEvent::Failed(EngineError::QueryRejected { id, message })
            },
            Incoming::Warning { id, field, message } => {
                EngineEvent::Warning { id, field, message }
            },
            Incoming::TerminateEcho { id, terminate_id } => EngineEvent::Log(
                match terminate_id {
                    Some(t) => two_parts("引擎已确认终止查询 ", t.as_str()),
                    None => "引擎已确认终止".to_owned(),
                },
            ),
            Incoming::Version { id, version } => EngineEvent::Log(
                two_parts("引擎版本 ", version.as_str()),
            ),
        }
    }

    /// Takes in that the engine is ready.
    pub fn on_ready(&mut self) -> (r: EngineEvent)
        ensures
            r@ == EventView::Ready,
            final(self)@ == (EngineView { ready_seen: true, ..old(self)@ }),
    {
        self.ready_seen = true;
        EngineEvent::Ready
    }

    /// Takes in a line of the engine's log.
    pub fn on_stderr(&mut self, line: String) -> (r: EngineEvent)
        ensures
            r@ == EventView::Log(line@),
            final(self)@ == (EngineView { tail: tail_with(old(self)@.tail, line@), ..old(self)@ }),
    {
        let ghost before = self.stderr_tail@;
        while self.stderr_tail.len() >= TAIL_LINES
            invariant
                self.stderr_tail@.len() <= before.len(),
                self.stderr_tail@ == before.skip(before.len() - self.stderr_tail@.len()),
                before.len() >= TAIL_LINES ==> self.stderr_tail@.len() >= TAIL_LINES - 1,
                before.len() < TAIL_LINES ==> self.stderr_tail@ == before,
                self@ == (EngineView { tail: json::texts(self.stderr_tail@), ..old(self)@ }),
            decreases self.stderr_tail@.len(),
        {
            let ghost here = self.stderr_tail@;
            let _ = self.stderr_tail.remove(0);
            assert(self.stderr_tail@ =~= here.skip(1));
            assert(self.stderr_tail@ =~= before.skip(before.len() - self.stderr_tail@.len()));
        }
        let ghost kept = self.stderr_tail@;
        self.stderr_tail.push(line.clone());
        proof {
            assert(json::texts(self.stderr_tail@) =~= json::texts(kept).push(line@));
            if before.len() >= TAIL_LINES {
                assert(kept =~= before.skip(before.len() - TAIL_LINES + 1));
                assert(json::texts(kept) =~= json::texts(before).skip(
                    before.len() - TAIL_LINES + 1,
                ));
            }
        }
        EngineEvent::Log(line)
    }

    /// Takes in that the engine is gone: once, its last lines are handed out, and no query waits
    /// any longer.
    pub fn on_exit(&mut self) -> (r: Option<Vec<String>>)
        ensures
            if old(self)@.exit_reported {
                r is None && final(self)@ == old(self)@
            } else {
                (r matches Some(v) && json::texts(v@) == old(self)@.tail) && final(self)@ == (
                EngineView {
                    exit_reported: true,
                    pending: Map::empty(),
                    tail: Seq::empty(),
                    ..old(self)@
                })
            },
    {
        if self.exit_reported {
            return None;
        }
        self.exit_reported = true;
        self.pending.clear();
        let mut tail: Vec<String> = Vec::new();
        std::mem::swap(&mut tail, &mut self.stderr_tail);
        assert(json::texts(self.stderr_tail@) =~= Seq::empty());
        assert(self@.pending =~= Map::empty());
        Some(tail)
    }
}

/// Whether a line of the engine's log says that it is ready.
pub fn is_ready_line(line: &str) -> (r: bool)
    ensures
        r == text::holds(line@, READY_MARKER@),
{
    text::has(&chars_of(line), READY_MARKER)
}

// ---- starting ----

/// The network that an engine is started with, or why none can be; `is_file` says whether there is
/// a file where the settings say.
pub fn model_to_run(model: Option<&str>, is_file: bool) -> (r: Result<String, EngineError>)
    ensures
        match (model, r) {
            (None, Err(e)) => e@ == ErrorView::ModelNotConfigured,
            (Some(m), Err(e)) => !is_file && e@ == ErrorView::ModelMissing(m@),
            (Some(m), Ok(x)) => is_file && x@ == m@,
            (None, Ok(_)) => false,
        },
{
    match model {
        None => Err(EngineError::ModelNotConfigured),
        Some(m) => if is_file {
            Ok(m.to_owned())
        } else {
            Err(EngineError::ModelMissing(m.to_owned()))
        },
    }
}

/// The arguments that an engine is started with.
pub fn engine_args(cfg_path: &str, model: &str) -> (r: Vec<String>)
    ensures
        json::texts(r@) == seq!["analysis"@, "-config"@, cfg_path@, "-model"@, model@],
{
    let r = vec![
        "analysis".to_owned(),
        "-config".to_owned(),
        cfg_path.to_owned(),
        "-model".to_owned(),
        model.to_owned(),
    ];
    assert(json::texts(r@) =~= seq!["analysis"@, "-config"@, cfg_path@, "-model"@, model@]);
    r
}

} // verus!
