//! The engine's protocol: one JSON object per line.
//!
//! Every request carries an id as text, and every answer says which request it answers. Fields that
//! are not known are ignored, and fields may be missing. Fractions are kept as the text that they
//! are written as.

use vstd::prelude::*;
use super::json::{self, quote_json};
use crate::board::{coord, Action, Size, Stone};
use crate::number;
use crate::text::{self, chars_of, parse_unsigned, push_decimal};

verus! {

// ---- ids ----

/// The id of a request.
#[derive(Clone, Copy, PartialEq, Eq, Structural, Hash, Debug, PartialOrd, Ord)]
pub struct QueryId(pub(crate) u64);

impl QueryId {
    /// The number.
    pub closed spec fn number(self) -> u64 {
        self.0
    }

    /// The id with a number.
    pub closed spec fn of(n: u64) -> QueryId {
        QueryId(n)
    }

    pub(crate) proof fn lemma_of(n: u64)
        ensures
            QueryId::of(n).number() == n,
    {
    }

    pub(crate) fn new(n: u64) -> (r: Self)
        ensures
            r == QueryId::of(n),
            r.number() == n,
    {
        QueryId(n)
    }

    pub(crate) fn raw(self) -> (r: u64)
        ensures
            r == self.number(),
    {
        self.0
    }

    /// The id that a text is.
    pub(crate) fn parse(s: &str) -> (r: Option<Self>)
        ensures
            match text::parsed_unsigned(s@, u64::MAX as nat) {
                Some(n) => r == Some(QueryId::of(n as u64)),
                None => r is None,
            },
    {
        match parse_unsigned(&chars_of(s), u64::MAX) {
            Some(n) => Some(QueryId(n)),
            None => None,
        }
    }

    /// The id as it is shown.
    pub fn display(self) -> (r: String)
        ensures
            r@ == "#"@ + text::decimal(self.number() as nat),
    {
        let mut out = "#".to_owned();
        push_decimal(&mut out, self.0);
        out
    }
}

// ---- queries ----

/// Which moves may be looked at: those that `allow` names, or all but those that `avoid` names.
#[derive(Debug)]
pub struct MoveRules {
    pub allow: Option<MoveRule>,
    pub avoid: Option<MoveRule>,
}

/// One such rule.
#[derive(Debug)]
pub struct MoveRule {
    /// Whose moves it is about.
    pub player: Stone,
    pub moves: Vec<String>,
    /// For how many moves it holds.
    pub until_depth: u32,
}

/// The model of [`MoveRule`].
#[verifier::ext_equal]
pub struct RuleView {
    pub player: Stone,
    pub moves: Seq<Seq<char>>,
    pub until_depth: u32,
}

impl View for MoveRule {
    type V = RuleView;

    open spec fn view(&self) -> RuleView {
        RuleView {
            player: self.player,
            moves: json::texts(self.moves@),
            until_depth: self.until_depth,
        }
    }
}

/// The model of an optional rule.
pub open spec fn opt_rule(r: Option<MoveRule>) -> Option<RuleView> {
    match r {
        Some(x) => Some(x@),
        None => None,
    }
}

impl MoveRules {
    /// Only the given moves may be looked at.
    pub fn allow(player: Stone, moves: Vec<String>) -> (r: Self)
        ensures
            opt_rule(r.allow) == Some(
                RuleView { player, moves: json::texts(moves@), until_depth: 1 },
            ),
            r.avoid is None,
    {
        MoveRules { allow: Some(MoveRule { player, moves, until_depth: 1 }), avoid: None }
    }

    /// The given moves may not be looked at.
    pub fn avoid(player: Stone, moves: Vec<String>) -> (r: Self)
        ensures
            r.allow is None,
            opt_rule(r.avoid) == Some(
                RuleView { player, moves: json::texts(moves@), until_depth: 1 },
            ),
    {
        MoveRules { allow: None, avoid: Some(MoveRule { player, moves, until_depth: 1 }) }
    }
}

/// A request for an analysis.
#[derive(Debug)]
pub struct AnalysisQuery {
    pub board_size: Size,
    /// The number as it is written.
    pub komi: String,
    /// A name that the engine knows.
    pub rules: String,
    /// The moves from the empty board on.
    pub moves: Vec<(Stone, Action)>,
    pub max_visits: Option<u32>,
    pub include_ownership: bool,
    pub include_policy: bool,
    pub include_moves_ownership: bool,
    /// How many seconds between reports while the search goes on, as it is written.
    pub report_during_search_every: Option<String>,
    /// The positions to look at; only the last one without them.
    pub analyze_turns: Option<Vec<usize>>,
    pub priority: i32,
    pub move_rules: Option<MoveRules>,
}

/// The model of [`AnalysisQuery`].
#[verifier::ext_equal]
pub struct QueryView {
    pub board_size: Size,
    pub komi: Seq<char>,
    pub rules: Seq<char>,
    pub moves: Seq<(Stone, Action)>,
    pub max_visits: Option<u32>,
    pub include_ownership: bool,
    pub include_policy: bool,
    pub include_moves_ownership: bool,
    pub report_during_search_every: Option<Seq<char>>,
    pub analyze_turns: Option<Seq<usize>>,
    pub priority: i32,
    pub allow: Option<RuleView>,
    pub avoid: Option<RuleView>,
}

impl View for AnalysisQuery {
    type V = QueryView;

    open spec fn view(&self) -> QueryView {
        QueryView {
            board_size: self.board_size,
            komi: self.komi@,
            rules: self.rules@,
            moves: self.moves@,
            max_visits: self.max_visits,
            include_ownership: self.include_ownership,
            include_policy: self.include_policy,
            include_moves_ownership: self.include_moves_ownership,
            report_during_search_every: match self.report_during_search_every {
                Some(s) => Some(s@),
                None => None,
            },
            analyze_turns: match self.analyze_turns {
                Some(v) => Some(v@),
                None => None,
            },
            priority: self.priority,
            allow: match self.move_rules {
                Some(m) => opt_rule(m.allow),
                None => None,
            },
            avoid: match self.move_rules {
                Some(m) => opt_rule(m.avoid),
                None => None,
            },
        }
    }
}

/// The letter of a side.
pub open spec fn side_tag(stone: Stone) -> Seq<char> {
    match stone {
        Stone::Black => "B"@,
        Stone::White => "W"@,
    }
}

/// A move as the engine writes it.
pub open spec fn action_text(action: Action, size: Size) -> Seq<char> {
    match action {
        Action::Place(c) => coord::gtp_text(c, size),
        Action::Pass => "pass"@,
    }
}

/// Every move can be written for the size.
pub open spec fn moves_fit(moves: Seq<(Stone, Action)>, size: Size) -> bool {
    forall|i: int|
        0 <= i < moves.len() ==> ((#[trigger] moves[i]).1 matches Action::Place(c) ==> c.row()
            <= size.side())
}

/// The first `n` moves in a row.
pub open spec fn moves_text(moves: Seq<(Stone, Action)>, size: Size, n: int) -> Seq<char>
    decreases n,
{
    if n <= 0 {
        Seq::empty()
    } else {
        moves_text(moves, size, n - 1) + (if n > 1 {
            ","@
        } else {
            Seq::empty()
        }) + "[\""@ + side_tag(moves[n - 1].0) + "\",\""@ + action_text(moves[n - 1].1, size) + "\"]"@
    }
}

/// The first `n` numbers in a row.
pub open spec fn numbers_text(v: Seq<usize>, n: int) -> Seq<char>
    decreases n,
{
    if n <= 0 {
        Seq::empty()
    } else {
        numbers_text(v, n - 1) + (if n > 1 {
            ","@
        } else {
            Seq::empty()
        }) + text::decimal(v[n - 1] as nat)
    }
}

/// The first `n` texts in a row, in quotes; `quoted` is what a text looks like in quotes.
pub open spec fn quoted_row(v: Seq<Seq<char>>, quoted: spec_fn(Seq<char>) -> Seq<char>, n: int) -> Seq<char>
    decreases n,
{
    if n <= 0 {
        Seq::empty()
    } else {
        quoted_row(v, quoted, n - 1) + (if n > 1 {
            ","@
        } else {
            Seq::empty()
        }) + quoted(v[n - 1])
    }
}

/// A whole number.
pub open spec fn signed_decimal(n: i32) -> Seq<char> {
    if n < 0 {
        "-"@ + text::decimal((-n) as nat)
    } else {
        text::decimal(n as nat)
    }
}

/// A rule as it is written.
pub open spec fn rule_text(r: RuleView, quoted: spec_fn(Seq<char>) -> Seq<char>) -> Seq<char> {
    "[{\"player\":\""@ + side_tag(r.player) + "\",\"moves\":["@ + quoted_row(
        r.moves,
        quoted,
        r.moves.len() as int,
    ) + "],\"untilDepth\":"@ + text::decimal(r.until_depth as nat) + "}]"@
}

/// A field that is written if it is set.
pub open spec fn flag_text(name: Seq<char>, set: bool) -> Seq<char> {
    if set {
        name
    } else {
        Seq::empty()
    }
}

/// The fields that every query has.
pub open spec fn query_head(q: QueryView, id: u64, quoted: spec_fn(Seq<char>) -> Seq<char>) -> Seq<char> {
    "{\"id\":\""@ + text::decimal(id as nat) + "\",\"moves\":["@ + moves_text(
        q.moves,
        q.board_size,
        q.moves.len() as int,
    ) + "],\"rules\":"@ + quoted(q.rules) + ",\"komi\":"@ + number::in_json(q.komi) + ",\"boardXSize\":"@
        + text::decimal(q.board_size.side()) + ",\"boardYSize\":"@ + text::decimal(
        q.board_size.side(),
    )
}

/// How far a query goes and what its reports hold, where it says so.
pub open spec fn query_limits(q: QueryView) -> Seq<char> {
    (match q.max_visits {
        Some(n) => ",\"maxVisits\":"@ + text::decimal(n as nat),
        None => Seq::empty(),
    }) + flag_text(",\"includeOwnership\":true"@, q.include_ownership) + flag_text(
        ",\"includePolicy\":true"@,
        q.include_policy,
    ) + flag_text(",\"includeMovesOwnership\":true"@, q.include_moves_ownership)
}

/// When a query reports, and on what, where it says so.
pub open spec fn query_turns(q: QueryView) -> Seq<char> {
    every_text(q.report_during_search_every) + turns_text(q.analyze_turns) + priority_text(
        q.priority,
    )
}

/// How often a query reports, where it says so.
pub open spec fn every_text(s: Option<Seq<char>>) -> Seq<char> {
    match s {
        Some(s) => ",\"reportDuringSearchEvery\":"@ + number::in_json(s),
        None => Seq::empty(),
    }
}

/// Which positions a query asks about, where it says so.
pub open spec fn turns_text(v: Option<Seq<usize>>) -> Seq<char> {
    match v {
        Some(v) => ",\"analyzeTurns\":["@ + numbers_text(v, v.len() as int) + "]"@,
        None => Seq::empty(),
    }
}

/// How urgent a query is, where it says so.
pub open spec fn priority_text(n: i32) -> Seq<char> {
    if n != 0 {
        ",\"priority\":"@ + signed_decimal(n)
    } else {
        Seq::empty()
    }
}

/// Which moves a query looks at, where it says so.
pub open spec fn query_moves(q: QueryView, quoted: spec_fn(Seq<char>) -> Seq<char>) -> Seq<char> {
    match (q.allow, q.avoid) {
        (Some(r), _) => ",\"allowMoves\":"@ + rule_text(r, quoted),
        (None, Some(r)) => ",\"avoidMoves\":"@ + rule_text(r, quoted),
        _ => Seq::empty(),
    }
}

/// The line of a query; `quoted` is what a text looks like in quotes.
pub open spec fn query_line(q: QueryView, id: u64, quoted: spec_fn(Seq<char>) -> Seq<char>) -> Seq<char> {
    query_head(q, id, quoted) + query_limits(q) + query_turns(q) + query_moves(q, quoted) + "}"@
}

fn tag(stone: Stone) -> (r: &'static str)
    ensures
        r@ == side_tag(stone),
{
    match stone {
        Stone::Black => "B",
        Stone::White => "W",
    }
}

fn action_gtp(action: Action, size: Size) -> (r: String)
    requires
        action matches Action::Place(c) ==> c.row() <= size.side(),
    ensures
        r@ == action_text(action, size),
{
    match action {
        Action::Place(c) => c.to_gtp(size),
        Action::Pass => "pass".to_owned(),
    }
}

fn push_moves(out: &mut String, moves: &Vec<(Stone, Action)>, size: Size)
    requires
        moves_fit(moves@, size),
    ensures
        final(out)@ == old(out)@ + moves_text(moves@, size, moves@.len() as int),
{
    let ghost before = out@;
    let mut i: usize = 0;
    assert(out@ =~= before + moves_text(moves@, size, 0));
    while i < moves.len()
        invariant
            i <= moves@.len(),
            moves_fit(moves@, size),
            out@ == before + moves_text(moves@, size, i as int),
        decreases moves@.len() - i,
    {
        if i > 0 {
            out.append(",");
        }
        let (stone, action) = moves[i];
        assert(moves@[i as int] == (stone, action));
        out.append("[\"");
        out.append(tag(stone));
        out.append("\",\"");
        out.append(action_gtp(action, size).as_str());
        out.append("\"]");
        i += 1;
        assert(out@ =~= before + moves_text(moves@, size, i as int));
    }
}

fn push_numbers(out: &mut String, v: &Vec<usize>)
    ensures
        final(out)@ == old(out)@ + numbers_text(v@, v@.len() as int),
{
    let ghost before = out@;
    let mut i: usize = 0;
    assert(out@ =~= before + numbers_text(v@, 0));
    while i < v.len()
        invariant
            i <= v@.len(),
            out@ == before + numbers_text(v@, i as int),
        decreases v@.len() - i,
    {
        if i > 0 {
            out.append(",");
        }
        push_decimal(out, v[i] as u64);
        i += 1;
        assert(out@ =~= before + numbers_text(v@, i as int));
    }
}

fn push_rule(out: &mut String, rule: &MoveRule)
    ensures
        final(out)@ == old(out)@ + rule_text(rule@, |s: Seq<char>| json::json_quoted(s)),
{
    let ghost quoted = |s: Seq<char>| json::json_quoted(s);
    let ghost start = out@;
    let ghost texts = json::texts(rule.moves@);
    out.append("[{\"player\":\"");
    out.append(tag(rule.player));
    out.append("\",\"moves\":[");
    let ghost before = out@;
    let mut i: usize = 0;
    assert(out@ =~= before + quoted_row(texts, quoted, 0));
    while i < rule.moves.len()
        invariant
            i <= rule.moves@.len(),
            texts == json::texts(rule.moves@),
            quoted == (|s: Seq<char>| json::json_quoted(s)),
            out@ == before + quoted_row(texts, quoted, i as int),
        decreases rule.moves@.len() - i,
    {
        if i > 0 {
            out.append(",");
        }
        assert(texts[i as int] == rule.moves@[i as int]@);
        out.append(quote_json(rule.moves[i].as_str()).as_str());
        i += 1;
        assert(out@ =~= before + quoted_row(texts, quoted, i as int));
    }
    out.append("],\"untilDepth\":");
    push_decimal(out, rule.until_depth as u64);
    out.append("}]");
    assert(out@ =~= start + rule_text(rule@, quoted));
}

fn push_every(out: &mut String, every: &Option<String>)
    ensures
        final(out)@ == old(out)@ + every_text(super::record::opt_text(*every)),
{
    let ghost before = out@;
    if let Some(s) = every {
        out.append(",\"reportDuringSearchEvery\":");
        out.append(number::json_number(s.as_str()).as_str());
    }
    assert(out@ =~= before + every_text(super::record::opt_text(*every)));
}

fn push_analyze(out: &mut String, turns: &Option<Vec<usize>>)
    ensures
        final(out)@ == old(out)@ + turns_text(
            match *turns {
                Some(v) => Some(v@),
                None => None,
            },
        ),
{
    let ghost before = out@;
    match turns {
        Some(v) => {
            out.append(",\"analyzeTurns\":[");
            push_numbers(out, v);
            out.append("]");
            assert(out@ =~= before + turns_text(Some(v@)));
        },
        None => {
            assert(out@ =~= before + turns_text(None));
        },
    }
}

fn push_priority(out: &mut String, n: i32)
    ensures
        final(out)@ == old(out)@ + priority_text(n),
{
    let ghost before = out@;
    if n != 0 {
        out.append(",\"priority\":");
        if n < 0 {
            out.append("-");
            push_decimal(out, (-(n as i64)) as u64);
        } else {
            push_decimal(out, n as u64);
        }
    }
    assert(out@ =~= before + priority_text(n));
}

impl AnalysisQuery {
    /// A query for the last position, with the usual komi and rules.
    pub fn new(board_size: Size, moves: Vec<(Stone, Action)>) -> (r: Self)
        ensures
            r@ == (QueryView {
                board_size,
                komi: "7.5"@,
                rules: "chinese"@,
                moves: moves@,
                max_visits: None,
                include_ownership: false,
                include_policy: false,
                include_moves_ownership: false,
                report_during_search_every: None,
                analyze_turns: None,
                priority: 0,
                allow: None,
                avoid: None,
            }),
    {
        AnalysisQuery {
            board_size,
            komi: "7.5".to_owned(),
            rules: "chinese".to_owned(),
            moves,
            max_visits: None,
            include_ownership: false,
            include_policy: false,
            include_moves_ownership: false,
            report_during_search_every: None,
            analyze_turns: None,
            priority: 0,
            move_rules: None,
        }
    }

    fn push_head(&self, out: &mut String, id: u64)
        requires
            moves_fit(self@.moves, self@.board_size),
        ensures
            final(out)@ == old(out)@ + query_head(
                self@,
                id,
                |s: Seq<char>| json::json_quoted(s),
            ),
    {
        let ghost before = out@;
        out.append("{\"id\":\"");
        push_decimal(out, id);
        out.append("\",\"moves\":[");
        push_moves(out, &self.moves, self.board_size);
        out.append("],\"rules\":");
        out.append(quote_json(self.rules.as_str()).as_str());
        out.append(",\"komi\":");
        out.append(number::json_number(self.komi.as_str()).as_str());
        out.append(",\"boardXSize\":");
        push_decimal(out, self.board_size.n() as u64);
        out.append(",\"boardYSize\":");
        push_decimal(out, self.board_size.n() as u64);
        assert(out@ =~= before + query_head(self@, id, |s: Seq<char>| json::json_quoted(s)));
    }

    fn push_limits(&self, out: &mut String)
        ensures
            final(out)@ == old(out)@ + query_limits(self@),
    {
        let ghost before = out@;
        if let Some(n) = self.max_visits {
            out.append(",\"maxVisits\":");
            push_decimal(out, n as u64);
        }
        if self.include_ownership {
            out.append(",\"includeOwnership\":true");
        }
        if self.include_policy {
            out.append(",\"includePolicy\":true");
        }
        if self.include_moves_ownership {
            out.append(",\"includeMovesOwnership\":true");
        }
        assert(out@ =~= before + query_limits(self@));
    }

    fn push_turns(&self, out: &mut String)
        ensures
            final(out)@ == old(out)@ + query_turns(self@),
    {
        let ghost before = out@;
        push_every(out, &self.report_during_search_every);
        push_analyze(out, &self.analyze_turns);
        push_priority(out, self.priority);
        assert(out@ =~= before + query_turns(self@));
    }

    fn push_rules(&self, out: &mut String)
        ensures
            final(out)@ == old(out)@ + query_moves(self@, |s: Seq<char>| json::json_quoted(s)),
    {
        let ghost before = out@;
        if let Some(rules) = &self.move_rules {
            match (&rules.allow, &rules.avoid) {
                (Some(r), _) => {
                    out.append(",\"allowMoves\":");
                    push_rule(out, r);
                },
                (None, Some(r)) => {
                    out.append(",\"avoidMoves\":");
                    push_rule(out, r);
                },
                _ => {},
            }
        }
        assert(out@ =~= before + query_moves(self@, |s: Seq<char>| json::json_quoted(s)));
    }

    /// The line of the query.
    pub fn encode(&self, id: QueryId) -> (r: String)
        requires
            moves_fit(self@.moves, self@.board_size),
        ensures
            r@ == query_line(self@, id.number(), |s: Seq<char>| json::json_quoted(s)),
    {
        let mut out = String::new();
        self.push_head(&mut out, id.raw());
        self.push_limits(&mut out);
        self.push_turns(&mut out);
        self.push_rules(&mut out);
        out.append("}");
        assert(out@ =~= query_line(self@, id.number(), |s: Seq<char>| json::json_quoted(s)));
        out
    }
}

impl AnalysisQuery {
    /// The line of the query under the number 0, to look at.
    pub fn debug_encode(&self) -> (r: String)
        requires
            moves_fit(self@.moves, self@.board_size),
        ensures
            r@ == query_line(self@, 0, |s: Seq<char>| json::json_quoted(s)),
    {
        self.encode(QueryId::new(0))
    }
}

/// A request that is no query.
#[derive(Debug)]
pub enum ControlRequest {
    Terminate(QueryId),
    TerminateAll,
    QueryVersion,
}

impl ControlRequest {
    /// The line of the request.
    pub open spec fn line(self, id: u64) -> Seq<char> {
        match self {
            ControlRequest::Terminate(target) => "{\"action\":\"terminate\",\"id\":\""@
                + text::decimal(id as nat) + "\",\"terminateId\":\""@ + text::decimal(
                target.number() as nat,
            ) + "\"}"@,
            ControlRequest::TerminateAll => "{\"action\":\"terminate_all\",\"id\":\""@
                + text::decimal(id as nat) + "\"}"@,
            ControlRequest::QueryVersion => "{\"action\":\"query_version\",\"id\":\""@
                + text::decimal(id as nat) + "\"}"@,
        }
    }

    /// The line of the request.
    pub fn encode(&self, id: QueryId) -> (r: String)
        ensures
            r@ == self.line(id.number()),
    {
        let mut out = String::new();
        match self {
            ControlRequest::Terminate(target) => {
                out.append("{\"action\":\"terminate\",\"id\":\"");
                push_decimal(&mut out, id.raw());
                out.append("\",\"terminateId\":\"");
                push_decimal(&mut out, target.raw());
            },
            ControlRequest::TerminateAll => {
                out.append("{\"action\":\"terminate_all\",\"id\":\"");
                push_decimal(&mut out, id.raw());
            },
            ControlRequest::QueryVersion => {
                out.append("{\"action\":\"query_version\",\"id\":\"");
                push_decimal(&mut out, id.raw());
            },
        }
        out.append("\"}");
        assert(out@ =~= self.line(id.number()));
        out
    }
}

} // verus!
