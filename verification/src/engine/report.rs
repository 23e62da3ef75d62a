//! What the engine says: reports, errors, warnings and echoes.

use vstd::prelude::*;
use super::json::{self, check_json, open_json, Json, JsonView};
use super::protocol::QueryId;
use super::record::{
    self,
    open_record_of,
    read_opt_bool,
    read_opt_number,
    read_opt_numbers,
    read_opt_strings,
    read_opt_text,
    read_opt_whole,
    read_part,
};
use crate::board::{coord, Coord, Size, Stone};
use crate::text::{self, same_text};

verus! {

// ---- lines as they come ----

/// What a line says of a move; every part may be missing. Fractions are in the form in which
/// `serde_json` displays them, lists of fractions as they are written.
#[derive(Debug)]
pub struct WireMoveInfo {
    pub mv: Option<String>,
    pub pv: Option<Vec<String>>,
    pub winrate: Option<String>,
    pub score_lead: Option<String>,
    pub visits: Option<u64>,
    pub prior: Option<String>,
    pub order: Option<u32>,
    pub lcb: Option<String>,
    pub ownership: Option<String>,
}

/// The model of [`WireMoveInfo`].
#[verifier::ext_equal]
pub struct WireInfoView {
    pub mv: Option<Seq<char>>,
    pub pv: Option<Seq<Seq<char>>>,
    pub winrate: Option<Seq<char>>,
    pub score_lead: Option<Seq<char>>,
    pub visits: Option<u64>,
    pub prior: Option<Seq<char>>,
    pub order: Option<u32>,
    pub lcb: Option<Seq<char>>,
    pub ownership: Option<Seq<char>>,
}

impl View for WireMoveInfo {
    type V = WireInfoView;

    open spec fn view(&self) -> WireInfoView {
        WireInfoView {
            mv: record::opt_text(self.mv),
            pv: record::opt_texts(self.pv),
            winrate: record::opt_text(self.winrate),
            score_lead: record::opt_text(self.score_lead),
            visits: self.visits,
            prior: record::opt_text(self.prior),
            order: self.order,
            lcb: record::opt_text(self.lcb),
            ownership: record::opt_text(self.ownership),
        }
    }
}

/// What a line says of the position; every part may be missing.
#[derive(Debug)]
pub struct WireRootInfo {
    pub current_player: Option<String>,
    pub visits: Option<u64>,
    pub winrate: Option<String>,
    pub score_lead: Option<String>,
    pub score_stdev: Option<String>,
}

/// The model of [`WireRootInfo`].
#[verifier::ext_equal]
pub struct WireRootView {
    pub current_player: Option<Seq<char>>,
    pub visits: Option<u64>,
    pub winrate: Option<Seq<char>>,
    pub score_lead: Option<Seq<char>>,
    pub score_stdev: Option<Seq<char>>,
}

impl View for WireRootInfo {
    type V = WireRootView;

    open spec fn view(&self) -> WireRootView {
        WireRootView {
            current_player: record::opt_text(self.current_player),
            visits: self.visits,
            winrate: record::opt_text(self.winrate),
            score_lead: record::opt_text(self.score_lead),
            score_stdev: record::opt_text(self.score_stdev),
        }
    }
}

/// A line of the engine; every part may be missing.
#[derive(Debug)]
pub struct WireMessage {
    pub id: Option<String>,
    pub error: Option<String>,
    pub warning: Option<String>,
    pub field: Option<String>,
    pub action: Option<String>,
    pub terminate_id: Option<String>,
    pub version: Option<String>,
    pub turn_number: Option<u64>,
    pub is_during_search: Option<bool>,
    pub no_results: Option<bool>,
    pub move_infos: Option<Vec<WireMoveInfo>>,
    pub root_info: Option<WireRootInfo>,
    pub ownership: Option<String>,
    pub policy: Option<String>,
}

/// The model of [`WireMessage`].
#[verifier::ext_equal]
pub struct WireView {
    pub id: Option<Seq<char>>,
    pub error: Option<Seq<char>>,
    pub warning: Option<Seq<char>>,
    pub field: Option<Seq<char>>,
    pub action: Option<Seq<char>>,
    pub terminate_id: Option<Seq<char>>,
    pub version: Option<Seq<char>>,
    pub turn_number: Option<u64>,
    pub is_during_search: Option<bool>,
    pub no_results: Option<bool>,
    pub move_infos: Option<Seq<WireInfoView>>,
    pub root_info: Option<WireRootView>,
    pub ownership: Option<Seq<char>>,
    pub policy: Option<Seq<char>>,
}

/// The models of a list of moves.
pub open spec fn wire_infos(v: Seq<WireMoveInfo>) -> Seq<WireInfoView> {
    v.map_values(|x: WireMoveInfo| x@)
}

impl View for WireMessage {
    type V = WireView;

    open spec fn view(&self) -> WireView {
        WireView {
            id: record::opt_text(self.id),
            error: record::opt_text(self.error),
            warning: record::opt_text(self.warning),
            field: record::opt_text(self.field),
            action: record::opt_text(self.action),
            terminate_id: record::opt_text(self.terminate_id),
            version: record::opt_text(self.version),
            turn_number: self.turn_number,
            is_during_search: self.is_during_search,
            no_results: self.no_results,
            move_infos: match self.move_infos {
                Some(v) => Some(wire_infos(v@)),
                None => None,
            },
            root_info: match self.root_info {
                Some(x) => Some(x@),
                None => None,
            },
            ownership: record::opt_text(self.ownership),
            policy: record::opt_text(self.policy),
        }
    }
}

/// A number that fits, where there is one.
pub open spec fn opt_u64(n: Option<nat>) -> Option<u64> {
    match n {
        Some(x) => Some(x as u64),
        None => None,
    }
}

/// A number that fits, where there is one.
pub open spec fn opt_u32(n: Option<nat>) -> Option<u32> {
    match n {
        Some(x) => Some(x as u32),
        None => None,
    }
}

/// Whether something is said of a move twice.
pub open spec fn info_repeats(j: JsonView) -> bool {
    json::repeats(j, "move"@) || json::repeats(j, "pv"@) || json::repeats(j, "winrate"@)
        || json::repeats(j, "scoreLead"@) || json::repeats(j, "visits"@) || json::repeats(
        j,
        "prior"@,
    ) || json::repeats(j, "order"@) || json::repeats(j, "lcb"@) || json::repeats(j, "ownership"@)
}

fn info_repeated(j: &Json) -> (r: bool)
    ensures
        r == info_repeats(j@),
{
    j.has_twice("move") || j.has_twice("pv") || j.has_twice("winrate") || j.has_twice("scoreLead")
        || j.has_twice("visits") || j.has_twice("prior") || j.has_twice("order") || j.has_twice(
        "lcb",
    ) || j.has_twice("ownership")
}

/// What a value says of a move; `None` where a part is of the wrong kind or stands there twice.
pub open spec fn info_read(j: JsonView) -> Option<WireInfoView> {
    let mv = record::opt_text_part(j, 0, "move"@);
    let pv = record::opt_strings_part(j, 1, "pv"@);
    let winrate = record::opt_number_part(j, 2, "winrate"@);
    let score_lead = record::opt_number_part(j, 3, "scoreLead"@);
    let visits = record::opt_whole_part(j, 4, "visits"@, u64::MAX as nat);
    let prior = record::opt_number_part(j, 5, "prior"@);
    let order = record::opt_whole_part(j, 6, "order"@, u32::MAX as nat);
    let lcb = record::opt_number_part(j, 7, "lcb"@);
    let ownership = record::opt_numbers_part(j, 8, "ownership"@);
    if record::is_open_record(j, 9) && !info_repeats(j) && mv is Some && pv is Some && winrate is Some
        && score_lead is Some && visits is Some && prior is Some && order is Some && lcb is Some
        && ownership is Some {
        Some(
            WireInfoView {
                mv: mv->0,
                pv: pv->0,
                winrate: winrate->0,
                score_lead: score_lead->0,
                visits: opt_u64(visits->0),
                prior: prior->0,
                order: opt_u32(order->0),
                lcb: lcb->0,
                ownership: ownership->0,
            },
        )
    } else {
        None
    }
}

fn info_of(j: &Json) -> (r: Option<WireMoveInfo>)
    ensures
        match info_read(j@) {
            Some(v) => r matches Some(x) && x@ == v,
            None => r is None,
        },
{
    if !open_record_of(j, 9) || info_repeated(j) {
        return None;
    }
    match (
        read_opt_text(j, 0, "move"),
        read_opt_strings(j, 1, "pv"),
        read_opt_number(j, 2, "winrate"),
        read_opt_number(j, 3, "scoreLead"),
        read_opt_whole(j, 4, "visits", u64::MAX),
    ) {
        (Some(mv), Some(pv), Some(winrate), Some(score_lead), Some(visits)) => match (
            read_opt_number(j, 5, "prior"),
            read_opt_whole(j, 6, "order", u32::MAX as u64),
            read_opt_number(j, 7, "lcb"),
            read_opt_numbers(j, 8, "ownership"),
        ) {
            (Some(prior), Some(order), Some(lcb), Some(ownership)) => {
                let order = match order {
                    Some(n) => Some(n as u32),
                    None => None,
                };
                Some(
                    WireMoveInfo {
                        mv,
                        pv,
                        winrate,
                        score_lead,
                        visits,
                        prior,
                        order,
                        lcb,
                        ownership,
                    },
                )
            },
            _ => None,
        },
        _ => None,
    }
}

/// Whether something is said of the position twice.
pub open spec fn root_repeats(j: JsonView) -> bool {
    json::repeats(j, "currentPlayer"@) || json::repeats(j, "visits"@) || json::repeats(
        j,
        "winrate"@,
    ) || json::repeats(j, "scoreLead"@) || json::repeats(j, "scoreStdev"@)
}

fn root_repeated(j: &Json) -> (r: bool)
    ensures
        r == root_repeats(j@),
{
    j.has_twice("currentPlayer") || j.has_twice("visits") || j.has_twice("winrate")
        || j.has_twice("scoreLead") || j.has_twice("scoreStdev")
}

/// What a value says of the position; `None` where a part is of the wrong kind or stands there
/// twice.
pub open spec fn root_read(j: JsonView) -> Option<WireRootView> {
    let current_player = record::opt_text_part(j, 0, "currentPlayer"@);
    let visits = record::opt_whole_part(j, 1, "visits"@, u64::MAX as nat);
    let winrate = record::opt_number_part(j, 2, "winrate"@);
    let score_lead = record::opt_number_part(j, 3, "scoreLead"@);
    let score_stdev = record::opt_number_part(j, 4, "scoreStdev"@);
    if record::is_open_record(j, 5) && !root_repeats(j) && current_player is Some && visits is Some && winrate is Some
        && score_lead is Some && score_stdev is Some {
        Some(
            WireRootView {
                current_player: current_player->0,
                visits: opt_u64(visits->0),
                winrate: winrate->0,
                score_lead: score_lead->0,
                score_stdev: score_stdev->0,
            },
        )
    } else {
        None
    }
}

fn root_of(j: &Json) -> (r: Option<WireRootInfo>)
    ensures
        match root_read(j@) {
            Some(v) => r matches Some(x) && x@ == v,
            None => r is None,
        },
{
    if !open_record_of(j, 5) || root_repeated(j) {
        return None;
    }
    match (
        read_opt_text(j, 0, "currentPlayer"),
        read_opt_whole(j, 1, "visits", u64::MAX),
        read_opt_number(j, 2, "winrate"),
        read_opt_number(j, 3, "scoreLead"),
        read_opt_number(j, 4, "scoreStdev"),
    ) {
        (Some(current_player), Some(visits), Some(winrate), Some(score_lead), Some(score_stdev)) => Some(
            WireRootInfo { current_player, visits, winrate, score_lead, score_stdev },
        ),
        _ => None,
    }
}

/// The moves that a list of values describes; `None` where one does not.
pub open spec fn all_infos(items: Seq<Seq<char>>) -> Option<Seq<WireInfoView>>
    decreases items.len(),
{
    if items.len() == 0 {
        Some(Seq::empty())
    } else {
        match (all_infos(items.drop_last()), json::read(items.last())) {
            (Some(done), Some(v)) => match info_read(v) {
                Some(x) => Some(done.push(x)),
                None => None,
            },
            _ => None,
        }
    }
}

/// A list with something else than moves in front is none of moves.
proof fn lemma_infos_prefix(items: Seq<Seq<char>>, n: int)
    requires
        0 <= n <= items.len(),
        all_infos(items.take(n)) is None,
    ensures
        all_infos(items) is None,
    decreases items.len(),
{
    if n == items.len() {
        assert(items.take(n) =~= items);
    } else {
        assert(items.drop_last().take(n) =~= items.take(n));
        lemma_infos_prefix(items.drop_last(), n);
    }
}

fn infos_of(items: &Vec<String>) -> (r: Option<Vec<WireMoveInfo>>)
    ensures
        match all_infos(json::texts(items@)) {
            Some(s) => r matches Some(x) && wire_infos(x@) == s,
            None => r is None,
        },
{
    let ghost all = json::texts(items@);
    let mut out: Vec<WireMoveInfo> = Vec::new();
    let mut i: usize = 0;
    assert(all.take(0) =~= Seq::empty());
    assert(wire_infos(out@) =~= Seq::empty());
    while i < items.len()
        invariant
            i <= items@.len(),
            all == json::texts(items@),
            all_infos(all.take(i as int)) == Some(wire_infos(out@)),
        decreases items@.len() - i,
    {
        let ghost done = out@;
        proof {
            let t = all.take(i + 1);
            assert(t.drop_last() =~= all.take(i as int));
            assert(t.last() == items@[i as int]@);
        }
        let info = match open_json(items[i].as_str()) {
            Some(v) => info_of(&v),
            None => None,
        };
        match info {
            Some(x) => {
                out.push(x);
                assert(wire_infos(out@) =~= wire_infos(done).push(x@));
            },
            None => {
                proof {
                    assert(all_infos(all.take(i + 1)) is None);
                    lemma_infos_prefix(all, i + 1);
                }
                return None;
            },
        }
        i += 1;
    }
    assert(all.take(i as int) =~= all);
    Some(out)
}

/// The moves of a line, where there are any; `None` where they are of the wrong kind.
pub open spec fn infos_part(j: JsonView) -> Option<Option<Seq<WireInfoView>>> {
    match json::part(j, 10, "moveInfos"@) {
        None => Some(None),
        Some(raw) => match json::read(raw) {
            Some(JsonView::Null) => Some(None),
            Some(JsonView::Array(items)) => match all_infos(items) {
                Some(s) => Some(Some(s)),
                None => None,
            },
            _ => None,
        },
    }
}

fn read_infos(j: &Json) -> (r: Option<Option<Vec<WireMoveInfo>>>)
    ensures
        match infos_part(j@) {
            Some(None) => r matches Some(None),
            Some(Some(s)) => r matches Some(Some(x)) && wire_infos(x@) == s,
            None => r is None,
        },
{
    match read_part(j, 10, "moveInfos") {
        None => Some(None),
        Some(Some(Json::Null)) => Some(None),
        Some(Some(Json::Array(items))) => match infos_of(&items) {
            Some(v) => Some(Some(v)),
            None => None,
        },
        _ => None,
    }
}

/// The position of a line, where there is one; `None` where it is of the wrong kind.
pub open spec fn root_part(j: JsonView) -> Option<Option<WireRootView>> {
    match json::part(j, 11, "rootInfo"@) {
        None => Some(None),
        Some(raw) => match json::read(raw) {
            Some(JsonView::Null) => Some(None),
            Some(v) => match root_read(v) {
                Some(x) => Some(Some(x)),
                None => None,
            },
            None => None,
        },
    }
}

fn read_root(j: &Json) -> (r: Option<Option<WireRootInfo>>)
    ensures
        match root_part(j@) {
            Some(None) => r matches Some(None),
            Some(Some(v)) => r matches Some(Some(x)) && x@ == v,
            None => r is None,
        },
{
    match read_part(j, 11, "rootInfo") {
        None => Some(None),
        Some(Some(Json::Null)) => Some(None),
        Some(Some(v)) => match root_of(&v) {
            Some(x) => Some(Some(x)),
            None => None,
        },
        Some(None) => None,
    }
}

/// Whether a line says something twice.
pub open spec fn wire_repeats(j: JsonView) -> bool {
    json::repeats(j, "id"@) || json::repeats(j, "error"@) || json::repeats(j, "warning"@)
        || json::repeats(j, "field"@) || json::repeats(j, "action"@) || json::repeats(
        j,
        "terminateId"@,
    ) || json::repeats(j, "version"@) || json::repeats(j, "turnNumber"@) || json::repeats(
        j,
        "isDuringSearch"@,
    ) || json::repeats(j, "noResults"@) || json::repeats(j, "moveInfos"@) || json::repeats(
        j,
        "rootInfo"@,
    ) || json::repeats(j, "ownership"@) || json::repeats(j, "policy"@)
}

fn wire_repeated(j: &Json) -> (r: bool)
    ensures
        r == wire_repeats(j@),
{
    j.has_twice("id") || j.has_twice("error") || j.has_twice("warning") || j.has_twice("field")
        || j.has_twice("action") || j.has_twice("terminateId") || j.has_twice("version")
        || j.has_twice("turnNumber") || j.has_twice("isDuringSearch") || j.has_twice("noResults")
        || j.has_twice("moveInfos") || j.has_twice("rootInfo") || j.has_twice("ownership")
        || j.has_twice("policy")
}

/// The line that a value is; `None` where a part is of the wrong kind or stands there twice.
pub open spec fn wire_read(j: JsonView) -> Option<WireView> {
    let id = record::opt_text_part(j, 0, "id"@);
    let error = record::opt_text_part(j, 1, "error"@);
    let warning = record::opt_text_part(j, 2, "warning"@);
    let field = record::opt_text_part(j, 3, "field"@);
    let action = record::opt_text_part(j, 4, "action"@);
    let terminate_id = record::opt_text_part(j, 5, "terminateId"@);
    let version = record::opt_text_part(j, 6, "version"@);
    let turn_number = record::opt_whole_part(j, 7, "turnNumber"@, u64::MAX as nat);
    let is_during_search = record::opt_bool_part(j, 8, "isDuringSearch"@);
    let no_results = record::opt_bool_part(j, 9, "noResults"@);
    let ownership = record::opt_numbers_part(j, 12, "ownership"@);
    let policy = record::opt_numbers_part(j, 13, "policy"@);
    if record::is_open_record(j, 14) && !wire_repeats(j) && id is Some && error is Some && warning is Some
        && field is Some && action is Some && terminate_id is Some && version is Some
        && turn_number is Some && is_during_search is Some && no_results is Some && infos_part(
        j,
    ) is Some && root_part(j) is Some && ownership is Some && policy is Some {
        Some(
            WireView {
                id: id->0,
                error: error->0,
                warning: warning->0,
                field: field->0,
                action: action->0,
                terminate_id: terminate_id->0,
                version: version->0,
                turn_number: opt_u64(turn_number->0),
                is_during_search: is_during_search->0,
                no_results: no_results->0,
                move_infos: infos_part(j)->0,
                root_info: root_part(j)->0,
                ownership: ownership->0,
                policy: policy->0,
            },
        )
    } else {
        None
    }
}

/// The line that a value is; `None` where a part is of the wrong kind or stands there twice.
pub fn wire_of(j: &Json) -> (r: Option<WireMessage>)
    ensures
        match wire_read(j@) {
            Some(v) => r matches Some(x) && x@ == v,
            None => r is None,
        },
{
    if !open_record_of(j, 14) || wire_repeated(j) {
        return None;
    }
    let (id, error, warning, field) = match (
        read_opt_text(j, 0, "id"),
        read_opt_text(j, 1, "error"),
        read_opt_text(j, 2, "warning"),
        read_opt_text(j, 3, "field"),
    ) {
        (Some(a), Some(b), Some(c), Some(d)) => (a, b, c, d),
        _ => {
            return None;
        },
    };
    let (action, terminate_id, version) = match (
        read_opt_text(j, 4, "action"),
        read_opt_text(j, 5, "terminateId"),
        read_opt_text(j, 6, "version"),
    ) {
        (Some(a), Some(b), Some(c)) => (a, b, c),
        _ => {
            return None;
        },
    };
    let (turn_number, is_during_search, no_results) = match (
        read_opt_whole(j, 7, "turnNumber", u64::MAX),
        read_opt_bool(j, 8, "isDuringSearch"),
        read_opt_bool(j, 9, "noResults"),
    ) {
        (Some(a), Some(b), Some(c)) => (a, b, c),
        _ => {
            return None;
        },
    };
    let (move_infos, root_info) = match (read_infos(j), read_root(j)) {
        (Some(a), Some(b)) => (a, b),
        _ => {
            return None;
        },
    };
    match (read_opt_numbers(j, 12, "ownership"), read_opt_numbers(j, 13, "policy")) {
        (Some(ownership), Some(policy)) => Some(
            WireMessage {
                id,
                error,
                warning,
                field,
                action,
                terminate_id,
                version,
                turn_number,
                is_during_search,
                no_results,
                move_infos,
                root_info,
                ownership,
                policy,
            },
        ),
        _ => None,
    }
}

// ---- what a line means ----

/// What is known of a position. Chances and scores are Black's.
#[derive(Debug)]
pub struct RootInfo {
    pub current_player: Stone,
    pub visits: u64,
    pub winrate: String,
    pub score_lead: String,
    pub score_stdev: String,
}

/// The model of [`RootInfo`].
#[verifier::ext_equal]
pub struct RootView {
    pub current_player: Stone,
    pub visits: u64,
    pub winrate: Seq<char>,
    pub score_lead: Seq<char>,
    pub score_stdev: Seq<char>,
}

impl View for RootInfo {
    type V = RootView;

    open spec fn view(&self) -> RootView {
        RootView {
            current_player: self.current_player,
            visits: self.visits,
            winrate: self.winrate@,
            score_lead: self.score_lead@,
            score_stdev: self.score_stdev@,
        }
    }
}

/// What is known of a move, with points as the engine writes them.
#[derive(Debug)]
pub struct RawMoveInfo {
    pub mv: Option<String>,
    pub pv: Vec<String>,
    pub winrate: String,
    pub score_lead: String,
    pub visits: u64,
    pub prior: String,
    pub order: u32,
    pub lcb: String,
    pub ownership: Option<String>,
}

/// The model of [`RawMoveInfo`].
#[verifier::ext_equal]
pub struct RawInfoView {
    pub mv: Option<Seq<char>>,
    pub pv: Seq<Seq<char>>,
    pub winrate: Seq<char>,
    pub score_lead: Seq<char>,
    pub visits: u64,
    pub prior: Seq<char>,
    pub order: u32,
    pub lcb: Seq<char>,
    pub ownership: Option<Seq<char>>,
}

impl View for RawMoveInfo {
    type V = RawInfoView;

    open spec fn view(&self) -> RawInfoView {
        RawInfoView {
            mv: record::opt_text(self.mv),
            pv: json::texts(self.pv@),
            winrate: self.winrate@,
            score_lead: self.score_lead@,
            visits: self.visits,
            prior: self.prior@,
            order: self.order,
            lcb: self.lcb@,
            ownership: record::opt_text(self.ownership),
        }
    }
}

/// The models of a list of moves.
pub open spec fn raw_infos(v: Seq<RawMoveInfo>) -> Seq<RawInfoView> {
    v.map_values(|x: RawMoveInfo| x@)
}

/// A report, with points as the engine writes them.
#[derive(Debug)]
pub struct RawReport {
    pub turn_number: usize,
    pub is_during_search: bool,
    pub no_results: bool,
    pub root_info: Option<RootInfo>,
    pub move_infos: Vec<RawMoveInfo>,
    pub ownership: Option<String>,
    pub policy: Option<String>,
}

/// The model of [`RawReport`].
#[verifier::ext_equal]
pub struct RawView {
    pub turn_number: usize,
    pub is_during_search: bool,
    pub no_results: bool,
    pub root_info: Option<RootView>,
    pub move_infos: Seq<RawInfoView>,
    pub ownership: Option<Seq<char>>,
    pub policy: Option<Seq<char>>,
}

/// The model of an optional position.
pub open spec fn opt_root(r: Option<RootInfo>) -> Option<RootView> {
    match r {
        Some(x) => Some(x@),
        None => None,
    }
}

impl View for RawReport {
    type V = RawView;

    open spec fn view(&self) -> RawView {
        RawView {
            turn_number: self.turn_number,
            is_during_search: self.is_during_search,
            no_results: self.no_results,
            root_info: opt_root(self.root_info),
            move_infos: raw_infos(self.move_infos@),
            ownership: record::opt_text(self.ownership),
            policy: record::opt_text(self.policy),
        }
    }
}

/// A line of the engine, understood.
#[derive(Debug)]
pub enum Incoming {
    Report { id: Option<QueryId>, report: RawReport },
    /// The engine refused a request.
    Error { id: Option<QueryId>, message: String, field: Option<String> },
    /// The engine did not understand a field, and goes on with the request.
    Warning { id: Option<QueryId>, field: Option<String>, message: String },
    TerminateEcho { id: Option<QueryId>, terminate_id: Option<String> },
    Version { id: Option<QueryId>, version: String },
}

/// The model of [`Incoming`].
#[verifier::ext_equal]
pub enum IncomingView {
    Report { id: Option<QueryId>, report: RawView },
    Error { id: Option<QueryId>, message: Seq<char>, field: Option<Seq<char>> },
    Warning { id: Option<QueryId>, field: Option<Seq<char>>, message: Seq<char> },
    TerminateEcho { id: Option<QueryId>, terminate_id: Option<Seq<char>> },
    Version { id: Option<QueryId>, version: Seq<char> },
}

impl View for Incoming {
    type V = IncomingView;

    open spec fn view(&self) -> IncomingView {
        match *self {
            Incoming::Report { id, report } => IncomingView::Report { id, report: report@ },
            Incoming::Error { id, message, field } => IncomingView::Error {
                id,
                message: message@,
                field: record::opt_text(field),
            },
            Incoming::Warning { id, field, message } => IncomingView::Warning {
                id,
                field: record::opt_text(field),
                message: message@,
            },
            Incoming::TerminateEcho { id, terminate_id } => IncomingView::TerminateEcho {
                id,
                terminate_id: record::opt_text(terminate_id),
            },
            Incoming::Version { id, version } => IncomingView::Version { id, version: version@ },
        }
    }
}

/// The text that there is, or another one.
pub open spec fn text_or(s: Option<Seq<char>>, d: Seq<char>) -> Seq<char> {
    match s {
        Some(x) => x,
        None => d,
    }
}

/// The side that a letter names.
pub open spec fn side_named(s: Seq<char>) -> Option<Stone> {
    if s == "B"@ || s == "b"@ {
        Some(Stone::Black)
    } else if s == "W"@ || s == "w"@ {
        Some(Stone::White)
    } else {
        None
    }
}

/// The id that a text is, where there is one.
pub open spec fn id_read(s: Option<Seq<char>>) -> Option<QueryId> {
    match s {
        Some(x) => match text::parsed_unsigned(x, u64::MAX as nat) {
            Some(n) => Some(QueryId::of(n as u64)),
            None => None,
        },
        None => None,
    }
}

/// What is known of a position: nothing where it is not known who moves.
pub open spec fn root_known(r: Option<WireRootView>) -> Option<RootView> {
    match r {
        None => None,
        Some(x) => match x.current_player {
            None => None,
            Some(p) => match side_named(p) {
                None => None,
                Some(current_player) => Some(
                    RootView {
                        current_player,
                        visits: x.visits.unwrap_or(0),
                        winrate: text_or(x.winrate, "0.5"@),
                        score_lead: text_or(x.score_lead, "0.0"@),
                        score_stdev: text_or(x.score_stdev, "0.0"@),
                    },
                ),
            },
        },
    }
}

/// What is known of a move.
pub open spec fn info_known(x: WireInfoView) -> RawInfoView {
    RawInfoView {
        mv: x.mv,
        pv: match x.pv {
            Some(v) => v,
            None => Seq::empty(),
        },
        winrate: text_or(x.winrate, "0.5"@),
        score_lead: text_or(x.score_lead, "0.0"@),
        visits: x.visits.unwrap_or(0),
        prior: text_or(x.prior, "0.0"@),
        order: x.order.unwrap_or(u32::MAX),
        lcb: text_or(x.lcb, "0.0"@),
        ownership: x.ownership,
    }
}

/// The report that a line is.
pub open spec fn report_known(w: WireView) -> RawView {
    RawView {
        turn_number: match w.turn_number {
            Some(n) => if n <= usize::MAX {
                n as usize
            } else {
                usize::MAX
            },
            None => usize::MAX,
        },
        is_during_search: w.is_during_search.unwrap_or(false),
        no_results: w.no_results.unwrap_or(false),
        root_info: root_known(w.root_info),
        move_infos: match w.move_infos {
            Some(v) => v.map_values(|x: WireInfoView| info_known(x)),
            None => Seq::empty(),
        },
        ownership: w.ownership,
        policy: w.policy,
    }
}

/// What a line means: an error first of all, an echo, a warning, and a report if nothing else.
pub open spec fn incoming(w: WireView) -> IncomingView {
    let id = id_read(w.id);
    match (w.error, w.action, w.warning) {
        (Some(message), _, _) => IncomingView::Error { id, message, field: w.field },
        (None, Some(action), _) => if action == "query_version"@ {
            IncomingView::Version { id, version: text_or(w.version, Seq::empty()) }
        } else {
            IncomingView::TerminateEcho { id, terminate_id: w.terminate_id }
        },
        (None, None, Some(message)) => IncomingView::Warning { id, field: w.field, message },
        _ => IncomingView::Report { id, report: report_known(w) },
    }
}

fn or_text(s: Option<String>, d: &str) -> (r: String)
    ensures
        r@ == text_or(record::opt_text(s), d@),
{
    match s {
        Some(x) => x,
        None => d.to_owned(),
    }
}

fn stone_of(s: &str) -> (r: Option<Stone>)
    ensures
        r == side_named(s@),
{
    if same_text(s, "B") || same_text(s, "b") {
        Some(Stone::Black)
    } else if same_text(s, "W") || same_text(s, "w") {
        Some(Stone::White)
    } else {
        None
    }
}

fn known_root(r: Option<WireRootInfo>) -> (x: Option<RootInfo>)
    ensures
        opt_root(x) == root_known(
            match r {
                Some(w) => Some(w@),
                None => None,
            },
        ),
{
    let w = match r {
        Some(w) => w,
        None => {
            return None;
        },
    };
    let player = match &w.current_player {
        Some(p) => stone_of(p.as_str()),
        None => None,
    };
    match player {
        Some(current_player) => Some(
            RootInfo {
                current_player,
                visits: w.visits.unwrap_or(0),
                winrate: or_text(w.winrate, "0.5"),
                score_lead: or_text(w.score_lead, "0.0"),
                score_stdev: or_text(w.score_stdev, "0.0"),
            },
        ),
        None => None,
    }
}

fn known_info(w: WireMoveInfo) -> (x: RawMoveInfo)
    ensures
        x@ == info_known(w@),
{
    let pv = match w.pv {
        Some(v) => v,
        None => {
            let v: Vec<String> = Vec::new();
            assert(json::texts(v@) =~= Seq::empty());
            v
        },
    };
    RawMoveInfo {
        mv: w.mv,
        pv,
        winrate: or_text(w.winrate, "0.5"),
        score_lead: or_text(w.score_lead, "0.0"),
        visits: w.visits.unwrap_or(0),
        prior: or_text(w.prior, "0.0"),
        order: w.order.unwrap_or(u32::MAX),
        lcb: or_text(w.lcb, "0.0"),
        ownership: w.ownership,
    }
}

fn known_infos(v: Option<Vec<WireMoveInfo>>) -> (r: Vec<RawMoveInfo>)
    ensures
        raw_infos(r@) == match v {
            Some(x) => wire_infos(x@).map_values(|x: WireInfoView| info_known(x)),
            None => Seq::empty(),
        },
{
    let mut out: Vec<RawMoveInfo> = Vec::new();
    assert(raw_infos(out@) =~= Seq::empty());
    if let Some(list) = v {
        let mut list = list;
        let ghost f = |x: WireInfoView| info_known(x);
        let ghost all = wire_infos(list@).map_values(f);
        assert(raw_infos(out@) + all =~= all);
        while list.len() > 0
            invariant
                f == (|x: WireInfoView| info_known(x)),
                raw_infos(out@) + wire_infos(list@).map_values(f) == all,
            decreases list@.len(),
        {
            let ghost (done, before) = (out@, list@);
            let w = list.remove(0);
            let k = known_info(w);
            out.push(k);
            proof {
                assert(raw_infos(out@) =~= raw_infos(done).push(k@));
                assert(wire_infos(before).map_values(f) =~= seq![k@] + wire_infos(list@).map_values(
                    f,
                ));
                assert(raw_infos(out@) + wire_infos(list@).map_values(f) =~= raw_infos(done)
                    + wire_infos(before).map_values(f));
            }
        }
        assert(raw_infos(out@) =~= all);
    }
    out
}

impl WireMessage {
    /// What the line means.
    pub fn into_incoming(self) -> (r: Incoming)
        ensures
            r@ == incoming(self@),
    {
        let id = match &self.id {
            Some(s) => QueryId::parse(s.as_str()),
            None => None,
        };
        if let Some(message) = self.error {
            return Incoming::Error { id, message, field: self.field };
        }
        if let Some(action) = self.action {
            return if same_text(action.as_str(), "query_version") {
                let version = match self.version {
                    Some(v) => v,
                    None => {
                        let v = String::new();
                        assert(v@ =~= Seq::empty());
                        v
                    },
                };
                Incoming::Version { id, version }
            } else {
                Incoming::TerminateEcho { id, terminate_id: self.terminate_id }
            };
        }
        if let Some(message) = self.warning {
            return Incoming::Warning { id, field: self.field, message };
        }
        let turn_number = match self.turn_number {
            Some(n) => if n <= usize::MAX as u64 {
                n as usize
            } else {
                usize::MAX
            },
            None => usize::MAX,
        };
        let report = RawReport {
            turn_number,
            is_during_search: self.is_during_search.unwrap_or(false),
            no_results: self.no_results.unwrap_or(false),
            root_info: known_root(self.root_info),
            move_infos: known_infos(self.move_infos),
            ownership: self.ownership,
            policy: self.policy,
        };
        Incoming::Report { id, report }
    }
}

/// The line that a text is; `None` where a part is of the wrong kind.
pub open spec fn line_read(line: Seq<char>) -> Option<WireView> {
    match json::read(line) {
        Some(j) => wire_read(j),
        None => None,
    }
}

/// What is said of a line that makes no sense.
pub open spec fn bad_line(why: Seq<char>, line: Seq<char>) -> Seq<char> {
    "无法解析引擎输出行："@ + why + "; 原文: "@ + line
}

/// What a line means, or what is said of it where it makes no sense. Fields that are not known may
/// hold any JSON; a known one must be of its kind and stand there once. Where one does not, what is
/// said names neither the field nor its place.
pub fn parse_line(line: &str) -> (r: Result<Incoming, String>)
    ensures
        match json::json_fault(line@) {
            Some(e) => r matches Err(x) && x@ == bad_line(e, line@),
            None => match line_read(line@) {
                Some(w) => r matches Ok(x) && x@ == incoming(w),
                None => r matches Err(x) && x@ == bad_line("字段类型不符"@, line@),
            },
        },
{
    let why = match check_json(line) {
        Some(e) => e,
        None => {
            if let Some(j) = open_json(line) {
                if let Some(w) = wire_of(&j) {
                    return Ok(w.into_incoming());
                }
            }
            "字段类型不符".to_owned()
        },
    };
    let mut out = "无法解析引擎输出行：".to_owned();
    out.append(why.as_str());
    out.append("; 原文: ");
    out.append(line);
    Err(out)
}

// ---- reports for a board ----

/// What is known of a move. Chances and scores are Black's.
#[derive(Debug)]
pub struct MoveInfo {
    /// The point; `None` for a pass.
    pub mv: Option<Coord>,
    /// The moves that follow.
    pub pv: Vec<Option<Coord>>,
    pub winrate: String,
    pub score_lead: String,
    pub visits: u64,
    pub prior: String,
    pub order: u32,
    pub lcb: String,
    pub ownership: Option<String>,
}

/// The model of [`MoveInfo`].
#[verifier::ext_equal]
pub struct InfoView {
    pub mv: Option<Coord>,
    pub pv: Seq<Option<Coord>>,
    pub winrate: Seq<char>,
    pub score_lead: Seq<char>,
    pub visits: u64,
    pub prior: Seq<char>,
    pub order: u32,
    pub lcb: Seq<char>,
    pub ownership: Option<Seq<char>>,
}

impl View for MoveInfo {
    type V = InfoView;

    open spec fn view(&self) -> InfoView {
        InfoView {
            mv: self.mv,
            pv: self.pv@,
            winrate: self.winrate@,
            score_lead: self.score_lead@,
            visits: self.visits,
            prior: self.prior@,
            order: self.order,
            lcb: self.lcb@,
            ownership: record::opt_text(self.ownership),
        }
    }
}

/// The models of a list of moves.
pub open spec fn infos(v: Seq<MoveInfo>) -> Seq<InfoView> {
    v.map_values(|x: MoveInfo| x@)
}

/// A report on a position.
#[derive(Debug)]
pub struct AnalysisReport {
    pub turn_number: usize,
    /// Whether the search goes on.
    pub is_during_search: bool,
    /// Whether the report is empty.
    pub no_results: bool,
    pub root_info: Option<RootInfo>,
    pub move_infos: Vec<MoveInfo>,
    pub ownership: Option<String>,
    pub policy: Option<String>,
}

/// The model of [`AnalysisReport`].
#[verifier::ext_equal]
pub struct ReportView {
    pub turn_number: usize,
    pub is_during_search: bool,
    pub no_results: bool,
    pub root_info: Option<RootView>,
    pub move_infos: Seq<InfoView>,
    pub ownership: Option<Seq<char>>,
    pub policy: Option<Seq<char>>,
}

impl View for AnalysisReport {
    type V = ReportView;

    open spec fn view(&self) -> ReportView {
        ReportView {
            turn_number: self.turn_number,
            is_during_search: self.is_during_search,
            no_results: self.no_results,
            root_info: opt_root(self.root_info),
            move_infos: infos(self.move_infos@),
            ownership: record::opt_text(self.ownership),
            policy: record::opt_text(self.policy),
        }
    }
}

/// The point that a text names on the board; `None` for a pass and for anything else.
pub open spec fn point_named(size: Size, s: Seq<char>) -> Option<Coord> {
    match coord::parsed_gtp(size, s) {
        Ok(c) => Some(c),
        Err(_) => None,
    }
}

/// A move with its points found on the board.
pub open spec fn info_on(size: Size, x: RawInfoView) -> InfoView {
    InfoView {
        mv: match x.mv {
            Some(s) => point_named(size, s),
            None => None,
        },
        pv: x.pv.map_values(|s: Seq<char>| point_named(size, s)),
        winrate: x.winrate,
        score_lead: x.score_lead,
        visits: x.visits,
        prior: x.prior,
        order: x.order,
        lcb: x.lcb,
        ownership: x.ownership,
    }
}

/// A report with its points found on the board.
pub open spec fn report_on(size: Size, x: RawView) -> ReportView {
    ReportView {
        turn_number: x.turn_number,
        is_during_search: x.is_during_search,
        no_results: x.no_results,
        root_info: x.root_info,
        move_infos: x.move_infos.map_values(|i: RawInfoView| info_on(size, i)),
        ownership: x.ownership,
        policy: x.policy,
    }
}

fn coord_of(size: Size, s: &str) -> (r: Option<Coord>)
    ensures
        r == point_named(size, s@),
{
    match Coord::from_gtp(size, s) {
        Ok(c) => Some(c),
        Err(_) => None,
    }
}

fn decode_info(size: Size, x: RawMoveInfo) -> (r: MoveInfo)
    ensures
        r@ == info_on(size, x@),
{
    let mv = match &x.mv {
        Some(s) => coord_of(size, s.as_str()),
        None => None,
    };
    let ghost f = |s: Seq<char>| point_named(size, s);
    let ghost all = json::texts(x.pv@);
    let mut pv: Vec<Option<Coord>> = Vec::new();
    let mut i: usize = 0;
    while i < x.pv.len()
        invariant
            i <= x.pv@.len(),
            f == (|s: Seq<char>| point_named(size, s)),
            all == json::texts(x.pv@),
            pv@ == all.take(i as int).map_values(f),
        decreases x.pv@.len() - i,
    {
        assert(all[i as int] == x.pv@[i as int]@);
        pv.push(coord_of(size, x.pv[i].as_str()));
        i += 1;
        assert(pv@ =~= all.take(i as int).map_values(f));
    }
    assert(all.take(i as int) =~= all);
    MoveInfo {
        mv,
        pv,
        winrate: x.winrate,
        score_lead: x.score_lead,
        visits: x.visits,
        prior: x.prior,
        order: x.order,
        lcb: x.lcb,
        ownership: x.ownership,
    }
}

impl RawReport {
    /// Whether the search is over.
    pub fn is_final(&self) -> (r: bool)
        ensures
            r == !self@.is_during_search,
    {
        !self.is_during_search
    }

    /// The report with its points found on the board.
    pub fn decode(self, size: Size) -> (r: AnalysisReport)
        ensures
            r@ == report_on(size, self@),
    {
        let mut list = self.move_infos;
        let ghost f = |i: RawInfoView| info_on(size, i);
        let ghost all = raw_infos(list@).map_values(f);
        let mut out: Vec<MoveInfo> = Vec::new();
        assert(infos(out@) + all =~= all);
        while list.len() > 0
            invariant
                f == (|i: RawInfoView| info_on(size, i)),
                infos(out@) + raw_infos(list@).map_values(f) == all,
            decreases list@.len(),
        {
            let ghost (done, before) = (out@, list@);
            let x = decode_info(size, list.remove(0));
            out.push(x);
            proof {
                assert(infos(out@) =~= infos(done).push(x@));
                assert(raw_infos(before).map_values(f) =~= seq![x@] + raw_infos(list@).map_values(
                    f,
                ));
                assert(infos(out@) + raw_infos(list@).map_values(f) =~= infos(done) + raw_infos(
                    before,
                ).map_values(f));
            }
        }
        assert(infos(out@) =~= all);
        AnalysisReport {
            turn_number: self.turn_number,
            is_during_search: self.is_during_search,
            no_results: self.no_results,
            root_info: self.root_info,
            move_infos: out,
            ownership: self.ownership,
            policy: self.policy,
        }
    }
}

} // verus!
