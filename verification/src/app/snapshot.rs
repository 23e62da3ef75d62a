//! The state of the window in one value, and its JSON text.

use vstd::prelude::*;
use super::names::{self, result_letter};
use super::prefs::{self, Toggles};
use super::GuanqiApp;
use crate::board::Stone;
use crate::engine::json::{self, quote_json};
use crate::number;
use crate::text::{self, decimal_text, push_decimal, push_wide};

verus! {

/// What the engine found last; the numbers as they are written.
#[derive(Debug)]
pub struct EngineReads {
    /// The number of moves to the position.
    pub turn: usize,
    /// Whether the search is over.
    pub is_final: bool,
    pub visits: u64,
    /// Black's chance.
    pub winrate: String,
    /// Black's lead.
    pub score_lead: String,
}

/// The model of [`EngineReads`].
#[verifier::ext_equal]
pub struct ReadsView {
    pub turn: usize,
    pub is_final: bool,
    pub visits: u64,
    pub winrate: Seq<char>,
    pub score_lead: Seq<char>,
}

impl View for EngineReads {
    type V = ReadsView;

    open spec fn view(&self) -> ReadsView {
        ReadsView {
            turn: self.turn,
            is_final: self.is_final,
            visits: self.visits,
            winrate: self.winrate@,
            score_lead: self.score_lead@,
        }
    }
}

/// The view of what the engine found last, if anything.
pub open spec fn opt_reads(r: Option<EngineReads>) -> Option<ReadsView> {
    match r {
        Some(x) => Some(x@),
        None => None,
    }
}

/// The state of the engine.
#[derive(Clone, Copy, PartialEq, Eq, Structural, Debug)]
pub enum EngineStatus {
    Unconfigured,
    Starting,
    Ready,
    Failed,
}

/// How far a scan of the game is.
#[derive(Clone, Copy, PartialEq, Eq, Structural, Debug)]
pub struct BatchProgress {
    /// Whether it looks at some positions more closely.
    pub deepening: bool,
    pub done: usize,
    pub total: usize,
    /// In nanoseconds.
    pub elapsed: u64,
}

/// What is known of the engine.
#[derive(Debug)]
pub struct EngineFacts {
    pub status: EngineStatus,
    pub reads: Option<EngineReads>,
    /// How many candidates there are.
    pub candidates: usize,
    pub transient_error: Option<String>,
    pub last_log: Option<String>,
    pub batch: Option<BatchProgress>,
    /// Whether candidates are shown.
    pub candidates_visible: bool,
}

/// The state of the window in one value. Times are in nanoseconds.
#[derive(Debug)]
pub struct StateSnapshot {
    pub source: Option<String>,
    pub size: usize,
    pub line_len: usize,
    pub cursor: usize,
    pub tree_moves: usize,
    pub dirty: bool,
    /// `unconfigured`, `starting`, `ready` or `failed`.
    pub engine_status: &'static str,
    pub engine_reads: Option<EngineReads>,
    pub candidates: usize,
    pub transient_error: Option<String>,
    pub last_log: Option<String>,
    pub play_mode: bool,
    /// `B` or `W`.
    pub human: &'static str,
    pub resigned: Option<&'static str>,
    pub timeout_loss: Option<&'static str>,
    pub play_finished: bool,
    /// Black's and White's main time; `None` without a limit.
    pub clock_main: (Option<u128>, Option<u128>),
    /// The time that Black and White have used.
    pub clock_total: (u64, u64),
    pub batch_progress: Option<BatchProgress>,
    /// `immediate`, `delayed` or `manual`.
    pub gating: &'static str,
    pub manual_revealed: bool,
    pub candidates_visible: bool,
    pub notices: Vec<String>,
    pub toggles: Toggles,
    /// The number as it is written.
    pub komi: String,
    /// What the window was told.
    pub viewport_commands: Vec<String>,
}

/// The word for the state of the engine.
pub open spec fn status_word(s: EngineStatus) -> Seq<char> {
    match s {
        EngineStatus::Unconfigured => "unconfigured"@,
        EngineStatus::Starting => "starting"@,
        EngineStatus::Ready => "ready"@,
        EngineStatus::Failed => "failed"@,
    }
}

/// The letter of a side, if there is one.
pub open spec fn opt_letter(s: Option<Stone>) -> Option<Seq<char>> {
    match s {
        Some(s) => Some(names::letter(s)),
        None => None,
    }
}

fn word_of_status(s: EngineStatus) -> (r: &'static str)
    ensures
        r@ == status_word(s),
{
    match s {
        EngineStatus::Unconfigured => "unconfigured",
        EngineStatus::Starting => "starting",
        EngineStatus::Ready => "ready",
        EngineStatus::Failed => "failed",
    }
}

fn letter_of(s: Option<Stone>) -> (r: Option<&'static str>)
    ensures
        super::menu::opt_lit(r) == opt_letter(s),
{
    match s {
        Some(s) => Some(result_letter(s)),
        None => None,
    }
}

impl GuanqiApp {
    /// The state of the window in one value.
    pub fn state_snapshot(&self, facts: EngineFacts, viewport_commands: Vec<String>) -> (r:
        StateSnapshot)
        requires
            self.wf(),
        ensures
            names::opt_text(r.source) == match self@.docs.active.meta {
                Some(m) => Some(m.source),
                None => None,
            },
            r.size == self@.docs.active.board.size.side(),
            crate::board::model::line_at(self@.docs.active.board.nodes, r.line_len as nat) is Some,
            crate::board::model::line_at(
                self@.docs.active.board.nodes,
                r.line_len as nat + 1,
            ) is None,
            r.cursor == self@.docs.active.board.here().depth,
            r.tree_moves == self@.docs.active.board.nodes.len() - 1,
            r.dirty == self@.docs.dirty,
            r.engine_status@ == status_word(facts.status),
            r.engine_reads == facts.reads,
            r.candidates == facts.candidates,
            r.transient_error == facts.transient_error,
            r.last_log == facts.last_log,
            r.play_mode == self@.table.play.mode,
            r.human@ == names::letter(self@.table.play.human),
            super::menu::opt_lit(r.resigned) == opt_letter(self@.table.play.resigned),
            super::menu::opt_lit(r.timeout_loss) == opt_letter(self@.table.play.timeout_loss),
            r.play_finished == self@.finished(),
            r.clock_main == (
                self@.table.play.clock.black.main,
                self@.table.play.clock.white.main,
            ),
            r.clock_total == (
                self@.table.play.clock.black_total,
                self@.table.play.clock.white_total,
            ),
            r.batch_progress == facts.batch,
            r.gating@ == prefs::gating_word(self@.panels.gating),
            r.manual_revealed == self@.marks.revealed,
            r.candidates_visible == facts.candidates_visible,
            r.notices@.len() == self@.notices.list.len(),
            forall|i: int|
                0 <= i < r.notices@.len() ==> (#[trigger] r.notices@[i])@
                    == self@.notices.list[i].words(),
            r.toggles == (Toggles {
                show_candidates: self@.panels.overlay.show_candidates,
                show_heat: self@.panels.overlay.show_heat,
                show_policy: self@.panels.overlay.show_policy,
                show_moves_heat: self@.panels.overlay.show_moves_heat,
                show_mistakes: self@.panels.overlay.show_mistakes,
                show_score_lead: self@.panels.overlay.show_score_lead,
                show_mini_board: self@.panels.overlay.show_mini_board,
                curve_open: self@.panels.curve_open,
                tree_open: self@.panels.tree_open,
                settings_open: self@.panels.settings_open,
                new_game_open: self@.panels.new_game_open,
            }),
            r.komi@ == self@.table.komi,
            r.viewport_commands == viewport_commands,
    {
        let board = &self.docs.active.board;
        StateSnapshot {
            source: match &self.docs.active.meta {
                Some(m) => Some(m.source().to_owned()),
                None => None,
            },
            size: board.size().n() as usize,
            line_len: board.line_len(),
            cursor: board.cursor(),
            tree_moves: board.move_count(),
            dirty: self.docs.dirty,
            engine_status: word_of_status(facts.status),
            engine_reads: facts.reads,
            candidates: facts.candidates,
            transient_error: facts.transient_error,
            last_log: facts.last_log,
            play_mode: self.table.play.mode,
            human: result_letter(self.table.play.human),
            resigned: letter_of(self.table.play.resigned),
            timeout_loss: letter_of(self.table.play.timeout_loss),
            play_finished: self.finished(),
            clock_main: (self.table.play.clock.black.main, self.table.play.clock.white.main),
            clock_total: (
                self.table.play.clock.black_total,
                self.table.play.clock.white_total,
            ),
            batch_progress: facts.batch,
            gating: prefs::word_of_gating(self.panels.gating),
            manual_revealed: self.marks.revealed,
            candidates_visible: facts.candidates_visible,
            notices: self.notices.texts(),
            toggles: self.panels.toggles(),
            komi: self.table.komi.clone(),
            viewport_commands,
        }
    }
}

// ---- JSON ----

/// A truth value.
#[verifier::opaque]
pub open spec fn bool_text(b: bool) -> Seq<char> {
    if b {
        "true"@
    } else {
        "false"@
    }
}

/// A text in quotes, or nothing.
pub open spec fn opt_quoted(s: Option<Seq<char>>) -> Seq<char> {
    match s {
        Some(s) => json::json_quoted(s),
        None => "null"@,
    }
}

/// Nine digits of a fraction without the zeros at the end, but one digit at least.
pub open spec fn fraction(s: Seq<char>) -> Seq<char>
    decreases s.len(),
{
    if s.len() > 1 && s.last() == '0' {
        fraction(s.drop_last())
    } else {
        s
    }
}

/// A number below a thousand million in nine digits.
pub open spec fn nine_digits(n: nat) -> Seq<char> {
    text::decimal(1_000_000_000 + n).skip(1)
}

/// A time in seconds.
pub open spec fn seconds_text(t: u128) -> Seq<char> {
    text::decimal((t / 1_000_000_000) as nat) + "."@ + fraction(
        nine_digits((t % 1_000_000_000) as nat),
    )
}

/// A time in seconds, or nothing.
pub open spec fn opt_seconds(t: Option<u128>) -> Seq<char> {
    match t {
        Some(t) => seconds_text(t),
        None => "null"@,
    }
}

/// Texts in quotes, with commas between.
pub open spec fn quoted_list(v: Seq<Seq<char>>) -> Seq<char>
    decreases v.len(),
{
    if v.len() == 0 {
        Seq::empty()
    } else if v.len() == 1 {
        json::json_quoted(v[0])
    } else {
        quoted_list(v.drop_last()) + ","@ + json::json_quoted(v.last())
    }
}

/// How far a scan is.
pub open spec fn batch_text(b: Option<BatchProgress>) -> Seq<char> {
    match b {
        Some(b) => "{\"deepening\":"@ + bool_text(b.deepening) + ",\"done\":"@ + text::decimal(
            b.done as nat,
        ) + ",\"elapsed_secs\":"@ + seconds_text(b.elapsed as u128) + ",\"total\":"@ + text::decimal(
            b.total as nat,
        ) + "}"@,
        None => "null"@,
    }
}

/// What the engine found last.
pub open spec fn reads_text(r: Option<ReadsView>) -> Seq<char> {
    match r {
        Some(r) => "{\"is_final\":"@ + bool_text(r.is_final) + ",\"score_lead\":"@ + r.score_lead
            + ",\"turn\":"@ + text::decimal(r.turn as nat) + ",\"visits\":"@ + text::decimal(
            r.visits as nat,
        ) + ",\"winrate\":"@ + r.winrate + "}"@,
        None => "null"@,
    }
}

/// The first of what is shown.
pub open spec fn toggles_head(t: Toggles) -> Seq<char> {
    "{\"curve_open\":"@ + bool_text(t.curve_open) + ",\"new_game_open\":"@
        + bool_text(t.new_game_open) + ",\"settings_open\":"@ + bool_text(t.settings_open)
        + ",\"show_candidates\":"@ + bool_text(t.show_candidates) + ",\"show_heat\":"@
        + bool_text(t.show_heat) + ",\"show_mini_board\":"@ + bool_text(t.show_mini_board)
}

/// What is shown.
pub open spec fn toggles_text(t: Toggles) -> Seq<char> {
    toggles_head(t) + ",\"show_mistakes\":"@ + bool_text(t.show_mistakes)
        + ",\"show_moves_heat\":"@ + bool_text(t.show_moves_heat) + ",\"show_policy\":"@
        + bool_text(t.show_policy) + ",\"show_score_lead\":"@ + bool_text(t.show_score_lead)
        + ",\"tree_open\":"@ + bool_text(t.tree_open) + "}"@
}

impl StateSnapshot {
    /// The first part of the JSON text.
    pub open spec fn json_1(self) -> Seq<char> {
        "{\"batch_progress\":"@ + batch_text(self.batch_progress) + ",\"candidates\":"@
            + text::decimal(self.candidates as nat) + ",\"candidates_visible\":"@ + bool_text(
            self.candidates_visible,
        ) + ",\"clock_main\":["@ + opt_seconds(self.clock_main.0) + ","@ + opt_seconds(
            self.clock_main.1,
        ) + "],\"clock_total\":["@ + seconds_text(self.clock_total.0 as u128) + ","@ + seconds_text(
            self.clock_total.1 as u128,
        ) + "]"@
    }

    /// The second part.
    pub open spec fn json_2(self) -> Seq<char> {
        ",\"cursor\":"@ + text::decimal(self.cursor as nat) + ",\"dirty\":"@ + bool_text(self.dirty)
            + ",\"engine_reads\":"@ + reads_text(opt_reads(self.engine_reads))
            + ",\"engine_status\":"@ + json::json_quoted(self.engine_status@) + ",\"gating\":"@
            + json::json_quoted(self.gating@) + ",\"human\":"@ + json::json_quoted(self.human@)
    }

    /// The third part.
    pub open spec fn json_3(self) -> Seq<char> {
        ",\"komi\":"@ + number::in_json(self.komi@) + ",\"last_log\":"@ + opt_quoted(names::opt_text(self.last_log))
            + ",\"line_len\":"@ + text::decimal(self.line_len as nat) + ",\"manual_revealed\":"@
            + bool_text(self.manual_revealed) + ",\"notices\":["@ + quoted_list(
            super::texts(self.notices@),
        ) + "]"@
    }

    /// The fourth part.
    pub open spec fn json_4(self) -> Seq<char> {
        ",\"play_finished\":"@ + bool_text(self.play_finished) + ",\"play_mode\":"@ + bool_text(
            self.play_mode,
        ) + ",\"resigned\":"@ + opt_quoted(super::menu::opt_lit(self.resigned)) + ",\"size\":"@
            + text::decimal(self.size as nat) + ",\"source\":"@ + opt_quoted(
            names::opt_text(self.source),
        )
    }

    /// The last part.
    pub open spec fn json_5(self) -> Seq<char> {
        ",\"timeout_loss\":"@ + opt_quoted(super::menu::opt_lit(self.timeout_loss))
            + ",\"toggles\":"@ + toggles_text(self.toggles) + ",\"transient_error\":"@ + opt_quoted(
            names::opt_text(self.transient_error),
        ) + ",\"tree_moves\":"@ + text::decimal(self.tree_moves as nat)
            + ",\"viewport_commands\":["@ + quoted_list(super::texts(self.viewport_commands@))
            + "]}"@
    }
}

fn push_bool(out: &mut String, b: bool)
    ensures
        final(out)@ == old(out)@ + bool_text(b),
{
    reveal(bool_text);
    if b {
        out.append("true");
    } else {
        out.append("false");
    }
}

fn push_quoted(out: &mut String, s: &str)
    ensures
        final(out)@ == old(out)@ + json::json_quoted(s@),
{
    out.append(quote_json(s).as_str());
}

fn push_opt(out: &mut String, s: &Option<String>)
    ensures
        final(out)@ == old(out)@ + opt_quoted(names::opt_text(*s)),
{
    match s {
        Some(s) => {
            push_quoted(out, s.as_str());
        },
        None => {
            out.append("null");
        },
    }
}

fn push_opt_lit(out: &mut String, s: Option<&'static str>)
    ensures
        final(out)@ == old(out)@ + opt_quoted(super::menu::opt_lit(s)),
{
    match s {
        Some(s) => {
            push_quoted(out, s);
        },
        None => {
            out.append("null");
        },
    }
}

fn cut_zeros(s: &Vec<char>) -> (r: Vec<char>)
    ensures
        r@ == fraction(s@),
{
    let mut n = s.len();
    assert(s@.take(n as int) =~= s@);
    while n > 1 && s[n - 1] == '0'
        invariant
            n <= s@.len(),
            fraction(s@.take(n as int)) == fraction(s@),
        decreases n,
    {
        assert(s@.take(n as int).drop_last() =~= s@.take(n - 1));
        assert(s@.take(n as int).last() == s@[n - 1]);
        n -= 1;
    }
    assert(n > 1 ==> s@.take(n as int).last() == s@[n - 1]);
    let r = text::slice_chars(s, 0, n);
    assert(r@ =~= s@.take(n as int));
    r
}

fn push_seconds(out: &mut String, t: u128)
    ensures
        final(out)@ == old(out)@ + seconds_text(t),
{
    let ghost before = out@;
    push_wide(out, t / 1_000_000_000);
    out.append(".");
    let all = text::chars_of(decimal_text(1_000_000_000 + (t % 1_000_000_000) as u64).as_str());
    proof {
        text::lemma_decimal_digits((1_000_000_000 + t % 1_000_000_000) as nat);
    }
    let nine = text::slice_chars(&all, 1, all.len());
    assert(nine@ =~= nine_digits((t % 1_000_000_000) as nat));
    out.append(text::string_of(&cut_zeros(&nine)).as_str());
    assert(out@ =~= before + seconds_text(t));
}

fn push_opt_seconds(out: &mut String, t: Option<u128>)
    ensures
        final(out)@ == old(out)@ + opt_seconds(t),
{
    match t {
        Some(t) => {
            push_seconds(out, t);
        },
        None => {
            out.append("null");
        },
    }
}

fn push_list(out: &mut String, v: &Vec<String>)
    ensures
        final(out)@ == old(out)@ + quoted_list(super::texts(v@)),
{
    let ghost before = out@;
    let ghost all = super::texts(v@);
    let mut i: usize = 0;
    assert(all.take(0).len() == 0);
    assert(out@ =~= before + quoted_list(all.take(0)));
    while i < v.len()
        invariant
            i <= v@.len(),
            all == super::texts(v@),
            out@ == before + quoted_list(all.take(i as int)),
        decreases v@.len() - i,
    {
        let ghost was = out@;
        proof {
            assert(all.take(i + 1).drop_last() =~= all.take(i as int));
            assert(all.take(i + 1).last() == v@[i as int]@);
        }
        if i > 0 {
            out.append(",");
        }
        push_quoted(out, v[i].as_str());
        proof {
            let now = quoted_list(all.take(i + 1));
            if i == 0 {
                assert(now =~= json::json_quoted(v@[0]@));
                assert(was =~= before + Seq::<char>::empty());
            }
            assert(out@ =~= before + now);
        }
        i += 1;
    }
    assert(all.take(i as int) =~= all);
}

fn push_batch(out: &mut String, b: Option<BatchProgress>)
    ensures
        final(out)@ == old(out)@ + batch_text(b),
{
    let ghost before = out@;
    match b {
        Some(b) => {
            out.append("{\"deepening\":");
            push_bool(out, b.deepening);
            out.append(",\"done\":");
            push_decimal(out, b.done as u64);
            out.append(",\"elapsed_secs\":");
            push_seconds(out, b.elapsed as u128);
            out.append(",\"total\":");
            push_decimal(out, b.total as u64);
            out.append("}");
        },
        None => {
            out.append("null");
        },
    }
    assert(out@ =~= before + batch_text(b));
}

fn push_reads(out: &mut String, r: &Option<EngineReads>)
    ensures
        final(out)@ == old(out)@ + reads_text(opt_reads(*r)),
{
    let ghost before = out@;
    match r {
        Some(r) => {
            out.append("{\"is_final\":");
            push_bool(out, r.is_final);
            out.append(",\"score_lead\":");
            out.append(r.score_lead.as_str());
            out.append(",\"turn\":");
            push_decimal(out, r.turn as u64);
            out.append(",\"visits\":");
            push_decimal(out, r.visits);
            out.append(",\"winrate\":");
            out.append(r.winrate.as_str());
            out.append("}");
        },
        None => {
            out.append("null");
        },
    }
    assert(out@ =~= before + reads_text(opt_reads(*r)));
}

fn toggles_start(t: Toggles) -> (r: String)
    ensures
        r@ == toggles_head(t),
{
    let mut out = "{\"curve_open\":".to_owned();
    push_bool(&mut out, t.curve_open);
    out.append(",\"new_game_open\":");
    push_bool(&mut out, t.new_game_open);
    out.append(",\"settings_open\":");
    push_bool(&mut out, t.settings_open);
    out.append(",\"show_candidates\":");
    push_bool(&mut out, t.show_candidates);
    out.append(",\"show_heat\":");
    push_bool(&mut out, t.show_heat);
    out.append(",\"show_mini_board\":");
    push_bool(&mut out, t.show_mini_board);
    out
}

fn toggles_json(t: Toggles) -> (r: String)
    ensures
        r@ == toggles_text(t),
{
    let mut out = toggles_start(t);
    out.append(",\"show_mistakes\":");
    push_bool(&mut out, t.show_mistakes);
    out.append(",\"show_moves_heat\":");
    push_bool(&mut out, t.show_moves_heat);
    out.append(",\"show_policy\":");
    push_bool(&mut out, t.show_policy);
    out.append(",\"show_score_lead\":");
    push_bool(&mut out, t.show_score_lead);
    out.append(",\"tree_open\":");
    push_bool(&mut out, t.tree_open);
    out.append("}");
    out
}

impl StateSnapshot {
    fn push_1(&self, out: &mut String)
        ensures
            final(out)@ == old(out)@ + self.json_1(),
    {
        let ghost before = out@;
        out.append("{\"batch_progress\":");
        push_batch(out, self.batch_progress);
        out.append(",\"candidates\":");
        push_decimal(out, self.candidates as u64);
        out.append(",\"candidates_visible\":");
        push_bool(out, self.candidates_visible);
        out.append(",\"clock_main\":[");
        push_opt_seconds(out, self.clock_main.0);
        out.append(",");
        push_opt_seconds(out, self.clock_main.1);
        out.append("],\"clock_total\":[");
        push_seconds(out, self.clock_total.0 as u128);
        out.append(",");
        push_seconds(out, self.clock_total.1 as u128);
        out.append("]");
        assert(out@ =~= before + self.json_1());
    }

    fn push_2(&self, out: &mut String)
        ensures
            final(out)@ == old(out)@ + self.json_2(),
    {
        let ghost before = out@;
        out.append(",\"cursor\":");
        push_decimal(out, self.cursor as u64);
        out.append(",\"dirty\":");
        push_bool(out, self.dirty);
        out.append(",\"engine_reads\":");
        push_reads(out, &self.engine_reads);
        out.append(",\"engine_status\":");
        push_quoted(out, self.engine_status);
        out.append(",\"gating\":");
        push_quoted(out, self.gating);
        out.append(",\"human\":");
        push_quoted(out, self.human);
        assert(out@ =~= before + self.json_2());
    }

    fn push_3(&self, out: &mut String)
        ensures
            final(out)@ == old(out)@ + self.json_3(),
    {
        let ghost before = out@;
        out.append(",\"komi\":");
        out.append(number::json_number(self.komi.as_str()).as_str());
        out.append(",\"last_log\":");
        push_opt(out, &self.last_log);
        out.append(",\"line_len\":");
        push_decimal(out, self.line_len as u64);
        out.append(",\"manual_revealed\":");
        push_bool(out, self.manual_revealed);
        out.append(",\"notices\":[");
        push_list(out, &self.notices);
        out.append("]");
        assert(out@ =~= before + self.json_3());
    }

    fn push_4(&self, out: &mut String)
        ensures
            final(out)@ == old(out)@ + self.json_4(),
    {
        let ghost before = out@;
        out.append(",\"play_finished\":");
        push_bool(out, self.play_finished);
        out.append(",\"play_mode\":");
        push_bool(out, self.play_mode);
        out.append(",\"resigned\":");
        push_opt_lit(out, self.resigned);
        out.append(",\"size\":");
        push_decimal(out, self.size as u64);
        out.append(",\"source\":");
        push_opt(out, &self.source);
        assert(out@ =~= before + self.json_4());
    }

    fn push_5(&self, out: &mut String)
        ensures
            final(out)@ == old(out)@ + self.json_5(),
    {
        let ghost before = out@;
        out.append(",\"timeout_loss\":");
        push_opt_lit(out, self.timeout_loss);
        out.append(",\"toggles\":");
        out.append(toggles_json(self.toggles).as_str());
        out.append(",\"transient_error\":");
        push_opt(out, &self.transient_error);
        out.append(",\"tree_moves\":");
        push_decimal(out, self.tree_moves as u64);
        out.append(",\"viewport_commands\":[");
        push_list(out, &self.viewport_commands);
        out.append("]}");
        assert(out@ =~= before + self.json_5());
    }

    /// The state as JSON on one line, with the keys in order.
    pub fn to_json(&self) -> (r: String)
        ensures
            r@ == self.json_1() + self.json_2() + self.json_3() + self.json_4() + self.json_5(),
    {
        let mut out = String::new();
        self.push_1(&mut out);
        self.push_2(&mut out);
        self.push_3(&mut out);
        self.push_4(&mut out);
        self.push_5(&mut out);
        assert(out@ =~= self.json_1() + self.json_2() + self.json_3() + self.json_4()
            + self.json_5());
        out
    }
}

} // verus!
