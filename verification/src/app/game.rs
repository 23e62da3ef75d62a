//! Games against the engine: how they start and how they end.

use vstd::prelude::*;
use super::confirm::PendingConfirm;
use super::names::{self, result_letter, time_meta_text};
use super::notice::{LoadNotice, NoticeView};
use super::{AppView, AskingView, GuanqiApp, TableView};
use crate::board::{self, Board, BoardView, Coord, IllegalReason, Size, Stone};
use crate::engine::config::{self, resolve_rules, Difficulty, Rules};
use crate::engine::settings::ConfigView;
use crate::play::timer;
use crate::play::{self, GameSetup, PlayState};
use crate::sgf::info::{GameInfo, InfoView};
use crate::sgf::load::{GameMeta, MetaView};
use crate::text::{self, has_prefix, push_decimal, same_text};

verus! {

/// From how many visits on a judgement of a finished game stands.
pub const TERMINAL_EVAL_TARGET_VISITS: u32 = 800;

// ---- new games ----

/// The starting position of a game: a handicap stands on the board, and White begins then.
pub open spec fn first_board(size: Size, handicap: usize) -> BoardView {
    board::fresh_board(
        size,
        if handicap > 0 {
            Stone::White
        } else {
            Stone::Black
        },
        board::setup_grid(
            size,
            play::handicap_points(size, handicap as nat),
            Seq::empty(),
            Seq::empty(),
        ),
    )
}

/// What is known of a game that has just begun.
pub open spec fn first_info(setup: GameSetup) -> InfoView {
    let human = Some("人类"@);
    let engine = Some("观棋(KataGo)"@);
    let (time_limit, overtime) = names::time_words(setup.time_system);
    InfoView {
        komi: Some(setup.komi@),
        handicap: play::handicap_meant(setup.handicap) as u8,
        player_black: if setup.human == Stone::Black {
            human
        } else {
            engine
        },
        player_white: if setup.human == Stone::Black {
            engine
        } else {
            human
        },
        time_limit,
        overtime,
        rules: Some(setup.rules.wire_spec()),
        ..GameInfo::blank_spec(setup.size)
    }
}

/// What is kept beside the board of a game that has just begun.
pub open spec fn first_meta(setup: GameSetup) -> MetaView {
    MetaView {
        source: "guanqi.sgf"@,
        info: first_info(setup),
        comments: Map::empty(),
        extras: Map::empty(),
    }
}

/// What is said of moves that were tried in copies and are gone.
pub open spec fn lost_words(moves: usize) -> Seq<char> {
    "（研究副本连同 "@ + text::decimal(moves as nat) + " 手研究成果已丢弃。）"@
}

/// What is said of a game that has just begun, the copies with `lost` moves being gone.
pub open spec fn begun_words(setup: GameSetup, lost: usize) -> Seq<char> {
    let h = play::handicap_meant(setup.handicap);
    let size = text::decimal(setup.size.side()) + "路"@;
    "新对局已开始："@ + (if h > 0 {
        size + " 让"@ + text::decimal(h as nat) + "子"@
    } else {
        size
    }) + "，你执"@ + setup.human.name_spec() + "，难度"@ + setup.difficulty.name_spec() + "（"@
        + text::decimal(setup.difficulty.visits_spec() as nat) + " visits），时限"@
        + setup.time_system.name_spec() + "。"@ + if lost > 0 {
        lost_words(lost)
    } else {
        Seq::empty()
    }
}

/// The settings with those of a new game.
pub open spec fn game_settings(c: ConfigView, setup: GameSetup) -> ConfigView {
    ConfigView {
        time_system: setup.time_system,
        new_game_rules: setup.rules,
        play_difficulty: setup.difficulty,
        ..c
    }
}

impl AppView {
    /// The state after a game has begun.
    pub open spec fn with_game(self, setup: GameSetup) -> AppView {
        AppView {
            docs: self.docs.replaced(
                first_board(setup.size, play::handicap_meant(setup.handicap)),
                Some(first_meta(setup)),
            ),
            table: TableView {
                play: play::begun(setup.human, setup.time_system),
                komi: setup.komi@,
                active_rules: Some(setup.rules.wire_spec()),
                last_frame: None,
            },
            asking: AskingView { copies: PendingConfirm::Nothing, unsaved: None, ..self.asking },
            marks: self.marks.cleared(),
            engine_cfg: game_settings(self.engine_cfg, setup),
            ..self
        }.told(NoticeView::Done(begun_words(setup, self.docs.research_moves())))
    }
}

fn push_lost(out: &mut String, moves: usize)
    ensures
        final(out)@ == old(out)@ + lost_words(moves),
{
    let ghost was = out@;
    out.append("（研究副本连同 ");
    push_decimal(out, moves as u64);
    out.append(" 手研究成果已丢弃。）");
    assert(out@ =~= was + lost_words(moves));
}

/// What is said of moves that were tried in copies and are gone.
pub(crate) fn lost_text(moves: usize) -> (r: String)
    ensures
        r@ == lost_words(moves),
{
    let mut out = String::new();
    push_lost(&mut out, moves);
    assert(out@ =~= lost_words(moves));
    out
}

fn begun_text(setup: &GameSetup, lost: usize) -> (r: String)
    ensures
        r@ == begun_words(*setup, lost),
{
    let h = setup.effective_handicap();
    let mut out = "新对局已开始：".to_owned();
    out.append(setup.size.display().as_str());
    if h > 0 {
        out.append(" 让");
        push_decimal(&mut out, h as u64);
        out.append("子");
    }
    out.append("，你执");
    out.append(setup.human.name());
    out.append("，难度");
    out.append(setup.difficulty.name());
    out.append("（");
    push_decimal(&mut out, setup.difficulty.visits() as u64);
    out.append(" visits），时限");
    out.append(setup.time_system.name());
    out.append("。");
    if lost > 0 {
        push_lost(&mut out, lost);
    }
    assert(out@ =~= begun_words(*setup, lost));
    out
}

fn info_of(setup: &GameSetup) -> (r: GameInfo)
    ensures
        r@ == first_info(*setup),
{
    let (time_limit, overtime) = time_meta_text(setup.time_system);
    let (black, white) = match setup.human {
        Stone::Black => ("人类", "观棋(KataGo)"),
        Stone::White => ("观棋(KataGo)", "人类"),
    };
    let mut info = GameInfo::blank(setup.size);
    info.komi = Some(setup.komi.clone());
    info.handicap = setup.effective_handicap() as u8;
    info.player_black = Some(black.to_owned());
    info.player_white = Some(white.to_owned());
    info.time_limit = time_limit;
    info.overtime = overtime;
    info.rules = Some(setup.rules.wire().to_owned());
    assert(info@ =~= first_info(*setup));
    info
}

proof fn lemma_all_on(size: Size, s: Seq<Coord>)
    requires
        forall|i: int| 0 <= i < s.len() ==> (#[trigger] s[i]).on(size),
    ensures
        board::first_off(size, s) is None,
    decreases s.len(),
{
    if s.len() > 0 {
        assert(s[0].on(size));
        assert forall|i: int| 0 <= i < s.skip(1).len() implies (#[trigger] s.skip(1)[i]).on(size) by {
            assert(s.skip(1)[i] == s[i + 1]);
        }
        lemma_all_on(size, s.skip(1));
    }
}

proof fn lemma_nothing_shared(s: Seq<Coord>)
    ensures
        board::first_shared(s, Seq::empty()) is None,
    decreases s.len(),
{
    if s.len() > 0 {
        lemma_nothing_shared(s.skip(1));
    }
}

fn board_of(size: Size, handicap: usize) -> (r: Board)
    requires
        handicap == 0 || 2 <= handicap <= 9,
    ensures
        r.wf(),
        r@ == first_board(size, handicap),
{
    let stones = play::handicap_stones(size, handicap);
    let none: Vec<Coord> = Vec::new();
    let first = if handicap > 0 {
        Stone::White
    } else {
        Stone::Black
    };
    proof {
        use_type_invariant(&size);
        play::lemma_handicap_on(size, handicap as nat);
        let all = stones@ + none@ + none@;
        assert(all =~= stones@);
        lemma_all_on(size, all);
        lemma_nothing_shared(stones@);
        assert(none@ =~= Seq::empty());
    }
    match Board::from_setup(size, &stones, &none, &none, first) {
        Ok(b) => b,
        Err(_) => {
            assert(false);
            Board::new(size)
        },
    }
}

impl GuanqiApp {
    /// Starts a game: the record and the copies are replaced. Says whether the settings have
    /// changed. The caller forgets what the engine found before.
    pub fn start_new_game(&mut self, setup: GameSetup) -> (r: bool)
        requires
            old(self).wf(),
        ensures
            final(self).wf(),
            final(self)@ == old(self)@.with_game(setup),
            r == (game_settings(old(self)@.engine_cfg, setup) != old(self)@.engine_cfg),
    {
        let ghost before = self@;
        let handicap = setup.effective_handicap();
        let board = board_of(setup.size, handicap);
        let lost = self.docs.research_moves();
        let said = begun_text(&setup, lost);
        let mut meta = GameMeta::for_path("guanqi.sgf", setup.size);
        meta.set_info(info_of(&setup));
        self.docs.replace(board, Some(meta));
        self.clear_board_derived();
        self.asking.copies = PendingConfirm::Nothing;
        self.asking.unsaved = None;
        let changed = self.engine_cfg.time_system != setup.time_system
            || self.engine_cfg.new_game_rules != setup.rules || self.engine_cfg.play_difficulty
            != setup.difficulty;
        self.engine_cfg.time_system = setup.time_system;
        self.engine_cfg.new_game_rules = setup.rules;
        self.engine_cfg.play_difficulty = setup.difficulty;
        self.table.play = PlayState::new_game(&setup);
        self.table.active_rules = Some(setup.rules.wire().to_owned());
        self.table.last_frame = None;
        self.table.komi = setup.komi;
        self.notices.push(LoadNotice::Done(said));
        proof {
            assert(self@ =~= before.with_game(setup));
            if !changed {
                assert(game_settings(before.engine_cfg, setup) =~= before.engine_cfg);
            }
        }
        changed
    }

    /// Removes the marks that belong to the board.
    pub fn clear_board_derived(&mut self)
        ensures
            final(self)@ == (AppView { marks: old(self)@.marks.cleared(), ..old(self)@ }),
            final(self).wf() == old(self).wf(),
    {
        self.marks.focus = None;
        self.marks.notice = None;
        self.marks.branch_notice = None;
    }

    /// Sets how strong the engine plays; says whether that has changed.
    pub fn set_difficulty(&mut self, difficulty: Difficulty) -> (r: bool)
        ensures
            final(self)@ == (AppView {
                engine_cfg: ConfigView { play_difficulty: difficulty, ..old(self)@.engine_cfg },
                ..old(self)@
            }),
            r == (old(self)@.engine_cfg.play_difficulty != difficulty),
            final(self).wf() == old(self).wf(),
    {
        if self.engine_cfg.play_difficulty == difficulty {
            assert(self@.engine_cfg =~= ConfigView {
                play_difficulty: difficulty,
                ..old(self)@.engine_cfg
            });
            return false;
        }
        self.engine_cfg.play_difficulty = difficulty;
        true
    }

    /// Takes in whether the settings could be written.
    pub fn settings_saved(&mut self, failure: Option<String>)
        ensures
            final(self)@ == (AppView {
                persist_notice: names::opt_text(failure),
                ..old(self)@
            }),
            final(self).wf() == old(self).wf(),
    {
        self.persist_notice = failure;
    }
}

// ---- rules ----

/// The rules that a record's text speaks of, by the engine's name.
pub open spec fn record_rules(raw: Seq<char>) -> Seq<char> {
    config::resolved(
        None,
        Some(raw),
        config::spoken_rules(config::lowercased(text::trimmed(raw))),
    ).rules
}

impl AppView {
    /// What the record says of the rules.
    pub open spec fn rules_text(self) -> Option<Seq<char>> {
        match self.docs.active.meta {
            Some(m) => m.info.rules,
            None => None,
        }
    }

    /// What positions are judged by: the rules of a game that was started here, else what the
    /// record says.
    pub open spec fn game_rules(self) -> Option<Seq<char>> {
        match self.table.active_rules {
            Some(r) => Some(r),
            None => self.rules_text(),
        }
    }

    /// The name of the rules, where they are known.
    pub open spec fn rules_name(self) -> Option<Seq<char>> {
        let wire = match self.table.active_rules {
            Some(r) => Some(r),
            None => match self.rules_text() {
                Some(raw) => Some(record_rules(raw)),
                None => None,
            },
        };
        match wire {
            Some(w) => match config::rules_of(w) {
                Some(r) => Some(r.name_spec()),
                None => None,
            },
            None => None,
        }
    }

    /// The rules as the menu shows them.
    pub open spec fn rules_line(self) -> Seq<char> {
        match self.table.active_rules {
            Some(w) => match config::rules_of(w) {
                Some(r) => r.name_spec(),
                None => w,
            },
            None => match self.rules_text() {
                Some(raw) => match config::rules_of(record_rules(raw)) {
                    Some(r) => r.name_spec(),
                    None => raw,
                },
                None => "中国"@,
            },
        }
    }
}

impl GuanqiApp {
    pub(crate) fn recorded_rules(&self) -> (r: Option<String>)
        ensures
            names::opt_text(r) == self@.rules_text(),
    {
        match &self.docs.active.meta {
            Some(m) => match &m.info().rules {
                Some(s) => Some(s.clone()),
                None => None,
            },
            None => None,
        }
    }

    /// What positions are judged by: the rules of a game that was started here, else what the
    /// record says.
    pub fn game_rules(&self) -> (r: Option<String>)
        ensures
            names::opt_text(r) == self@.game_rules(),
    {
        match &self.table.active_rules {
            Some(s) => Some(s.clone()),
            None => self.recorded_rules(),
        }
    }

    /// The name of the rules, where they are known.
    pub fn current_rules_name(&self) -> (r: Option<String>)
        ensures
            names::opt_text(r) == self@.rules_name(),
    {
        let wire = match &self.table.active_rules {
            Some(s) => s.clone(),
            None => match self.recorded_rules() {
                Some(raw) => resolve_rules(None, Some(raw.as_str())).rules,
                None => {
                    return None;
                },
            },
        };
        match Rules::from_wire(wire.as_str()) {
            Some(r) => Some(r.name().to_owned()),
            None => None,
        }
    }

    /// The rules as the menu shows them.
    pub fn menu_rules_line(&self) -> (r: String)
        ensures
            r@ == self@.rules_line(),
    {
        match &self.table.active_rules {
            Some(s) => Rules::rules_name(s.as_str()),
            None => match self.recorded_rules() {
                Some(raw) => {
                    let mapped = resolve_rules(None, Some(raw.as_str()));
                    match Rules::from_wire(mapped.rules.as_str()) {
                        Some(r) => r.name().to_owned(),
                        None => raw,
                    }
                },
                None => "中国".to_owned(),
            },
        }
    }
}

// ---- endings ----

/// What the engine says of a finished game.
#[derive(Debug)]
pub struct TerminalEval {
    /// The visits that it took.
    pub visits: u64,
    /// The result, as records write it.
    pub result: String,
    /// The summary for the record.
    pub block: String,
}

/// What is kept beside a board after a game has ended.
pub open spec fn with_result(
    meta: Option<MetaView>,
    result: Seq<char>,
    block: Option<Seq<char>>,
) -> Option<MetaView> {
    match meta {
        Some(m) => Some(
            MetaView {
                info: InfoView {
                    result: Some(result),
                    result_block: match block {
                        Some(b) => Some(b),
                        None => m.info.result_block,
                    },
                    ..m.info
                },
                ..m
            },
        ),
        None => None,
    }
}

/// Who has won, by a result.
pub open spec fn winner_words(result: Seq<char>) -> Seq<char> {
    if result == "0"@ {
        "和棋"@
    } else if text::starts_with(result, "B"@) {
        "黑胜"@
    } else {
        "白胜"@
    }
}

/// What is said when `loser` resigns.
pub open spec fn resigned_words(loser: Stone) -> Seq<char> {
    loser.name_spec() + "认输："@ + (loser.other().name_spec() + "方中盘胜"@) + "（"@
        + names::letter(loser.other()) + "+R）。对局已结束，可继续复盘浏览。"@
}

/// What is said when the time of `loser` is over.
pub open spec fn timeout_words(loser: Stone) -> Seq<char> {
    loser.name_spec() + "方超时，"@ + loser.other().name_spec() + "方胜（"@ + names::letter(
        loser.other(),
    ) + "+T）。对局已结束，可继续复盘浏览。"@
}

/// What is said when both sides have passed and the engine's judgement stands.
pub open spec fn judged_words(result: Seq<char>, rules: Seq<char>, visits: u64) -> Seq<char> {
    "对局结束：双方连续弃着。终局判定（引擎）："@ + winner_words(result) + "，"@ + result
        + " · 按规则「"@ + rules + "」评估（"@ + text::decimal(visits as nat)
        + " visits），非点目结果。"@
}

/// What is said when the engine's judgement of a finished game comes in.
pub open spec fn settled_words(result: Seq<char>, rules: Seq<char>, visits: u64) -> Seq<char> {
    "终局判定（引擎）："@ + winner_words(result) + "，"@ + result + " · 按棋谱规则「"@ + rules
        + "」评估 （"@ + text::decimal(visits as nat) + " visits），非点目结果。"@
}

impl AppView {
    /// The state with a result in the record, and something said of it.
    pub open spec fn ended(
        self,
        result: Seq<char>,
        said: Seq<char>,
        block: Option<Seq<char>>,
    ) -> AppView {
        AppView {
            docs: self.docs.with_meta(with_result(self.docs.active.meta, result, block)),
            ..self
        }.told(NoticeView::Done(said))
    }

    /// The state after `loser` has resigned.
    pub open spec fn resigned(self, loser: Stone) -> AppView {
        AppView {
            table: TableView {
                play: PlayState { resigned: Some(loser), ..self.table.play },
                ..self.table
            },
            ..self
        }.ended(names::letter(loser.other()) + "+R"@, resigned_words(loser), None)
    }

    /// The state after the time of `loser` was over.
    pub open spec fn timed_out(self, loser: Stone) -> AppView {
        AppView {
            table: TableView {
                play: PlayState { timeout_loss: Some(loser), ..self.table.play },
                ..self.table
            },
            ..self
        }.ended(names::letter(loser.other()) + "+T"@, timeout_words(loser), None)
    }

    /// Whether the game is over.
    pub open spec fn finished(self) -> bool {
        self.table.play.resigned is Some || self.table.play.timeout_loss is Some
            || play::both_passed(self.docs.active.board)
    }

    /// Whether a game is on.
    pub open spec fn game_on(self) -> bool {
        self.table.play.mode && !self.finished()
    }

    /// The name of the rules for the user.
    pub open spec fn judged_by(self) -> Seq<char> {
        match self.rules_name() {
            Some(n) => n,
            None => "未知"@,
        }
    }

    /// The state after both sides have passed: a judgement of enough visits stands, a lesser one
    /// is written for the time being, and without any the result is open.
    pub open spec fn passed_out(self, eval: Option<TerminalEval>) -> AppView {
        match eval {
            Some(e) => if e.visits >= TERMINAL_EVAL_TARGET_VISITS {
                self.ended(
                    e.result@,
                    judged_words(e.result@, self.judged_by(), e.visits),
                    Some(e.block@),
                )
            } else {
                self.ended(
                    e.result@,
                    "对局结束：双方连续弃着。终局评估中…（评估到达后更新结果）。"@,
                    Some(e.block@),
                )
            },
            None => self.ended(
                "?"@,
                "对局结束：双方连续弃着。暂无引擎评估，SGF 记 RE[?]（评估中…）。"@,
                None,
            ),
        }
    }

    /// Whether a judgement settles the result of the game: both sides have passed, it has enough
    /// visits, and the record says something else.
    pub open spec fn settles(self, e: TerminalEval) -> bool {
        &&& play::both_passed(self.docs.active.board)
        &&& e.visits >= TERMINAL_EVAL_TARGET_VISITS
        &&& !(self.docs.active.meta matches Some(m) && m.info.result == Some(e.result@))
    }

    /// The state after a judgement has come in.
    pub open spec fn settled(self, eval: Option<TerminalEval>) -> AppView {
        match eval {
            Some(e) => if self.settles(e) {
                self.ended(
                    e.result@,
                    settled_words(e.result@, self.judged_by(), e.visits),
                    Some(e.block@),
                )
            } else {
                self
            },
            None => self,
        }
    }
}

fn winner_text(result: &str) -> (r: &'static str)
    ensures
        r@ == winner_words(result@),
{
    if same_text(result, "0") {
        "和棋"
    } else if has_prefix(&text::chars_of(result), "B") {
        "黑胜"
    } else {
        "白胜"
    }
}

fn resigned_text(loser: Stone) -> (r: String)
    ensures
        r@ == resigned_words(loser),
{
    let mut out = loser.name().to_owned();
    out.append("认输：");
    out.append(play::resign_text(loser).as_str());
    out.append("（");
    out.append(result_letter(loser.opposite()));
    out.append("+R）。对局已结束，可继续复盘浏览。");
    out
}

fn timeout_text(loser: Stone) -> (r: String)
    ensures
        r@ == timeout_words(loser),
{
    let mut out = loser.name().to_owned();
    out.append("方超时，");
    out.append(loser.opposite().name());
    out.append("方胜（");
    out.append(result_letter(loser.opposite()));
    out.append("+T）。对局已结束，可继续复盘浏览。");
    out
}

fn judged_text(result: &str, rules: &str, visits: u64) -> (r: String)
    ensures
        r@ == judged_words(result@, rules@, visits),
{
    let mut out = "对局结束：双方连续弃着。终局判定（引擎）：".to_owned();
    out.append(winner_text(result));
    out.append("，");
    out.append(result);
    out.append(" · 按规则「");
    out.append(rules);
    out.append("」评估（");
    push_decimal(&mut out, visits);
    out.append(" visits），非点目结果。");
    out
}

fn settled_text(result: &str, rules: &str, visits: u64) -> (r: String)
    ensures
        r@ == settled_words(result@, rules@, visits),
{
    let mut out = "终局判定（引擎）：".to_owned();
    out.append(winner_text(result));
    out.append("，");
    out.append(result);
    out.append(" · 按棋谱规则「");
    out.append(rules);
    out.append("」评估 （");
    push_decimal(&mut out, visits);
    out.append(" visits），非点目结果。");
    out
}

impl GuanqiApp {
    /// Whether the game is over.
    pub fn finished(&self) -> (r: bool)
        requires
            self.wf(),
        ensures
            r == self@.finished(),
    {
        self.table.play.finished(&self.docs.active.board)
    }

    /// Writes a result into the record and tells the user.
    pub fn finish_game(&mut self, result: String, said: String, block: Option<String>)
        requires
            old(self).wf(),
        ensures
            final(self).wf(),
            final(self)@ == old(self)@.ended(result@, said@, names::opt_text(block)),
    {
        let ghost d = self.docs@;
        let ghost why = with_result(d.active.meta, result@, names::opt_text(block));
        match &self.docs.active.meta {
            Some(m) => {
                let mut info = m.info().clone();
                info.result = Some(result);
                if let Some(b) = block {
                    info.result_block = Some(b);
                }
                let mut meta = m.clone();
                meta.set_info(info);
                assert(Some(meta@) =~= why);
                self.docs.set_meta(meta);
            },
            None => {
                assert(d.with_meta(None) =~= d);
            },
        }
        assert(self.docs@ == d.with_meta(why));
        self.notices.push(LoadNotice::Done(said));
    }

    /// The human resigns, if a game is on.
    pub fn human_resign(&mut self)
        requires
            old(self).wf(),
        ensures
            final(self).wf(),
            final(self)@ == if old(self)@.game_on() {
                old(self)@.resigned(old(self)@.table.play.human)
            } else {
                old(self)@
            },
    {
        if self.table.play.mode && !self.finished() {
            let loser = self.table.play.human;
            self.resign(loser);
        }
    }

    /// The engine resigns, if a game is on.
    pub fn engine_resign(&mut self)
        requires
            old(self).wf(),
        ensures
            final(self).wf(),
            final(self)@ == if old(self)@.game_on() {
                old(self)@.resigned(old(self)@.table.play.human.other())
            } else {
                old(self)@
            },
    {
        if self.table.play.mode && !self.finished() {
            let loser = self.table.play.human.opposite();
            self.resign(loser);
        }
    }

    fn resign(&mut self, loser: Stone)
        requires
            old(self).wf(),
        ensures
            final(self).wf(),
            final(self)@ == old(self)@.resigned(loser),
    {
        self.table.play.resigned = Some(loser);
        let mut result = result_letter(loser.opposite()).to_owned();
        result.append("+R");
        self.finish_game(result, resigned_text(loser), None);
    }

    /// The time of a side is over.
    pub fn finish_timeout(&mut self, loser: Stone)
        requires
            old(self).wf(),
        ensures
            final(self).wf(),
            final(self)@ == old(self)@.timed_out(loser),
    {
        self.table.play.timeout_loss = Some(loser);
        let mut result = result_letter(loser.opposite()).to_owned();
        result.append("+T");
        self.finish_game(result, timeout_text(loser), None);
    }

    fn rules_for_user(&self) -> (r: String)
        ensures
            r@ == self@.judged_by(),
    {
        match self.current_rules_name() {
            Some(n) => n,
            None => "未知".to_owned(),
        }
    }

    /// Both sides have passed; `eval` is what the engine says of the position. Says whether the
    /// engine is to look at it more closely.
    pub fn finish_two_passes(&mut self, eval: Option<TerminalEval>) -> (r: bool)
        requires
            old(self).wf(),
        ensures
            final(self).wf(),
            final(self)@ == old(self)@.passed_out(eval),
            r == !(eval matches Some(e) && e.visits >= TERMINAL_EVAL_TARGET_VISITS),
    {
        match eval {
            Some(e) => {
                if e.visits >= TERMINAL_EVAL_TARGET_VISITS as u64 {
                    let said = judged_text(
                        e.result.as_str(),
                        self.rules_for_user().as_str(),
                        e.visits,
                    );
                    self.finish_game(e.result, said, Some(e.block));
                    false
                } else {
                    self.finish_game(
                        e.result,
                        "对局结束：双方连续弃着。终局评估中…（评估到达后更新结果）。".to_owned(),
                        Some(e.block),
                    );
                    true
                }
            },
            None => {
                self.finish_game(
                    "?".to_owned(),
                    "对局结束：双方连续弃着。暂无引擎评估，SGF 记 RE[?]（评估中…）。".to_owned(),
                    None,
                );
                true
            },
        }
    }

    fn result_is(&self, result: &str) -> (r: bool)
        ensures
            r == (self@.docs.active.meta matches Some(m) && m.info.result == Some(result@)),
    {
        match &self.docs.active.meta {
            Some(m) => match &m.info().result {
                Some(s) => same_text(s.as_str(), result),
                None => false,
            },
            None => false,
        }
    }

    /// Takes in what the engine says of a finished game.
    pub fn refresh_terminal_result(&mut self, eval: Option<TerminalEval>)
        requires
            old(self).wf(),
        ensures
            final(self).wf(),
            final(self)@ == old(self)@.settled(eval),
    {
        if !play::two_passes(&self.docs.active.board) {
            return;
        }
        match eval {
            Some(e) => {
                if e.visits >= TERMINAL_EVAL_TARGET_VISITS as u64 && !self.result_is(
                    e.result.as_str(),
                ) {
                    let said = settled_text(
                        e.result.as_str(),
                        self.rules_for_user().as_str(),
                        e.visits,
                    );
                    self.finish_game(e.result, said, Some(e.block));
                }
            },
            None => {},
        }
    }

    /// The human passes, if a game is on. Says whether both sides have passed then.
    pub fn human_pass(&mut self) -> (r: bool)
        requires
            old(self).wf(),
        ensures
            final(self).wf(),
            final(self)@ == if old(self)@.game_on() {
                old(self)@.human_passed()
            } else {
                old(self)@
            },
            r == (old(self)@.game_on() && play::both_passed(final(self)@.docs.active.board)),
    {
        if self.table.play.mode && !self.finished() {
            let human = self.table.play.human;
            self.docs.pass();
            self.table.play.clock.on_human_move(human);
            play::two_passes(&self.docs.active.board)
        } else {
            false
        }
    }

    /// Takes in a click on a point: a move, unless a game is on and the engine is to move.
    pub fn board_clicked(&mut self, at: Coord) -> (r: Option<Result<(), IllegalReason>>)
        requires
            old(self).wf(),
        ensures
            final(self).wf(),
            if old(self)@.engine_to_move() {
                r is None && final(self)@ == old(self)@
            } else {
                match old(self)@.docs.active.board.played(at) {
                    Ok(v) => (r matches Some(Ok(_))) && final(self)@ == old(self)@.human_moved(v),
                    Err(e) => r == Some(Err::<(), IllegalReason>(e)) && final(self)@ == (AppView {
                        marks: super::MarksView { notice: Some(e), ..old(self)@.marks },
                        ..old(self)@
                    }),
                }
            },
    {
        if self.table.play.mode && self.docs.active.board.to_play() != self.table.play.human {
            None
        } else {
            Some(self.human_move(at))
        }
    }

    /// Plays on a point, and takes in the move on the human's clock if a game is on.
    pub fn human_move(&mut self, at: Coord) -> (r: Result<(), IllegalReason>)
        requires
            old(self).wf(),
        ensures
            final(self).wf(),
            match old(self)@.docs.active.board.played(at) {
                Ok(v) => r is Ok && final(self)@ == old(self)@.human_moved(v),
                Err(e) => r == Err::<(), IllegalReason>(e) && final(self)@ == (AppView {
                    marks: super::MarksView { notice: Some(e), ..old(self)@.marks },
                    ..old(self)@
                }),
            },
    {
        match self.docs.play(at) {
            Ok(_) => {
                self.marks.notice = None;
                if self.table.play.mode {
                    let human = self.table.play.human;
                    self.table.play.clock.on_human_move(human);
                }
                Ok(())
            },
            Err(e) => {
                self.marks.notice = Some(e);
                Err(e)
            },
        }
    }
}

impl TableView {
    /// The table after the human's move has been taken in on the clock.
    pub open spec fn human_clocked(self) -> TableView {
        let p = self.play;
        TableView {
            play: PlayState {
                clock: p.clock.with_side(
                    p.human,
                    timer::refreshed(p.clock.system, p.clock.side_spec(p.human)),
                    p.clock.total_spec(p.human),
                ),
                ..p
            },
            ..self
        }
    }
}

impl AppView {
    /// Whether a game is on and the engine is to move.
    pub open spec fn engine_to_move(self) -> bool {
        self.table.play.mode && self.docs.active.board.to_play() != self.table.play.human
    }

    /// The state after the human has passed.
    pub open spec fn human_passed(self) -> AppView {
        AppView {
            docs: self.docs.edited(self.docs.active.board.passed()),
            table: self.table.human_clocked(),
            ..self
        }
    }

    /// The state after a move has led to `board`.
    pub open spec fn human_moved(self, board: BoardView) -> AppView {
        AppView {
            docs: self.docs.edited(board),
            table: if self.table.play.mode {
                self.table.human_clocked()
            } else {
                self.table
            },
            marks: super::MarksView { notice: None, ..self.marks },
            ..self
        }
    }
}

} // verus!
