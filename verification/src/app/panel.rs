//! What the side panel asks for, and what the menu of the analysis offers.

use vstd::prelude::*;
use super::dialogs::Effect;
use super::documents;
use super::names;
use super::prefs::{BatchConfig, Overlay, Panels};
use super::{AppView, GuanqiApp};
use crate::board::{Coord, Stone};
use crate::engine::config::Difficulty;
use crate::engine::settings::{CandidateGating, ConfigView, DisplayView};
use crate::play;

verus! {

/// What the user asks for in the side panel.
#[derive(Debug)]
pub enum PanelAction {
    Nothing,
    RetryEngine,
    RetryQuery,
    /// Look at a candidate.
    Focus { at: Coord },
    HumanPass,
    HumanResign,
    EngineResign,
    /// The user has seen that the engine has no hope.
    AckHopeless,
    SetDifficulty(Difficulty),
    OpenNewGame,
    CreateCopy,
    SwitchDoc(usize),
    DropCopy(usize),
    /// Whether candidates are limited to a part of the board.
    SetRegion(bool),
    SetWantPolicy(bool),
    SetWantMovesHeat(bool),
    ToggleAvoid { player: Stone, at: Coord },
    RemoveAvoid(usize),
    ClearAvoid,
    ClearLimits,
    /// Follow the engine's line; `None` is a pass.
    AdvancePv { line: Vec<Option<Coord>> },
    StartBatch,
    SetBatchConfig(BatchConfig),
    CancelBatch,
    GotoTurn(usize),
    SetGating(CandidateGating),
    SetDisplayView(DisplayView),
    SaveGame,
}

/// What the caller is to do about it.
#[derive(Debug)]
pub enum PanelEffect {
    Nothing,
    /// Start the engine.
    StartEngine,
    /// Ask the engine again about the position.
    RetryQuery,
    /// Both sides have passed: see what the engine says of the position.
    PassedOut,
    /// Write the settings.
    SaveSettings,
    /// Limit candidates to a part of the board, or no longer.
    Region(bool),
    WantPolicy(bool),
    WantMovesHeat(bool),
    ToggleAvoid { player: Stone, at: Coord },
    RemoveAvoid(usize),
    ClearAvoid,
    ClearLimits,
    /// Scan the game, by a komi and rules.
    StartBatch { komi: String, rules: Option<String> },
    CancelBatch,
    /// Show a dialog.
    Dialog(Effect),
}

impl AppView {
    /// The state after the side panel has asked for something; a new copy is described apart.
    pub open spec fn after_panel(self, action: PanelAction) -> AppView {
        match action {
            PanelAction::Focus { at } => AppView {
                marks: super::MarksView {
                    focus: if self.marks.focus == Some(at) {
                        None
                    } else {
                        Some(at)
                    },
                    ..self.marks
                },
                ..self
            },
            PanelAction::HumanPass => if self.game_on() {
                self.human_passed()
            } else {
                self
            },
            PanelAction::HumanResign => if self.game_on() {
                self.resigned(self.table.play.human)
            } else {
                self
            },
            PanelAction::EngineResign => if self.game_on() {
                self.resigned(self.table.play.human.other())
            } else {
                self
            },
            PanelAction::SetDifficulty(d) => AppView {
                engine_cfg: ConfigView { play_difficulty: d, ..self.engine_cfg },
                ..self
            },
            PanelAction::OpenNewGame => AppView {
                panels: Panels { new_game_open: true, ..self.panels },
                ..self
            },
            PanelAction::SwitchDoc(n) => self.with_doc(n),
            PanelAction::DropCopy(n) => if self.docs.doc_research(n) matches Some(m) && m > 0 {
                AppView {
                    asking: super::AskingView {
                        copies: super::PendingConfirm::DropCopy { number: n },
                        ..self.asking
                    },
                    ..self
                }
            } else {
                self.without_copy(n)
            },
            PanelAction::AdvancePv { line } => AppView {
                docs: self.docs.at(documents::followed(self.docs.active.board, line@)),
                ..self
            },
            PanelAction::SetBatchConfig(batch) => AppView {
                panels: Panels { batch, ..self.panels },
                ..self
            },
            PanelAction::GotoTurn(n) => AppView {
                docs: self.docs.at(super::docs::turned(self.docs.active.board, n)),
                ..self
            },
            PanelAction::SetGating(gating) => AppView {
                panels: Panels { gating, ..self.panels },
                marks: if gating == CandidateGating::Manual {
                    self.marks
                } else {
                    self.marks.hidden()
                },
                ..self
            },
            PanelAction::SetDisplayView(display_view) => AppView {
                panels: Panels { display_view, ..self.panels },
                ..self
            },
            PanelAction::SaveGame => self.saving(super::PostSaveAction::Nothing).0,
            _ => self,
        }
    }
}

/// Whether an effect is the one that an action calls for in a state.
pub open spec fn effect_fits(before: AppView, after: AppView, action: PanelAction, e: PanelEffect) -> bool {
    match action {
        PanelAction::RetryEngine => e is StartEngine,
        PanelAction::RetryQuery => e is RetryQuery,
        PanelAction::HumanPass => if before.game_on() && play::both_passed(
            after.docs.active.board,
        ) {
            e is PassedOut
        } else {
            e is Nothing
        },
        PanelAction::SetDifficulty(d) => if before.engine_cfg.play_difficulty != d {
            e is SaveSettings
        } else {
            e is Nothing
        },
        PanelAction::SetRegion(on) => e == PanelEffect::Region(on),
        PanelAction::SetWantPolicy(on) => e == PanelEffect::WantPolicy(on),
        PanelAction::SetWantMovesHeat(on) => e == PanelEffect::WantMovesHeat(on),
        PanelAction::ToggleAvoid { player, at } => e == PanelEffect::ToggleAvoid { player, at },
        PanelAction::RemoveAvoid(i) => e == PanelEffect::RemoveAvoid(i),
        PanelAction::ClearAvoid => e is ClearAvoid,
        PanelAction::ClearLimits => e is ClearLimits,
        PanelAction::StartBatch => e matches PanelEffect::StartBatch { komi, rules } && komi@
            == before.table.komi && names::opt_text(rules) == before.rules_text(),
        PanelAction::CancelBatch => e is CancelBatch,
        PanelAction::SaveGame => match before.saving(super::PostSaveAction::Nothing).1 {
            Some(v) => e matches PanelEffect::Dialog(x) && x@ == v,
            None => e is Nothing,
        },
        _ => e is Nothing,
    }
}

/// Whether an action only asks something of the engine.
pub open spec fn asks_engine(a: PanelAction) -> bool {
    !sets_something(a) && !changes_game(a) && !changes_document(a) && !(a is CreateCopy)
}

/// Whether an action sets how something is shown or played.
pub open spec fn sets_something(a: PanelAction) -> bool {
    a is Focus || a is SetDifficulty || a is OpenNewGame || a is SetBatchConfig || a is SetGating
        || a is SetDisplayView
}

/// Whether an action is a step in the game, or saves it.
pub open spec fn changes_game(a: PanelAction) -> bool {
    a is HumanPass || a is HumanResign || a is EngineResign || a is SaveGame
}

/// Whether an action goes to a document or changes one that is there.
pub open spec fn changes_document(a: PanelAction) -> bool {
    a is SwitchDoc || a is DropCopy || a is AdvancePv || a is GotoTurn
}

impl GuanqiApp {
    /// Takes in what the side panel asks for, and says what is to be done about it.
    pub fn on_panel_action(&mut self, action: PanelAction) -> (r: PanelEffect)
        requires
            old(self).wf(),
            action is CreateCopy ==> old(self).docs.active.meta is Some
                && old(self).docs.next_number < usize::MAX,
            action matches PanelAction::DropCopy(n) ==> n != 0,
        ensures
            final(self).wf(),
            if action is CreateCopy {
                old(self)@.copied(final(self)@)
            } else {
                final(self)@ == old(self)@.after_panel(action)
            },
            effect_fits(old(self)@, final(self)@, action, r),
    {
        match action {
            PanelAction::Focus { .. } | PanelAction::SetDifficulty(_) | PanelAction::OpenNewGame
            | PanelAction::SetBatchConfig(_) | PanelAction::SetGating(_)
            | PanelAction::SetDisplayView(_) => self.on_setting(action),
            PanelAction::HumanPass | PanelAction::HumanResign | PanelAction::EngineResign
            | PanelAction::SaveGame => self.on_game_action(action),
            PanelAction::SwitchDoc(_) | PanelAction::DropCopy(_) | PanelAction::AdvancePv { .. }
            | PanelAction::GotoTurn(_) => {
                self.on_document_action(action);
                PanelEffect::Nothing
            },
            PanelAction::CreateCopy => {
                self.create_copy();
                PanelEffect::Nothing
            },
            _ => self.on_request(action),
        }
    }

    fn on_request(&self, action: PanelAction) -> (r: PanelEffect)
        requires
            asks_engine(action),
        ensures
            self@ == self@.after_panel(action),
            effect_fits(self@, self@, action, r),
    {
        match action {
            PanelAction::RetryEngine => PanelEffect::StartEngine,
            PanelAction::RetryQuery => PanelEffect::RetryQuery,
            PanelAction::SetRegion(on) => PanelEffect::Region(on),
            PanelAction::SetWantPolicy(on) => PanelEffect::WantPolicy(on),
            PanelAction::SetWantMovesHeat(on) => PanelEffect::WantMovesHeat(on),
            PanelAction::ToggleAvoid { player, at } => PanelEffect::ToggleAvoid { player, at },
            PanelAction::RemoveAvoid(i) => PanelEffect::RemoveAvoid(i),
            PanelAction::ClearAvoid => PanelEffect::ClearAvoid,
            PanelAction::ClearLimits => PanelEffect::ClearLimits,
            PanelAction::StartBatch => PanelEffect::StartBatch {
                komi: self.table.komi.clone(),
                rules: self.recorded_rules(),
            },
            PanelAction::CancelBatch => PanelEffect::CancelBatch,
            _ => PanelEffect::Nothing,
        }
    }

    #[verifier::rlimit(40)]
    fn on_setting(&mut self, action: PanelAction) -> (r: PanelEffect)
        requires
            old(self).wf(),
            sets_something(action),
        ensures
            final(self).wf(),
            final(self)@ == old(self)@.after_panel(action),
            effect_fits(old(self)@, final(self)@, action, r),
    {
        match action {
            PanelAction::Focus { at } => {
                self.toggle_focus(at);
            },
            PanelAction::SetDifficulty(d) => {
                if self.set_difficulty(d) {
                    return PanelEffect::SaveSettings;
                }
            },
            PanelAction::OpenNewGame => {
                self.panels.new_game_open = true;
            },
            PanelAction::SetBatchConfig(batch) => {
                self.panels.batch = batch;
            },
            PanelAction::SetGating(gating) => {
                self.set_gating(gating);
            },
            PanelAction::SetDisplayView(v) => {
                self.panels.display_view = v;
            },
            _ => {},
        }
        PanelEffect::Nothing
    }

    fn on_game_action(&mut self, action: PanelAction) -> (r: PanelEffect)
        requires
            old(self).wf(),
            changes_game(action),
        ensures
            final(self).wf(),
            final(self)@ == old(self)@.after_panel(action),
            effect_fits(old(self)@, final(self)@, action, r),
    {
        match action {
            PanelAction::HumanPass => {
                if self.human_pass() {
                    return PanelEffect::PassedOut;
                }
            },
            PanelAction::HumanResign => {
                self.human_resign();
            },
            PanelAction::EngineResign => {
                self.engine_resign();
            },
            PanelAction::SaveGame => {
                if let Some(e) = self.save_file_dialog() {
                    return PanelEffect::Dialog(e);
                }
            },
            _ => {},
        }
        PanelEffect::Nothing
    }

    fn on_document_action(&mut self, action: PanelAction)
        requires
            old(self).wf(),
            changes_document(action),
            action matches PanelAction::DropCopy(n) ==> n != 0,
        ensures
            final(self).wf(),
            final(self)@ == old(self)@.after_panel(action),
    {
        match action {
            PanelAction::SwitchDoc(n) => {
                self.switch_doc(n);
            },
            PanelAction::DropCopy(n) => {
                self.ask_drop_copy(n);
            },
            PanelAction::AdvancePv { line } => {
                self.handle_advance_pv(&line);
            },
            PanelAction::GotoTurn(n) => {
                self.docs.go_to(n);
            },
            _ => {},
        }
    }
}

// ---- the menu of the analysis ----

/// What the menu offers for limits on the candidates; a reason says why something is not offered.
#[derive(Debug)]
pub struct LimitsMenu {
    pub region_label: &'static str,
    pub region_hint: &'static str,
    /// Why there is no part of the board to give up.
    pub region_reason: Option<&'static str>,
    /// Why there are no points to allow again.
    pub avoid_reason: Option<&'static str>,
    /// Why there are no limits to give up.
    pub all_reason: Option<&'static str>,
}

/// What the menu offers for limits on the candidates, where a part of the board is set or not and
/// `avoided` points are left out.
pub fn limits_menu(region_on: bool, avoided: usize) -> (r: LimitsMenu)
    ensures
        r.region_label@ == if region_on {
            "限定区域：开（在棋盘上拖框）"@
        } else {
            "限定区域：关"@
        },
        r.region_hint@ == if region_on {
            "关闭区域并清除它（引擎恢复全盘选点）"@
        } else {
            "开启后在棋盘上拖框；引擎只考虑区域内的空点"@
        },
        super::menu::opt_lit(r.region_reason) == if region_on {
            None
        } else {
            Some("当前没有限定区域"@)
        },
        super::menu::opt_lit(r.avoid_reason) == if avoided > 0 {
            None
        } else {
            Some("排除列表是空的"@)
        },
        super::menu::opt_lit(r.all_reason) == if region_on || avoided > 0 {
            None
        } else {
            Some("没有区域也没有排除项"@)
        },
{
    LimitsMenu {
        region_label: if region_on {
            "限定区域：开（在棋盘上拖框）"
        } else {
            "限定区域：关"
        },
        region_hint: if region_on {
            "关闭区域并清除它（引擎恢复全盘选点）"
        } else {
            "开启后在棋盘上拖框；引擎只考虑区域内的空点"
        },
        region_reason: if region_on {
            None
        } else {
            Some("当前没有限定区域")
        },
        avoid_reason: if avoided > 0 {
            None
        } else {
            Some("排除列表是空的")
        },
        all_reason: if region_on || avoided > 0 {
            None
        } else {
            Some("没有区域也没有排除项")
        },
    }
}

/// Why the menu offers a choice of when candidates are shown.
pub fn gating_hint(g: CandidateGating) -> (r: &'static str)
    ensures
        r@ == match g {
            CandidateGating::Immediate => "收到报告即显示候选（默认）"@,
            CandidateGating::Delayed { .. } => "引擎开始思考满 N 秒后才显示候选，避免浅层搜索结果误导"@,
            CandidateGating::Manual => "按 F 显示候选；局面一变需重新按键"@,
        },
{
    match g {
        CandidateGating::Immediate => "收到报告即显示候选（默认）",
        CandidateGating::Delayed { .. } => "引擎开始思考满 N 秒后才显示候选，避免浅层搜索结果误导",
        CandidateGating::Manual => "按 F 显示候选；局面一变需重新按键",
    }
}

impl GuanqiApp {
    /// Sets which layers are shown. Says whether the engine must be asked about its first
    /// impression, and about the territory after each candidate, differently from before.
    pub fn set_overlay(&mut self, overlay: Overlay) -> (r: (bool, bool))
        ensures
            final(self)@ == (AppView {
                panels: Panels { overlay, ..old(self)@.panels },
                ..old(self)@
            }),
            r == (
                overlay.show_policy != old(self)@.panels.overlay.show_policy,
                overlay.show_moves_heat != old(self)@.panels.overlay.show_moves_heat,
            ),
            final(self).wf() == old(self).wf(),
    {
        let was = self.panels.overlay;
        self.panels.overlay = overlay;
        (overlay.show_policy != was.show_policy, overlay.show_moves_heat != was.show_moves_heat)
    }

    /// Sets for how long candidates are held back, where they are: a second at least.
    pub fn set_delay(&mut self, secs: u32)
        requires
            old(self).panels.gating is Delayed,
        ensures
            final(self)@ == (AppView {
                panels: Panels {
                    gating: CandidateGating::Delayed {
                        secs: if secs == 0 {
                            1
                        } else {
                            secs
                        },
                    },
                    ..old(self)@.panels
                },
                ..old(self)@
            }),
            final(self).wf() == old(self).wf(),
    {
        let secs = if secs == 0 {
            1
        } else {
            secs
        };
        self.panels.gating = CandidateGating::Delayed { secs };
    }
}

} // verus!
