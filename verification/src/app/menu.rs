//! What the menus offer.

use vstd::prelude::*;
use super::{AppView, GuanqiApp, MarksView};
use crate::board::Coord;
use crate::engine::settings::CandidateGating;
use crate::play::{self, should_show_hopeless};

verus! {

/// What the menu of files and copies offers; a reason says why something is not offered.
#[derive(Debug)]
pub struct FileMenu {
    /// Why no files can be opened or saved.
    pub dialog_reason: Option<String>,
    /// Why no copy can be made.
    pub copy_reason: Option<&'static str>,
    /// Why there is no copy to drop.
    pub drop_reason: Option<&'static str>,
}

/// What the menu of games offers; a reason says why something is not offered.
#[derive(Debug)]
pub struct PlayMenu {
    /// Whether the human can resign or pass.
    pub playable: bool,
    /// Why not.
    pub idle_reason: Option<&'static str>,
    /// Why the engine cannot be made to resign.
    pub engine_reason: Option<&'static str>,
    /// Whether a game is on; rules and time limit stay as they are then.
    pub in_game: bool,
    /// The rules.
    pub rules: String,
    /// The kind of time limit.
    pub time: &'static str,
}

/// Why the human can neither resign nor pass.
pub open spec fn idle_words() -> Seq<char> {
    "当前不是对局中（人机对弈未开启，或本局已结束）"@
}

/// Why the engine cannot be made to resign.
pub open spec fn hopeful_words() -> Seq<char> {
    "引擎尚未认定自己无望（胜率 ≤ 5% 时才会出现该入口）"@
}

/// The text of an optional literal.
pub open spec fn opt_lit(s: Option<&'static str>) -> Option<Seq<char>> {
    match s {
        Some(x) => Some(x@),
        None => None,
    }
}

impl AppView {
    /// Whether the human can resign or pass: a game is on, it is the human's turn, and the cursor
    /// is at the end of the line.
    pub open spec fn playable(self) -> bool {
        self.human_timed()
    }

    /// Whether the user is to be told that the engine has no hope; `low` says whether a finished
    /// search gives it none.
    pub open spec fn hopeless(self, low: bool) -> bool {
        let p = self.table.play;
        p.mode && p.resigned is None && !p.hopeless_shown && low
    }
}

impl GuanqiApp {
    /// What the menu of files and copies offers.
    pub fn file_menu(&self) -> (r: FileMenu)
        ensures
            super::names::opt_text(r.dialog_reason) == self@.asking.portal_unavailable,
            opt_lit(r.copy_reason) == if self@.docs.active.meta is None {
                Some("未载入棋谱，无谱可复制"@)
            } else {
                None
            },
            opt_lit(r.drop_reason) == if self@.docs.active.from_move is None {
                Some("当前是原谱，没有副本可丢弃"@)
            } else {
                None
            },
    {
        FileMenu {
            dialog_reason: match &self.asking.portal_unavailable {
                Some(s) => Some(s.clone()),
                None => None,
            },
            copy_reason: if self.docs.active.meta.is_none() {
                Some("未载入棋谱，无谱可复制")
            } else {
                None
            },
            drop_reason: if self.docs.active.from_move.is_none() {
                Some("当前是原谱，没有副本可丢弃")
            } else {
                None
            },
        }
    }

    /// What the menu of games offers; `low` says whether a finished search gives the engine no
    /// hope.
    pub fn play_menu(&self, low: bool) -> (r: PlayMenu)
        requires
            self.wf(),
        ensures
            r.playable == self@.playable(),
            opt_lit(r.idle_reason) == if self@.playable() {
                None
            } else {
                Some(idle_words())
            },
            opt_lit(r.engine_reason) == if !self@.hopeless(low) {
                Some(hopeful_words())
            } else if !self@.playable() {
                Some(idle_words())
            } else {
                None
            },
            r.in_game == self@.game_on(),
            r.rules@ == self@.rules_line(),
            r.time@ == self@.table.play.clock.system.name_spec(),
    {
        let in_game = self.table.play.mode && !self.finished();
        let playable = in_game && self.docs.active.board.to_play() == self.table.play.human
            && play::cursor_at_end(&self.docs.active.board);
        let idle = "当前不是对局中（人机对弈未开启，或本局已结束）";
        PlayMenu {
            playable,
            idle_reason: if playable {
                None
            } else {
                Some(idle)
            },
            engine_reason: if !should_show_hopeless(&self.table.play, low) {
                Some("引擎尚未认定自己无望（胜率 ≤ 5% 时才会出现该入口）")
            } else if !playable {
                Some(idle)
            } else {
                None
            },
            in_game,
            rules: self.menu_rules_line(),
            time: self.table.play.clock.system.name(),
        }
    }

    /// What is said of an engine without hope; `winrate` is its chance as shown to the user. From
    /// then on it is not said again.
    pub fn tell_hopeless(&mut self, low: bool, winrate: &str) -> (r: Option<String>)
        requires
            old(self).wf(),
        ensures
            final(self).wf(),
            match r {
                Some(s) => old(self)@.hopeless(low) && s@ == "引擎认为"@ + old(
                    self,
                )@.table.play.human.other().name_spec() + "方已无望（胜率 "@ + winrate@
                    + "）。可点「让引擎认输」判它中盘负，或继续对局。"@,
                None => !old(self)@.hopeless(low),
            },
            final(self)@ == if old(self)@.hopeless(low) {
                AppView {
                    table: super::TableView {
                        play: play::PlayState {
                            hopeless_shown: true,
                            ..old(self)@.table.play
                        },
                        ..old(self)@.table
                    },
                    ..old(self)@
                }
            } else {
                old(self)@
            },
    {
        if !should_show_hopeless(&self.table.play, low) {
            return None;
        }
        let mut out = "引擎认为".to_owned();
        out.append(self.table.play.human.opposite().name());
        out.append("方已无望（胜率 ");
        out.append(winrate);
        out.append("）。可点「让引擎认输」判它中盘负，或继续对局。");
        play::mark_hopeless_shown(&mut self.table.play);
        Some(out)
    }

    /// The choices of when candidates are shown: a delay is the one that is set, or else the one
    /// that is remembered.
    pub fn gating_choices(&self) -> (r: Vec<CandidateGating>)
        ensures
            r@ == seq![
                CandidateGating::Immediate,
                CandidateGating::Delayed {
                    secs: match self@.panels.gating {
                        CandidateGating::Delayed { secs } => secs,
                        _ => self@.engine_cfg.ui_prefs.gating_delay_secs,
                    },
                },
                CandidateGating::Manual,
            ],
    {
        let secs = match self.panels.gating {
            CandidateGating::Delayed { secs } => secs,
            _ => self.engine_cfg.ui_prefs.gating_delay_secs,
        };
        let mut out: Vec<CandidateGating> = Vec::new();
        out.push(CandidateGating::Immediate);
        out.push(CandidateGating::Delayed { secs });
        out.push(CandidateGating::Manual);
        out
    }

    /// Looks at a candidate, or no longer where it is looked at.
    pub fn toggle_focus(&mut self, at: Coord)
        ensures
            final(self)@ == (AppView {
                marks: MarksView {
                    focus: if old(self)@.marks.focus == Some(at) {
                        None
                    } else {
                        Some(at)
                    },
                    ..old(self)@.marks
                },
                ..old(self)@
            }),
            final(self).wf() == old(self).wf(),
    {
        let same = match self.marks.focus {
            Some(c) => c == at,
            None => false,
        };
        self.marks.focus = if same {
            None
        } else {
            Some(at)
        };
    }
}

} // verus!
