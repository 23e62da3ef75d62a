//! What the window remembers: which layers and panels are shown, and when that is written down.

use vstd::prelude::*;
use crate::engine::settings::{
    BatchSide,
    CandidateGating,
    DisplayView,
    PrefsView,
    UiPrefs,
};
use crate::text::same_text;

verus! {

/// How long changes rest before they are written down, in milliseconds.
pub const PREFS_SAVE_DEBOUNCE: u64 = 1500;

/// The layers over the board.
#[derive(Clone, Copy, PartialEq, Eq, Structural, Debug)]
pub struct Overlay {
    pub show_candidates: bool,
    pub show_heat: bool,
    pub show_policy: bool,
    pub show_moves_heat: bool,
    pub show_mistakes: bool,
    pub show_score_lead: bool,
    pub show_mini_board: bool,
}

/// How the whole game is scanned.
#[derive(Clone, Copy, PartialEq, Eq, Structural, Debug)]
pub struct BatchConfig {
    pub visits: u32,
    pub side: BatchSide,
    pub include_variations: bool,
    pub deepen_enabled: bool,
    pub deepen_top: usize,
    pub deepen_visits: u32,
}

/// What is shown, and how.
#[derive(Clone, Copy, PartialEq, Eq, Structural, Debug)]
pub struct Panels {
    pub overlay: Overlay,
    pub curve_open: bool,
    pub tree_open: bool,
    pub settings_open: bool,
    pub new_game_open: bool,
    pub batch_scan_open: bool,
    pub gating: CandidateGating,
    pub display_view: DisplayView,
    pub batch: BatchConfig,
}

/// Which layers, panels and windows are shown.
#[derive(Clone, Copy, PartialEq, Eq, Structural, Debug)]
pub struct Toggles {
    pub show_candidates: bool,
    pub show_heat: bool,
    pub show_policy: bool,
    pub show_moves_heat: bool,
    pub show_mistakes: bool,
    pub show_score_lead: bool,
    pub show_mini_board: bool,
    pub curve_open: bool,
    pub tree_open: bool,
    pub settings_open: bool,
    pub new_game_open: bool,
}

/// At least one.
pub open spec fn one_up(n: u32) -> u32 {
    if n == 0 {
        1
    } else {
        n
    }
}

/// How the whole game is scanned, as it is remembered; what makes no sense is as usual.
pub open spec fn batch_in(p: PrefsView) -> BatchConfig {
    BatchConfig {
        visits: one_up(p.batch_visits),
        side: match p.side() {
            Some(s) => s,
            None => BatchSide::All,
        },
        include_variations: p.batch_variations,
        deepen_enabled: p.batch_deepen,
        deepen_top: if p.batch_deepen_top == 0 {
            1
        } else {
            p.batch_deepen_top
        },
        deepen_visits: one_up(p.batch_deepen_visits),
    }
}

/// What is shown when the program starts, as it is remembered; what makes no sense is as usual.
pub open spec fn panels_in(p: PrefsView) -> Panels {
    Panels {
        overlay: Overlay {
            show_candidates: p.show_candidates,
            show_heat: p.show_heat,
            show_policy: p.show_policy,
            show_moves_heat: p.show_moves_heat,
            show_mistakes: p.show_mistakes,
            show_score_lead: p.show_score_lead,
            show_mini_board: p.show_mini_board,
        },
        curve_open: p.curve_open,
        tree_open: p.tree_open,
        settings_open: false,
        new_game_open: false,
        batch_scan_open: false,
        gating: match p.gating() {
            Some(g) => g,
            None => CandidateGating::Immediate,
        },
        display_view: match p.display() {
            Some(v) => v,
            None => DisplayView::Black,
        },
        batch: batch_in(p),
    }
}

/// The word for when candidates are shown.
pub open spec fn gating_word(g: CandidateGating) -> Seq<char> {
    match g {
        CandidateGating::Immediate => "immediate"@,
        CandidateGating::Delayed { .. } => "delayed"@,
        CandidateGating::Manual => "manual"@,
    }
}

/// The word for the side from which scores are shown.
pub open spec fn view_word(v: DisplayView) -> Seq<char> {
    match v {
        DisplayView::Black => "black"@,
        DisplayView::Alternating => "alternating"@,
    }
}

/// The word for the moves that a scan looks at.
pub open spec fn side_word(s: BatchSide) -> Seq<char> {
    match s {
        BatchSide::All => "all"@,
        BatchSide::BlackOnly => "black"@,
        BatchSide::WhiteOnly => "white"@,
    }
}

/// What is remembered of what is shown; the place of the window and the directories stay.
pub open spec fn remembered(p: Panels, was: PrefsView) -> PrefsView {
    PrefsView {
        show_candidates: p.overlay.show_candidates,
        show_heat: p.overlay.show_heat,
        show_policy: p.overlay.show_policy,
        show_moves_heat: p.overlay.show_moves_heat,
        show_mistakes: p.overlay.show_mistakes,
        show_score_lead: p.overlay.show_score_lead,
        show_mini_board: p.overlay.show_mini_board,
        curve_open: p.curve_open,
        tree_open: p.tree_open,
        candidate_gating: gating_word(p.gating),
        gating_delay_secs: match p.gating {
            CandidateGating::Delayed { secs } => secs,
            _ => was.gating_delay_secs,
        },
        display_view: view_word(p.display_view),
        batch_visits: p.batch.visits,
        batch_side: side_word(p.batch.side),
        batch_variations: p.batch.include_variations,
        batch_deepen: p.batch.deepen_enabled,
        batch_deepen_top: p.batch.deepen_top,
        batch_deepen_visits: p.batch.deepen_visits,
        window_geometry: was.window_geometry,
        last_open_dir: was.last_open_dir,
        last_save_dir: was.last_save_dir,
    }
}

pub(crate) fn word_of_gating(g: CandidateGating) -> (r: &'static str)
    ensures
        r@ == gating_word(g),
{
    match g {
        CandidateGating::Immediate => "immediate",
        CandidateGating::Delayed { .. } => "delayed",
        CandidateGating::Manual => "manual",
    }
}

fn word_of_view(v: DisplayView) -> (r: &'static str)
    ensures
        r@ == view_word(v),
{
    match v {
        DisplayView::Black => "black",
        DisplayView::Alternating => "alternating",
    }
}

fn word_of_side(s: BatchSide) -> (r: &'static str)
    ensures
        r@ == side_word(s),
{
    match s {
        BatchSide::All => "all",
        BatchSide::BlackOnly => "black",
        BatchSide::WhiteOnly => "white",
    }
}

impl BatchConfig {
    /// How the whole game is scanned, as it is remembered.
    pub fn from_prefs(p: &UiPrefs) -> (r: Self)
        ensures
            r == batch_in(p@),
    {
        BatchConfig {
            visits: if p.batch_visits == 0 {
                1
            } else {
                p.batch_visits
            },
            side: match p.batch_side() {
                Some(s) => s,
                None => BatchSide::All,
            },
            include_variations: p.batch_variations,
            deepen_enabled: p.batch_deepen,
            deepen_top: if p.batch_deepen_top == 0 {
                1
            } else {
                p.batch_deepen_top
            },
            deepen_visits: if p.batch_deepen_visits == 0 {
                1
            } else {
                p.batch_deepen_visits
            },
        }
    }
}

impl Panels {
    /// What is shown when the program starts, as it is remembered.
    pub fn from_prefs(p: &UiPrefs) -> (r: Self)
        ensures
            r == panels_in(p@),
    {
        Panels {
            overlay: Overlay {
                show_candidates: p.show_candidates,
                show_heat: p.show_heat,
                show_policy: p.show_policy,
                show_moves_heat: p.show_moves_heat,
                show_mistakes: p.show_mistakes,
                show_score_lead: p.show_score_lead,
                show_mini_board: p.show_mini_board,
            },
            curve_open: p.curve_open,
            tree_open: p.tree_open,
            settings_open: false,
            new_game_open: false,
            batch_scan_open: false,
            gating: match p.gating() {
                Some(g) => g,
                None => CandidateGating::Immediate,
            },
            display_view: match p.display_view() {
                Some(v) => v,
                None => DisplayView::Black,
            },
            batch: BatchConfig::from_prefs(p),
        }
    }

    /// Which layers, panels and windows are shown.
    pub fn toggles(&self) -> (r: Toggles)
        ensures
            r == (Toggles {
                show_candidates: self.overlay.show_candidates,
                show_heat: self.overlay.show_heat,
                show_policy: self.overlay.show_policy,
                show_moves_heat: self.overlay.show_moves_heat,
                show_mistakes: self.overlay.show_mistakes,
                show_score_lead: self.overlay.show_score_lead,
                show_mini_board: self.overlay.show_mini_board,
                curve_open: self.curve_open,
                tree_open: self.tree_open,
                settings_open: self.settings_open,
                new_game_open: self.new_game_open,
            }),
    {
        Toggles {
            show_candidates: self.overlay.show_candidates,
            show_heat: self.overlay.show_heat,
            show_policy: self.overlay.show_policy,
            show_moves_heat: self.overlay.show_moves_heat,
            show_mistakes: self.overlay.show_mistakes,
            show_score_lead: self.overlay.show_score_lead,
            show_mini_board: self.overlay.show_mini_board,
            curve_open: self.curve_open,
            tree_open: self.tree_open,
            settings_open: self.settings_open,
            new_game_open: self.new_game_open,
        }
    }

    /// Takes down what is shown; says whether anything that is remembered has changed.
    pub fn sync_prefs(&self, prefs: &mut UiPrefs) -> (r: bool)
        ensures
            final(prefs)@ == remembered(*self, old(prefs)@),
            r == (final(prefs)@ != old(prefs)@),
    {
        let secs = match self.gating {
            CandidateGating::Delayed { secs } => secs,
            _ => prefs.gating_delay_secs,
        };
        let flags_same = self.overlay.show_candidates == prefs.show_candidates
            && self.overlay.show_heat == prefs.show_heat && self.overlay.show_policy
            == prefs.show_policy && self.overlay.show_moves_heat == prefs.show_moves_heat
            && self.overlay.show_mistakes == prefs.show_mistakes && self.overlay.show_score_lead
            == prefs.show_score_lead && self.overlay.show_mini_board == prefs.show_mini_board
            && self.curve_open == prefs.curve_open && self.tree_open == prefs.tree_open;
        let batch_same = self.batch.visits == prefs.batch_visits && self.batch.include_variations
            == prefs.batch_variations && self.batch.deepen_enabled == prefs.batch_deepen
            && self.batch.deepen_top == prefs.batch_deepen_top && self.batch.deepen_visits
            == prefs.batch_deepen_visits && secs == prefs.gating_delay_secs;
        let words_same = same_text(prefs.candidate_gating.as_str(), word_of_gating(self.gating))
            && same_text(prefs.display_view.as_str(), word_of_view(self.display_view)) && same_text(
            prefs.batch_side.as_str(),
            word_of_side(self.batch.side),
        );
        let ghost was = prefs@;
        self.take_down(prefs, secs);
        proof {
            if flags_same && batch_same && words_same {
                assert(prefs@ =~= was);
            }
        }
        !(flags_same && batch_same && words_same)
    }

    fn take_down(&self, prefs: &mut UiPrefs, secs: u32)
        requires
            secs == match self.gating {
                CandidateGating::Delayed { secs } => secs,
                _ => old(prefs).gating_delay_secs,
            },
        ensures
            final(prefs)@ == remembered(*self, old(prefs)@),
    {
        let window_geometry = prefs.window_geometry.take();
        let last_open_dir = prefs.last_open_dir.take();
        let last_save_dir = prefs.last_save_dir.take();
        *prefs =
        UiPrefs {
            show_candidates: self.overlay.show_candidates,
            show_heat: self.overlay.show_heat,
            show_policy: self.overlay.show_policy,
            show_moves_heat: self.overlay.show_moves_heat,
            show_mistakes: self.overlay.show_mistakes,
            show_score_lead: self.overlay.show_score_lead,
            show_mini_board: self.overlay.show_mini_board,
            curve_open: self.curve_open,
            tree_open: self.tree_open,
            candidate_gating: word_of_gating(self.gating).to_owned(),
            gating_delay_secs: secs,
            display_view: word_of_view(self.display_view).to_owned(),
            batch_visits: self.batch.visits,
            batch_side: word_of_side(self.batch.side).to_owned(),
            batch_variations: self.batch.include_variations,
            batch_deepen: self.batch.deepen_enabled,
            batch_deepen_top: self.batch.deepen_top,
            batch_deepen_visits: self.batch.deepen_visits,
            window_geometry,
            last_open_dir,
            last_save_dir,
        };
    }
}

/// What is shown survives the program, as far as it is remembered: closed windows stay closed,
/// and every count is at least one.
pub proof fn law_panels_survive(p: Panels, was: PrefsView)
    requires
        p.batch.visits > 0,
        p.batch.deepen_top > 0,
        p.batch.deepen_visits > 0,
        p.gating matches CandidateGating::Delayed { secs } ==> secs > 0,
    ensures
        panels_in(remembered(p, was)) == (Panels {
            settings_open: false,
            new_game_open: false,
            batch_scan_open: false,
            ..p
        }),
{
    reveal_strlit("immediate");
    reveal_strlit("delayed");
    reveal_strlit("manual");
    reveal_strlit("black");
    reveal_strlit("alternating");
    reveal_strlit("all");
    reveal_strlit("white");
    assert("immediate"@[0] == 'i' && "delayed"@[0] == 'd' && "manual"@[0] == 'm');
    assert("black"@[0] == 'b' && "alternating"@[0] == 'a' && "white"@[0] == 'w' && "all"@[0] == 'a');
    assert("all"@.len() == 3 && "black"@.len() == 5);
}

// ---- when it is written down ----

/// What is to be done about changes that are not written down yet.
#[derive(Clone, Copy, PartialEq, Eq, Structural, Debug)]
pub struct PrefsStep {
    /// Whether they are written down now.
    pub save: bool,
    /// Since when they rest, if they still do.
    pub since: Option<u64>,
    /// How long to wait until the next look, in milliseconds.
    pub wait: u64,
}

/// How long changes have rested.
pub open spec fn rested(since: u64, now: u64) -> u64 {
    if now > since {
        (now - since) as u64
    } else {
        0
    }
}

/// What is to be done about changes since `since`; `repaint` is when the next look is due anyway.
pub open spec fn prefs_due(since: Option<u64>, now: u64, repaint: u64) -> PrefsStep {
    match since {
        Some(s) => if rested(s, now) >= PREFS_SAVE_DEBOUNCE {
            PrefsStep { save: true, since: None, wait: repaint }
        } else {
            let left = (PREFS_SAVE_DEBOUNCE - rested(s, now)) as u64;
            PrefsStep {
                save: false,
                since,
                wait: if left > repaint {
                    left
                } else {
                    repaint
                },
            }
        },
        None => PrefsStep { save: false, since: None, wait: repaint },
    }
}

/// What is to be done about changes since `since`.
pub fn prefs_step(since: Option<u64>, now: u64, repaint: u64) -> (r: PrefsStep)
    ensures
        r == prefs_due(since, now, repaint),
{
    match since {
        Some(s) => {
            let rest = if now > s {
                now - s
            } else {
                0
            };
            if rest >= PREFS_SAVE_DEBOUNCE {
                PrefsStep { save: true, since: None, wait: repaint }
            } else {
                let left = PREFS_SAVE_DEBOUNCE - rest;
                PrefsStep {
                    save: false,
                    since,
                    wait: if left > repaint {
                        left
                    } else {
                        repaint
                    },
                }
            }
        },
        None => PrefsStep { save: false, since: None, wait: repaint },
    }
}

/// How long until the next look at the window is due, in milliseconds: sooner while the engine
/// works or a game is on.
pub fn repaint_after(engine_busy: bool, game_on: bool) -> (r: u64)
    ensures
        r == if engine_busy || game_on {
            500u64
        } else {
            700u64
        },
{
    if engine_busy || game_on {
        500
    } else {
        700
    }
}

} // verus!
