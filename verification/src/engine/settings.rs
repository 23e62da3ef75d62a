//! The settings: the engine's, those of new games, and what the user interface remembers.
//!
//! Settings are read field by field. A value that makes no sense costs that field only, and a
//! notice says what was done instead; everything else is kept.

use vstd::prelude::*;
use super::config::{Difficulty, Rules};
use super::json::{self, compact_text, lone_field, open_json, read_json, Json, JsonView};
use super::record::{
    self,
    open_record_of,
    read_bool,
    read_number,
    read_opt_text,
    read_part,
    read_text,
    read_whole,
    record_of,
};
use crate::number;
use crate::play::timer::{Seconds, TimeSystem};
use crate::text::{self, chars_of, push_decimal, same_text};

verus! {

// ---- what the user interface remembers ----

/// Where the window was, in numbers as `serde_json` displays them.
#[derive(Debug)]
pub struct WindowGeometry {
    pub width: String,
    pub height: String,
    pub position: Option<(String, String)>,
}

/// The model of [`WindowGeometry`].
#[verifier::ext_equal]
pub struct GeometryView {
    pub width: Seq<char>,
    pub height: Seq<char>,
    pub position: Option<(Seq<char>, Seq<char>)>,
}

impl View for WindowGeometry {
    type V = GeometryView;

    open spec fn view(&self) -> GeometryView {
        GeometryView {
            width: self.width@,
            height: self.height@,
            position: pair_text(self.position),
        }
    }
}

/// The characters of a pair of texts, if there is one.
pub open spec fn pair_text(p: Option<(String, String)>) -> Option<(Seq<char>, Seq<char>)> {
    match p {
        Some((x, y)) => Some((x@, y@)),
        None => None,
    }
}

/// When candidates are shown.
#[derive(Clone, Copy, PartialEq, Eq, Structural, Debug)]
pub enum CandidateGating {
    Immediate,
    Delayed { secs: u32 },
    Manual,
}

/// From whose side scores are shown.
#[derive(Clone, Copy, PartialEq, Eq, Structural, Debug)]
pub enum DisplayView {
    Black,
    Alternating,
}

/// Whose moves a scan of the whole game looks at.
#[derive(Clone, Copy, PartialEq, Eq, Structural, Debug)]
pub enum BatchSide {
    All,
    BlackOnly,
    WhiteOnly,
}

/// What the user interface remembers.
#[derive(Debug)]
pub struct UiPrefs {
    pub show_candidates: bool,
    pub show_heat: bool,
    pub show_policy: bool,
    pub show_moves_heat: bool,
    pub show_mistakes: bool,
    pub show_score_lead: bool,
    pub show_mini_board: bool,
    pub curve_open: bool,
    pub tree_open: bool,
    /// `immediate`, `delayed` or `manual`.
    pub candidate_gating: String,
    pub gating_delay_secs: u32,
    /// `black` or `alternating`.
    pub display_view: String,
    pub batch_visits: u32,
    /// `all`, `black` or `white`.
    pub batch_side: String,
    pub batch_variations: bool,
    pub batch_deepen: bool,
    pub batch_deepen_top: usize,
    pub batch_deepen_visits: u32,
    pub window_geometry: Option<WindowGeometry>,
    pub last_open_dir: Option<String>,
    pub last_save_dir: Option<String>,
}

/// The model of [`UiPrefs`].
#[verifier::ext_equal]
pub struct PrefsView {
    pub show_candidates: bool,
    pub show_heat: bool,
    pub show_policy: bool,
    pub show_moves_heat: bool,
    pub show_mistakes: bool,
    pub show_score_lead: bool,
    pub show_mini_board: bool,
    pub curve_open: bool,
    pub tree_open: bool,
    pub candidate_gating: Seq<char>,
    pub gating_delay_secs: u32,
    pub display_view: Seq<char>,
    pub batch_visits: u32,
    pub batch_side: Seq<char>,
    pub batch_variations: bool,
    pub batch_deepen: bool,
    pub batch_deepen_top: usize,
    pub batch_deepen_visits: u32,
    pub window_geometry: Option<GeometryView>,
    pub last_open_dir: Option<Seq<char>>,
    pub last_save_dir: Option<Seq<char>>,
}

impl View for UiPrefs {
    type V = PrefsView;

    open spec fn view(&self) -> PrefsView {
        PrefsView {
            show_candidates: self.show_candidates,
            show_heat: self.show_heat,
            show_policy: self.show_policy,
            show_moves_heat: self.show_moves_heat,
            show_mistakes: self.show_mistakes,
            show_score_lead: self.show_score_lead,
            show_mini_board: self.show_mini_board,
            curve_open: self.curve_open,
            tree_open: self.tree_open,
            candidate_gating: self.candidate_gating@,
            gating_delay_secs: self.gating_delay_secs,
            display_view: self.display_view@,
            batch_visits: self.batch_visits,
            batch_side: self.batch_side@,
            batch_variations: self.batch_variations,
            batch_deepen: self.batch_deepen,
            batch_deepen_top: self.batch_deepen_top,
            batch_deepen_visits: self.batch_deepen_visits,
            window_geometry: match self.window_geometry {
                Some(g) => Some(g@),
                None => None,
            },
            last_open_dir: record::opt_text(self.last_open_dir),
            last_save_dir: record::opt_text(self.last_save_dir),
        }
    }
}

/// What the user interface starts with.
pub open spec fn first_prefs() -> PrefsView {
    PrefsView {
        show_candidates: true,
        show_heat: true,
        show_policy: false,
        show_moves_heat: false,
        show_mistakes: true,
        show_score_lead: true,
        show_mini_board: false,
        curve_open: true,
        tree_open: false,
        candidate_gating: "immediate"@,
        gating_delay_secs: 3,
        display_view: "black"@,
        batch_visits: 40,
        batch_side: "all"@,
        batch_variations: false,
        batch_deepen: true,
        batch_deepen_top: 10,
        batch_deepen_visits: 300,
        window_geometry: None,
        last_open_dir: None,
        last_save_dir: None,
    }
}

impl PrefsView {
    /// When candidates are shown, where the setting makes sense. A delay is at least a second.
    pub open spec fn gating(self) -> Option<CandidateGating> {
        if self.candidate_gating == "immediate"@ {
            Some(CandidateGating::Immediate)
        } else if self.candidate_gating == "delayed"@ {
            Some(
                CandidateGating::Delayed {
                    secs: if self.gating_delay_secs == 0 {
                        1
                    } else {
                        self.gating_delay_secs
                    },
                },
            )
        } else if self.candidate_gating == "manual"@ {
            Some(CandidateGating::Manual)
        } else {
            None
        }
    }

    /// From whose side scores are shown, where the setting makes sense.
    pub open spec fn display(self) -> Option<DisplayView> {
        if self.display_view == "black"@ {
            Some(DisplayView::Black)
        } else if self.display_view == "alternating"@ {
            Some(DisplayView::Alternating)
        } else {
            None
        }
    }

    /// Whose moves a scan looks at, where the setting makes sense.
    pub open spec fn side(self) -> Option<BatchSide> {
        if self.batch_side == "all"@ {
            Some(BatchSide::All)
        } else if self.batch_side == "black"@ {
            Some(BatchSide::BlackOnly)
        } else if self.batch_side == "white"@ {
            Some(BatchSide::WhiteOnly)
        } else {
            None
        }
    }
}

impl Default for UiPrefs {
    fn default() -> (r: Self)
        ensures
            r@ == first_prefs(),
    {
        UiPrefs {
            show_candidates: true,
            show_heat: true,
            show_policy: false,
            show_moves_heat: false,
            show_mistakes: true,
            show_score_lead: true,
            show_mini_board: false,
            curve_open: true,
            tree_open: false,
            candidate_gating: "immediate".to_owned(),
            gating_delay_secs: 3,
            display_view: "black".to_owned(),
            batch_visits: 40,
            batch_side: "all".to_owned(),
            batch_variations: false,
            batch_deepen: true,
            batch_deepen_top: 10,
            batch_deepen_visits: 300,
            window_geometry: None,
            last_open_dir: None,
            last_save_dir: None,
        }
    }
}

impl UiPrefs {
    /// When candidates are shown, where the setting makes sense. A delay is at least a second.
    pub fn gating(&self) -> (r: Option<CandidateGating>)
        ensures
            r == self@.gating(),
    {
        let s = self.candidate_gating.as_str();
        if same_text(s, "immediate") {
            Some(CandidateGating::Immediate)
        } else if same_text(s, "delayed") {
            let secs = if self.gating_delay_secs == 0 {
                1
            } else {
                self.gating_delay_secs
            };
            Some(CandidateGating::Delayed { secs })
        } else if same_text(s, "manual") {
            Some(CandidateGating::Manual)
        } else {
            None
        }
    }

    /// From whose side scores are shown, where the setting makes sense.
    pub fn display_view(&self) -> (r: Option<DisplayView>)
        ensures
            r == self@.display(),
    {
        let s = self.display_view.as_str();
        if same_text(s, "black") {
            Some(DisplayView::Black)
        } else if same_text(s, "alternating") {
            Some(DisplayView::Alternating)
        } else {
            None
        }
    }

    /// Whose moves a scan looks at, where the setting makes sense.
    pub fn batch_side(&self) -> (r: Option<BatchSide>)
        ensures
            r == self@.side(),
    {
        let s = self.batch_side.as_str();
        if same_text(s, "all") {
            Some(BatchSide::All)
        } else if same_text(s, "black") {
            Some(BatchSide::BlackOnly)
        } else if same_text(s, "white") {
            Some(BatchSide::WhiteOnly)
        } else {
            None
        }
    }
}

// ---- all settings ----

/// The settings.
#[derive(Debug)]
pub struct EngineConfig {
    /// The engine.
    pub engine_path: String,
    /// The network; `None` where none is chosen.
    pub model_path: Option<String>,
    /// Where networks are looked for.
    pub weights_dir: String,
    /// The visits of an analysis.
    pub visits: u32,
    /// The engine's search threads.
    pub search_threads: u32,
    /// The engine's configuration file; `None` for the usual one.
    pub analysis_cfg: Option<String>,
    /// How strong the engine plays.
    pub play_difficulty: Difficulty,
    /// The rules of an analysis; `None` for those of the record.
    pub rules: Option<String>,
    /// The time limit of new games.
    pub time_system: TimeSystem,
    /// The rules of new games.
    pub new_game_rules: Rules,
    pub ui_prefs: UiPrefs,
}

/// The model of [`EngineConfig`].
#[verifier::ext_equal]
pub struct ConfigView {
    pub engine_path: Seq<char>,
    pub model_path: Option<Seq<char>>,
    pub weights_dir: Seq<char>,
    pub visits: u32,
    pub search_threads: u32,
    pub analysis_cfg: Option<Seq<char>>,
    pub play_difficulty: Difficulty,
    pub rules: Option<Seq<char>>,
    pub time_system: TimeSystem,
    pub new_game_rules: Rules,
    pub ui_prefs: PrefsView,
}

impl View for EngineConfig {
    type V = ConfigView;

    open spec fn view(&self) -> ConfigView {
        ConfigView {
            engine_path: self.engine_path@,
            model_path: record::opt_text(self.model_path),
            weights_dir: self.weights_dir@,
            visits: self.visits,
            search_threads: self.search_threads,
            analysis_cfg: record::opt_text(self.analysis_cfg),
            play_difficulty: self.play_difficulty,
            rules: record::opt_text(self.rules),
            time_system: self.time_system,
            new_game_rules: self.new_game_rules,
            ui_prefs: self.ui_prefs@,
        }
    }
}

/// The settings that there are without a file, for what was found on the machine.
pub open spec fn first_settings(
    engine_path: Seq<char>,
    model_path: Option<Seq<char>>,
    weights_dir: Seq<char>,
    search_threads: u32,
) -> ConfigView {
    ConfigView {
        engine_path,
        model_path,
        weights_dir,
        visits: 300,
        search_threads,
        analysis_cfg: None,
        play_difficulty: Difficulty::Medium,
        rules: None,
        time_system: TimeSystem::Unlimited,
        new_game_rules: Rules::Chinese,
        ui_prefs: first_prefs(),
    }
}

impl EngineConfig {
    /// The settings that there are without a file, for what was found on the machine.
    pub fn found(
        engine_path: String,
        model_path: Option<String>,
        weights_dir: String,
        search_threads: u32,
    ) -> (r: Self)
        ensures
            r@ == first_settings(
                engine_path@,
                record::opt_text(model_path),
                weights_dir@,
                search_threads,
            ),
    {
        EngineConfig {
            engine_path,
            model_path,
            weights_dir,
            visits: 300,
            search_threads,
            analysis_cfg: None,
            play_difficulty: Difficulty::Medium,
            rules: None,
            time_system: TimeSystem::Unlimited,
            new_game_rules: Rules::Chinese,
            ui_prefs: UiPrefs::default(),
        }
    }
}

// ---- times ----

/// The number of seconds that a text is; `None` where it is no number or too large for one.
pub open spec fn seconds_in(s: Seq<char>) -> Option<Seconds> {
    match number::number_in(s) {
        Some(n) => match number::rounded(n) {
            Some(d) => Some(Seconds::of(d)),
            None => None,
        },
        None => None,
    }
}

/// The number of seconds that a text is.
pub fn read_seconds(s: &str) -> (r: Option<Seconds>)
    ensures
        r == seconds_in(s@),
{
    let n = match number::read_double(s) {
        Some(n) => n,
        None => {
            return None;
        },
    };
    if n.digits.len() == 0 {
        return Some(Seconds { neg: false, digits: 0, power: 0 });
    }
    let len = n.digits.len();
    let digits = match text::parse_unsigned(&n.digits, u64::MAX) {
        Some(v) => v,
        None => u64::MAX,
    };
    Some(Seconds { neg: n.neg, digits, power: (n.point - len as i128) as i32 })
}

// ---- the place of a window ----

/// A pair of numbers or null, which it also is without a value; `None` where it is something else.
pub open spec fn place_part(j: JsonView, place: int, key: Seq<char>) -> Option<
    Option<(Seq<char>, Seq<char>)>,
> {
    match json::part(j, place, key) {
        None => Some(None),
        Some(raw) => match json::read(raw) {
            Some(JsonView::Null) => Some(None),
            Some(v) => if v is Array && record::is_record(v, 2) {
                match (record::number_part(v, 0, ""@), record::number_part(v, 1, ""@)) {
                    (Some(x), Some(y)) => Some(Some((x, y))),
                    _ => None,
                }
            } else {
                None
            },
            None => None,
        },
    }
}

fn read_place(j: &Json, place: usize, key: &str) -> (r: Option<Option<(String, String)>>)
    ensures
        match place_part(j@, place as int, key@) {
            Some(None) => r matches Some(None),
            Some(Some((x, y))) => r matches Some(Some((a, b))) && a@ == x && b@ == y,
            None => r is None,
        },
{
    match read_part(j, place, key) {
        None => Some(None),
        Some(Some(Json::Null)) => Some(None),
        Some(Some(Json::Array(items))) => {
            let v = Json::Array(items);
            if !record_of(&v, 2) {
                return None;
            }
            match (read_number(&v, 0, ""), read_number(&v, 1, "")) {
                (Some(x), Some(y)) => Some(Some((x, y))),
                _ => None,
            }
        },
        _ => None,
    }
}

/// The place of a window that a value describes.
pub open spec fn geometry_read(j: JsonView) -> Option<GeometryView> {
    if !record::is_record(j, 3) {
        None
    } else {
        match (record::number_part(j, 0, "width"@), record::number_part(j, 1, "height"@), place_part(j, 2, "position"@)) {
            (Some(width), Some(height), Some(position)) => Some(
                GeometryView { width, height, position },
            ),
            _ => None,
        }
    }
}

/// The place of a window or null, which it also is without a value; `None` where it is something
/// else.
pub open spec fn geometry_part(j: JsonView, place: int, key: Seq<char>) -> Option<
    Option<GeometryView>,
> {
    match json::part(j, place, key) {
        None => Some(None),
        Some(raw) => match json::read(raw) {
            Some(JsonView::Null) => Some(None),
            Some(v) => match geometry_read(v) {
                Some(g) => Some(Some(g)),
                None => None,
            },
            None => None,
        },
    }
}

fn read_geometry(j: &Json, place: usize, key: &str) -> (r: Option<Option<WindowGeometry>>)
    ensures
        match geometry_part(j@, place as int, key@) {
            Some(None) => r matches Some(None),
            Some(Some(g)) => r matches Some(Some(x)) && x@ == g,
            None => r is None,
        },
{
    let v = match read_part(j, place, key) {
        None => {
            return Some(None);
        },
        Some(Some(Json::Null)) => {
            return Some(None);
        },
        Some(Some(v)) => v,
        Some(None) => {
            return None;
        },
    };
    if !record_of(&v, 3) {
        return None;
    }
    match (
        read_number(&v, 0, "width"),
        read_number(&v, 1, "height"),
        read_place(&v, 2, "position"),
    ) {
        (Some(width), Some(height), Some(position)) => Some(
            Some(WindowGeometry { width, height, position }),
        ),
        _ => None,
    }
}

/// What the user interface remembers, by a value; `None` where a part of it makes no sense.
pub open spec fn prefs_read(j: JsonView) -> Option<PrefsView> {
    let shape = record::is_open_record(j, 21);
    let show_candidates = record::bool_part(j, 0, "show_candidates"@, first_prefs().show_candidates);
    let show_heat = record::bool_part(j, 1, "show_heat"@, first_prefs().show_heat);
    let show_policy = record::bool_part(j, 2, "show_policy"@, first_prefs().show_policy);
    let show_moves_heat = record::bool_part(j, 3, "show_moves_heat"@, first_prefs().show_moves_heat);
    let show_mistakes = record::bool_part(j, 4, "show_mistakes"@, first_prefs().show_mistakes);
    let show_score_lead = record::bool_part(j, 5, "show_score_lead"@, first_prefs().show_score_lead);
    let show_mini_board = record::bool_part(j, 6, "show_mini_board"@, first_prefs().show_mini_board);
    let curve_open = record::bool_part(j, 7, "curve_open"@, first_prefs().curve_open);
    let tree_open = record::bool_part(j, 8, "tree_open"@, first_prefs().tree_open);
    let candidate_gating = record::text_part(j, 9, "candidate_gating"@, first_prefs().candidate_gating);
    let gating_delay_secs = record::whole_part(j, 10, "gating_delay_secs"@, u32::MAX as nat, first_prefs().gating_delay_secs as nat);
    let display_view = record::text_part(j, 11, "display_view"@, first_prefs().display_view);
    let batch_visits = record::whole_part(j, 12, "batch_visits"@, u32::MAX as nat, first_prefs().batch_visits as nat);
    let batch_side = record::text_part(j, 13, "batch_side"@, first_prefs().batch_side);
    let batch_variations = record::bool_part(j, 14, "batch_variations"@, first_prefs().batch_variations);
    let batch_deepen = record::bool_part(j, 15, "batch_deepen"@, first_prefs().batch_deepen);
    let batch_deepen_top = record::whole_part(j, 16, "batch_deepen_top"@, usize::MAX as nat, first_prefs().batch_deepen_top as nat);
    let batch_deepen_visits = record::whole_part(j, 17, "batch_deepen_visits"@, u32::MAX as nat, first_prefs().batch_deepen_visits as nat);
    let window_geometry = geometry_part(j, 18, "window_geometry"@);
    let last_open_dir = record::opt_text_part(j, 19, "last_open_dir"@);
    let last_save_dir = record::opt_text_part(j, 20, "last_save_dir"@);
    if shape && show_candidates is Some && show_heat is Some && show_policy is Some
        && show_moves_heat is Some && show_mistakes is Some && show_score_lead is Some
        && show_mini_board is Some && curve_open is Some && tree_open is Some
        && candidate_gating is Some && gating_delay_secs is Some && display_view is Some
        && batch_visits is Some && batch_side is Some && batch_variations is Some
        && batch_deepen is Some && batch_deepen_top is Some && batch_deepen_visits is Some
        && window_geometry is Some && last_open_dir is Some && last_save_dir is Some {
        Some(
            PrefsView {
                show_candidates: show_candidates->0,
                show_heat: show_heat->0,
                show_policy: show_policy->0,
                show_moves_heat: show_moves_heat->0,
                show_mistakes: show_mistakes->0,
                show_score_lead: show_score_lead->0,
                show_mini_board: show_mini_board->0,
                curve_open: curve_open->0,
                tree_open: tree_open->0,
                candidate_gating: candidate_gating->0,
                gating_delay_secs: gating_delay_secs->0 as u32,
                display_view: display_view->0,
                batch_visits: batch_visits->0 as u32,
                batch_side: batch_side->0,
                batch_variations: batch_variations->0,
                batch_deepen: batch_deepen->0,
                batch_deepen_top: batch_deepen_top->0 as usize,
                batch_deepen_visits: batch_deepen_visits->0 as u32,
                window_geometry: window_geometry->0,
                last_open_dir: last_open_dir->0,
                last_save_dir: last_save_dir->0,
            },
        )
    } else {
        None
    }
}

/// What the user interface remembers, by a value; `None` where a part of it makes no sense.
pub fn prefs_of(j: &Json) -> (r: Option<UiPrefs>)
    ensures
        match prefs_read(j@) {
            Some(p) => r matches Some(x) && x@ == p,
            None => r is None,
        },
{
    if !open_record_of(j, 21) {
        return None;
    }
    let show_candidates = match read_bool(j, 0, "show_candidates", true) {
        Some(x) => x,
        None => {
            return None;
        },
    };
    let show_heat = match read_bool(j, 1, "show_heat", true) {
        Some(x) => x,
        None => {
            return None;
        },
    };
    let show_policy = match read_bool(j, 2, "show_policy", false) {
        Some(x) => x,
        None => {
            return None;
        },
    };
    let show_moves_heat = match read_bool(j, 3, "show_moves_heat", false) {
        Some(x) => x,
        None => {
            return None;
        },
    };
    let show_mistakes = match read_bool(j, 4, "show_mistakes", true) {
        Some(x) => x,
        None => {
            return None;
        },
    };
    let show_score_lead = match read_bool(j, 5, "show_score_lead", true) {
        Some(x) => x,
        None => {
            return None;
        },
    };
    let show_mini_board = match read_bool(j, 6, "show_mini_board", false) {
        Some(x) => x,
        None => {
            return None;
        },
    };
    let curve_open = match read_bool(j, 7, "curve_open", true) {
        Some(x) => x,
        None => {
            return None;
        },
    };
    let tree_open = match read_bool(j, 8, "tree_open", false) {
        Some(x) => x,
        None => {
            return None;
        },
    };
    let candidate_gating = match read_text(j, 9, "candidate_gating", "immediate") {
        Some(x) => x,
        None => {
            return None;
        },
    };
    let gating_delay_secs = match read_whole(j, 10, "gating_delay_secs", u32::MAX as u64, 3) {
        Some(x) => x,
        None => {
            return None;
        },
    };
    let display_view = match read_text(j, 11, "display_view", "black") {
        Some(x) => x,
        None => {
            return None;
        },
    };
    let batch_visits = match read_whole(j, 12, "batch_visits", u32::MAX as u64, 40) {
        Some(x) => x,
        None => {
            return None;
        },
    };
    let batch_side = match read_text(j, 13, "batch_side", "all") {
        Some(x) => x,
        None => {
            return None;
        },
    };
    let batch_variations = match read_bool(j, 14, "batch_variations", false) {
        Some(x) => x,
        None => {
            return None;
        },
    };
    let batch_deepen = match read_bool(j, 15, "batch_deepen", true) {
        Some(x) => x,
        None => {
            return None;
        },
    };
    let batch_deepen_top = match read_whole(j, 16, "batch_deepen_top", usize::MAX as u64, 10) {
        Some(x) => x,
        None => {
            return None;
        },
    };
    let batch_deepen_visits = match read_whole(j, 17, "batch_deepen_visits", u32::MAX as u64, 300) {
        Some(x) => x,
        None => {
            return None;
        },
    };
    let window_geometry = match read_geometry(j, 18, "window_geometry") {
        Some(x) => x,
        None => {
            return None;
        },
    };
    let last_open_dir = match read_opt_text(j, 19, "last_open_dir") {
        Some(x) => x,
        None => {
            return None;
        },
    };
    let last_save_dir = match read_opt_text(j, 20, "last_save_dir") {
        Some(x) => x,
        None => {
            return None;
        },
    };
    Some(
        UiPrefs {
            show_candidates,
            show_heat,
            show_policy,
            show_moves_heat,
            show_mistakes,
            show_score_lead,
            show_mini_board,
            curve_open,
            tree_open,
            candidate_gating,
            gating_delay_secs: gating_delay_secs as u32,
            display_view,
            batch_visits: batch_visits as u32,
            batch_side,
            batch_variations,
            batch_deepen,
            batch_deepen_top: batch_deepen_top as usize,
            batch_deepen_visits: batch_deepen_visits as u32,
            window_geometry,
            last_open_dir,
            last_save_dir,
        },
    )
}

// ---- fields of the settings ----

/// What is said of a value that makes no sense.
pub open spec fn unclear(key: Seq<char>, raw: Seq<char>, instead: Seq<char>) -> Seq<char> {
    "「"@ + key + "」的值 "@ + raw + " 无法识别，"@ + instead
}

/// What is said of a setting that makes no sense; `raw` is how its value is shown.
pub fn unclear_text(key: &str, raw: &str, instead: &str) -> (r: String)
    ensures
        r@ == unclear(key@, raw@, instead@),
{
    let mut out = "「".to_owned();
    out.append(key);
    out.append("」的值 ");
    out.append(raw);
    out.append(" 无法识别，");
    out.append(instead);
    out
}

/// A path: the one that there is, or another one and a notice where it makes no sense.
pub open spec fn path_field(j: JsonView, key: Seq<char>, d: Seq<char>, instead: Seq<char>) -> (
    Seq<char>,
    Option<Seq<char>>,
) {
    match json::field(j, key) {
        None => (d, None),
        Some(raw) => match json::read(raw) {
            Some(JsonView::Text(s)) => (s, None),
            _ => (d, Some(unclear(key, json::compact(raw), instead))),
        },
    }
}

fn keep_path(j: &Json, key: &str, d: &str, instead: &str) -> (r: (String, Option<String>))
    ensures
        (r.0@, record::opt_text(r.1)) == path_field(j@, key@, d@, instead@),
{
    match j.get(key) {
        None => (d.to_owned(), None),
        Some(raw) => match open_json(raw.as_str()) {
            Some(Json::Text(s)) => (s, None),
            _ => (d.to_owned(), Some(unclear_text(key, compact_text(raw.as_str()).as_str(), instead))),
        },
    }
}

/// A text that there need not be: without one and for null what there is otherwise, and none and a
/// notice where it makes no sense.
pub open spec fn opt_field(
    j: JsonView,
    key: Seq<char>,
    d: Option<Seq<char>>,
    instead: Seq<char>,
) -> (Option<Seq<char>>, Option<Seq<char>>) {
    match json::field(j, key) {
        None => (d, None),
        Some(raw) => match json::read(raw) {
            Some(JsonView::Null) => (d, None),
            Some(JsonView::Text(s)) => (Some(s), None),
            _ => (None, Some(unclear(key, json::compact(raw), instead))),
        },
    }
}

fn copy_opt(s: &Option<String>) -> (r: Option<String>)
    ensures
        record::opt_text(r) == record::opt_text(*s),
{
    match s {
        Some(x) => Some(x.clone()),
        None => None,
    }
}

fn keep_opt(j: &Json, key: &str, d: &Option<String>, instead: &str) -> (r: (
    Option<String>,
    Option<String>,
))
    ensures
        (record::opt_text(r.0), record::opt_text(r.1)) == opt_field(j@, key@, record::opt_text(*d), instead@),
{
    match j.get(key) {
        None => (copy_opt(d), None),
        Some(raw) => match open_json(raw.as_str()) {
            Some(Json::Null) => (copy_opt(d), None),
            Some(Json::Text(s)) => (Some(s), None),
            _ => (None, Some(unclear_text(key, compact_text(raw.as_str()).as_str(), instead))),
        },
    }
}

/// A number, or a fixed one and a notice where it makes no sense.
pub open spec fn u32_field(j: JsonView, key: Seq<char>, d: u32, fixed: u32, instead: Seq<char>) -> (
    u32,
    Option<Seq<char>>,
) {
    match json::field(j, key) {
        None => (d, None),
        Some(raw) => match json::read(raw) {
            Some(v) => match json::whole(v, u32::MAX as nat) {
                Some(n) => (n as u32, None),
                None => (fixed, Some(unclear(key, json::compact(raw), instead))),
            },
            None => (fixed, Some(unclear(key, json::compact(raw), instead))),
        },
    }
}

fn keep_u32(j: &Json, key: &str, d: u32, fixed: u32, instead: &str) -> (r: (u32, Option<String>))
    ensures
        (r.0, record::opt_text(r.1)) == u32_field(j@, key@, d, fixed, instead@),
{
    match j.get(key) {
        None => (d, None),
        Some(raw) => {
            if let Some(v) = open_json(raw.as_str()) {
                if let Some(n) = v.as_whole(u32::MAX as u64) {
                    return (n as u32, None);
                }
            }
            (fixed, Some(unclear_text(key, compact_text(raw.as_str()).as_str(), instead)))
        },
    }
}

/// The difficulty that a value names.
pub open spec fn difficulty_read(j: JsonView) -> Option<Difficulty> {
    match json::variant_name(j) {
        None => None,
        Some(s) => if s == "Beginner"@ {
            Some(Difficulty::Beginner)
        } else if s == "Easy"@ {
            Some(Difficulty::Easy)
        } else if s == "Medium"@ {
            Some(Difficulty::Medium)
        } else if s == "Strong"@ {
            Some(Difficulty::Strong)
        } else if s == "Max"@ {
            Some(Difficulty::Max)
        } else {
            None
        },
    }
}

/// The difficulty that a value names.
pub fn difficulty_of(j: &Json) -> (r: Option<Difficulty>)
    ensures
        r == difficulty_read(j@),
{
    let s = match j.as_variant() {
        Some(s) => s,
        None => {
            return None;
        },
    };
    let s = s.as_str();
    if same_text(s, "Beginner") {
        Some(Difficulty::Beginner)
    } else if same_text(s, "Easy") {
        Some(Difficulty::Easy)
    } else if same_text(s, "Medium") {
        Some(Difficulty::Medium)
    } else if same_text(s, "Strong") {
        Some(Difficulty::Strong)
    } else if same_text(s, "Max") {
        Some(Difficulty::Max)
    } else {
        None
    }
}

/// The rules that a value names.
pub open spec fn rules_read(j: JsonView) -> Option<Rules> {
    match json::variant_name(j) {
        None => None,
        Some(s) => if s == "chinese"@ {
            Some(Rules::Chinese)
        } else if s == "japanese"@ {
            Some(Rules::Japanese)
        } else if s == "korean"@ {
            Some(Rules::Korean)
        } else if s == "aga"@ {
            Some(Rules::Aga)
        } else if s == "newzealand"@ {
            Some(Rules::NewZealand)
        } else if s == "tromptaylor"@ {
            Some(Rules::TrompTaylor)
        } else {
            None
        },
    }
}

/// The rules that a value names.
pub fn new_game_rules_of(j: &Json) -> (r: Option<Rules>)
    ensures
        r == rules_read(j@),
{
    let s = match j.as_variant() {
        Some(s) => s,
        None => {
            return None;
        },
    };
    let s = s.as_str();
    if same_text(s, "chinese") {
        Some(Rules::Chinese)
    } else if same_text(s, "japanese") {
        Some(Rules::Japanese)
    } else if same_text(s, "korean") {
        Some(Rules::Korean)
    } else if same_text(s, "aga") {
        Some(Rules::Aga)
    } else if same_text(s, "newzealand") {
        Some(Rules::NewZealand)
    } else if same_text(s, "tromptaylor") {
        Some(Rules::TrompTaylor)
    } else {
        None
    }
}

/// The time limit with a name and parts.
pub open spec fn limit_read(name: Seq<char>, j: JsonView) -> Option<TimeSystem> {
    if name == "Absolute"@ && record::is_record(j, 1) {
        match record::number_part(j, 0, "seconds"@) {
            Some(s) => match seconds_in(s) {
                Some(seconds) => Some(TimeSystem::Absolute { seconds }),
                None => None,
            },
            None => None,
        }
    } else if name == "Byoyomi"@ && record::is_record(j, 3) {
        match (
            record::number_part(j, 0, "main_seconds"@),
            record::number_part(j, 1, "period_seconds"@),
            record::number_part(j, 2, "periods"@),
        ) {
            (Some(m), Some(p), Some(n)) => match (
                seconds_in(m),
                seconds_in(p),
                text::parsed_unsigned(n, u32::MAX as nat),
            ) {
                (Some(main_seconds), Some(period_seconds), Some(k)) => Some(
                    TimeSystem::Byoyomi { main_seconds, period_seconds, periods: k as u32 },
                ),
                _ => None,
            },
            _ => None,
        }
    } else {
        None
    }
}

/// The time limit that a value describes.
pub open spec fn time_read(j: JsonView) -> Option<TimeSystem> {
    if json::variant_name(j) == Some("Unlimited"@) {
        Some(TimeSystem::Unlimited)
    } else {
        match j {
            JsonView::Object(fields) => match json::lone(fields) {
                Some((name, raw)) => match json::read(raw) {
                    Some(v) => limit_read(name, v),
                    None => None,
                },
                None => None,
            },
            _ => None,
        }
    }
}

/// The time limit with a name and parts.
pub fn limit_of(name: &str, j: &Json) -> (r: Option<TimeSystem>)
    ensures
        r == limit_read(name@, j@),
{
    if same_text(name, "Absolute") && record_of(j, 1) {
        match read_number(j, 0, "seconds") {
            Some(s) => match read_seconds(s.as_str()) {
                Some(seconds) => Some(TimeSystem::Absolute { seconds }),
                None => None,
            },
            None => None,
        }
    } else if same_text(name, "Byoyomi") && record_of(j, 3) {
        match (
            read_number(j, 0, "main_seconds"),
            read_number(j, 1, "period_seconds"),
            read_number(j, 2, "periods"),
        ) {
            (Some(m), Some(p), Some(n)) => match (
                read_seconds(m.as_str()),
                read_seconds(p.as_str()),
                text::parse_unsigned(&chars_of(n.as_str()), u32::MAX as u64),
            ) {
                (Some(main_seconds), Some(period_seconds), Some(k)) => Some(
                    TimeSystem::Byoyomi { main_seconds, period_seconds, periods: k as u32 },
                ),
                _ => None,
            },
            _ => None,
        }
    } else {
        None
    }
}

/// The time limit that a value describes.
pub fn time_system_of(j: &Json) -> (r: Option<TimeSystem>)
    ensures
        r == time_read(j@),
{
    if let Some(name) = j.as_variant() {
        if same_text(name.as_str(), "Unlimited") {
            return Some(TimeSystem::Unlimited);
        }
    }
    match j {
        Json::Object(fields) => {
            match lone_field(fields) {
                Some(m) => match open_json(m.1.as_str()) {
                    Some(v) => limit_of(m.0.as_str(), &v),
                    None => None,
                },
                None => None,
            }
        },
        _ => None,
    }
}

/// A value of a kind with a fixed choice: the one that there is, or another one and a notice.
pub open spec fn difficulty_field(j: JsonView, d: Difficulty) -> (Difficulty, Option<Seq<char>>) {
    match json::field(j, "play_difficulty"@) {
        None => (d, None),
        Some(raw) => match json::read(raw) {
            Some(v) if difficulty_read(v) is Some => (difficulty_read(v)->0, None),
            _ => (
                Difficulty::Medium,
                Some(unclear("play_difficulty"@, json::compact(raw), "已按默认「\"Medium\"」处理"@)),
            ),
        },
    }
}

/// The rules of new games, or the usual ones and a notice.
pub open spec fn rules_field(j: JsonView, d: Rules) -> (Rules, Option<Seq<char>>) {
    match json::field(j, "new_game_rules"@) {
        None => (d, None),
        Some(raw) => match json::read(raw) {
            Some(v) if rules_read(v) is Some => (rules_read(v)->0, None),
            _ => (
                Rules::Chinese,
                Some(unclear("new_game_rules"@, json::compact(raw), "已按默认「\"chinese\"」处理"@)),
            ),
        },
    }
}

/// The time limit of new games, or none and a notice.
pub open spec fn time_field(j: JsonView, d: TimeSystem) -> (TimeSystem, Option<Seq<char>>) {
    match json::field(j, "time_system"@) {
        None => (d, None),
        Some(raw) => match json::read(raw) {
            Some(v) if time_read(v) is Some => (time_read(v)->0, None),
            _ => (
                TimeSystem::Unlimited,
                Some(unclear("time_system"@, json::compact(raw), "已按无限制「\"Unlimited\"」处理"@)),
            ),
        },
    }
}

fn keep_difficulty(j: &Json, d: Difficulty) -> (r: (Difficulty, Option<String>))
    ensures
        (r.0, record::opt_text(r.1)) == difficulty_field(j@, d),
{
    match j.get("play_difficulty") {
        None => (d, None),
        Some(raw) => {
            if let Some(v) = open_json(raw.as_str()) {
                if let Some(x) = difficulty_of(&v) {
                    return (x, None);
                }
            }
            let notice = unclear_text(
                "play_difficulty",
                compact_text(raw.as_str()).as_str(),
                "已按默认「\"Medium\"」处理",
            );
            (Difficulty::Medium, Some(notice))
        },
    }
}

fn keep_rules(j: &Json, d: Rules) -> (r: (Rules, Option<String>))
    ensures
        (r.0, record::opt_text(r.1)) == rules_field(j@, d),
{
    match j.get("new_game_rules") {
        None => (d, None),
        Some(raw) => {
            if let Some(v) = open_json(raw.as_str()) {
                if let Some(x) = new_game_rules_of(&v) {
                    return (x, None);
                }
            }
            let notice = unclear_text(
                "new_game_rules",
                compact_text(raw.as_str()).as_str(),
                "已按默认「\"chinese\"」处理",
            );
            (Rules::Chinese, Some(notice))
        },
    }
}

fn keep_time(j: &Json, d: TimeSystem) -> (r: (TimeSystem, Option<String>))
    ensures
        (r.0, record::opt_text(r.1)) == time_field(j@, d),
{
    match j.get("time_system") {
        None => (d, None),
        Some(raw) => {
            if let Some(v) = open_json(raw.as_str()) {
                if let Some(x) = time_system_of(&v) {
                    return (x, None);
                }
            }
            let notice = unclear_text(
                "time_system",
                compact_text(raw.as_str()).as_str(),
                "已按无限制「\"Unlimited\"」处理",
            );
            (TimeSystem::Unlimited, Some(notice))
        },
    }
}

/// What a text looks like in quotes, as `Debug` writes it.
pub uninterp spec fn quoted_text(s: Seq<char>) -> Seq<char>;

/// The `Debug` form of a text: in quotes, with escapes. The contract only names the result.
#[verifier::external_body]
fn quote_text(s: &str) -> (r: String)
    ensures
        r@ == quoted_text(s@),
{
    format!("{:?}", s)
}

/// A list of notices with one more, where there is one.
pub open spec fn noted(ns: Seq<Seq<char>>, n: Option<Seq<char>>) -> Seq<Seq<char>> {
    match n {
        Some(s) => ns.push(s),
        None => ns,
    }
}

/// The texts of a list of notices.
pub open spec fn texts(v: Seq<String>) -> Seq<Seq<char>> {
    v.map_values(|s: String| s@)
}

fn note(notices: &mut Vec<String>, n: Option<String>)
    ensures
        texts(final(notices)@) == noted(texts(old(notices)@), record::opt_text(n)),
{
    let ghost before = notices@;
    if let Some(s) = n {
        notices.push(s);
        assert(texts(notices@) =~= texts(before).push(s@));
    }
}

/// The choice of when candidates are shown put right, and what is said of it; `quoted` is what a text looks like in quotes.
pub open spec fn gating_settled(p: PrefsView, quoted: spec_fn(Seq<char>) -> Seq<char>) -> (
    PrefsView,
    Option<Seq<char>>,
) {
    if p.gating() is Some {
        (p, None)
    } else {
        (
            PrefsView { candidate_gating: "immediate"@, ..p },
            Some(
                unclear("ui_prefs.candidate_gating"@, quoted(p.candidate_gating), "已按默认「immediate」处理"@),
            ),
        )
    }
}

/// The choice of from whose side scores are shown put right, and what is said of it; `quoted` is what a text looks like in quotes.
pub open spec fn display_settled(p: PrefsView, quoted: spec_fn(Seq<char>) -> Seq<char>) -> (
    PrefsView,
    Option<Seq<char>>,
) {
    if p.display() is Some {
        (p, None)
    } else {
        (
            PrefsView { display_view: "black"@, ..p },
            Some(
                unclear("ui_prefs.display_view"@, quoted(p.display_view), "已按默认「black」处理"@),
            ),
        )
    }
}

/// The choice of whose moves a scan looks at put right, and what is said of it; `quoted` is what a text looks like in quotes.
pub open spec fn side_settled(p: PrefsView, quoted: spec_fn(Seq<char>) -> Seq<char>) -> (
    PrefsView,
    Option<Seq<char>>,
) {
    if p.side() is Some {
        (p, None)
    } else {
        (
            PrefsView { batch_side: "all"@, ..p },
            Some(
                unclear("ui_prefs.batch_side"@, quoted(p.batch_side), "已按默认「all」处理"@),
            ),
        )
    }
}

/// What the user interface remembers, with its choices put right, and what is said of them.
pub open spec fn prefs_settled(p: PrefsView, quoted: spec_fn(Seq<char>) -> Seq<char>) -> (
    PrefsView,
    Seq<Seq<char>>,
) {
    let (p1, n1) = gating_settled(p, quoted);
    let (p2, n2) = display_settled(p1, quoted);
    let (p3, n3) = side_settled(p2, quoted);
    (p3, noted(noted(noted(Seq::empty(), n1), n2), n3))
}

fn settle_gating(prefs: &mut UiPrefs) -> (r: Option<String>)
    ensures
        (final(prefs)@, record::opt_text(r)) == gating_settled(old(prefs)@, |s: Seq<char>| quoted_text(s)),
{
    if prefs.gating().is_some() {
        return None;
    }
    let shown = quote_text(prefs.candidate_gating.as_str());
    prefs.candidate_gating = "immediate".to_owned();
    Some(unclear_text("ui_prefs.candidate_gating", shown.as_str(), "已按默认「immediate」处理"))
}

fn settle_display(prefs: &mut UiPrefs) -> (r: Option<String>)
    ensures
        (final(prefs)@, record::opt_text(r)) == display_settled(old(prefs)@, |s: Seq<char>| quoted_text(s)),
{
    if prefs.display_view().is_some() {
        return None;
    }
    let shown = quote_text(prefs.display_view.as_str());
    prefs.display_view = "black".to_owned();
    Some(unclear_text("ui_prefs.display_view", shown.as_str(), "已按默认「black」处理"))
}

fn settle_side(prefs: &mut UiPrefs) -> (r: Option<String>)
    ensures
        (final(prefs)@, record::opt_text(r)) == side_settled(old(prefs)@, |s: Seq<char>| quoted_text(s)),
{
    if prefs.batch_side().is_some() {
        return None;
    }
    let shown = quote_text(prefs.batch_side.as_str());
    prefs.batch_side = "all".to_owned();
    Some(unclear_text("ui_prefs.batch_side", shown.as_str(), "已按默认「all」处理"))
}

/// Puts the choices of what the user interface remembers right.
pub fn settle_prefs(prefs: &mut UiPrefs) -> (r: Vec<String>)
    ensures
        (final(prefs)@, texts(r@)) == prefs_settled(old(prefs)@, |s: Seq<char>| quoted_text(s)),
{
    let mut notices: Vec<String> = Vec::new();
    assert(texts(notices@) =~= Seq::empty());
    let n = settle_gating(prefs);
    note(&mut notices, n);
    let n = settle_display(prefs);
    note(&mut notices, n);
    let n = settle_side(prefs);
    note(&mut notices, n);
    notices
}

/// What the user interface remembers, by the settings, and what is said of it.
pub open spec fn prefs_field(j: JsonView, quoted: spec_fn(Seq<char>) -> Seq<char>) -> (
    PrefsView,
    Seq<Seq<char>>,
) {
    match json::field(j, "ui_prefs"@) {
        None => (first_prefs(), Seq::empty()),
        Some(raw) => match json::read(raw) {
            Some(v) if prefs_read(v) is Some => prefs_settled(prefs_read(v)->0, quoted),
            _ => (first_prefs(), seq!["「ui_prefs」内容无法识别，界面偏好已回退默认值"@]),
        },
    }
}

fn keep_prefs(j: &Json) -> (r: (UiPrefs, Vec<String>))
    ensures
        (r.0@, texts(r.1@)) == prefs_field(j@, |s: Seq<char>| quoted_text(s)),
{
    match j.get("ui_prefs") {
        None => {
            let notices: Vec<String> = Vec::new();
            assert(texts(notices@) =~= Seq::empty());
            (UiPrefs::default(), notices)
        },
        Some(raw) => {
            if let Some(v) = open_json(raw.as_str()) {
                if let Some(p) = prefs_of(&v) {
                    let mut p = p;
                    let notices = settle_prefs(&mut p);
                    return (p, notices);
                }
            }
            let notices = vec!["「ui_prefs」内容无法识别，界面偏好已回退默认值".to_owned()];
            assert(texts(notices@) =~= seq!["「ui_prefs」内容无法识别，界面偏好已回退默认值"@]);
            (UiPrefs::default(), notices)
        },
    }
}

// ---- all fields ----

/// A number that is at least 1.
pub open spec fn positive(n: u32) -> u32 {
    if n == 0 {
        1
    } else {
        n
    }
}

/// What is said of the fields before those of the user interface.
pub open spec fn field_notices(j: JsonView, d: ConfigView) -> Seq<Seq<char>> {
    let n1 = noted(
        Seq::empty(),
        path_field(j, "engine_path"@, d.engine_path, "已回退默认引擎路径"@).1,
    );
    let n2 = noted(n1, opt_field(j, "model_path"@, d.model_path, "已按未配置处理"@).1);
    let n3 = noted(
        n2,
        path_field(j, "weights_dir"@, d.weights_dir, "已回退默认权重目录"@).1,
    );
    let n4 = noted(n3, u32_field(j, "visits"@, d.visits, 300, "已按默认「300」处理"@).1);
    let n5 = noted(
        n4,
        u32_field(j, "search_threads"@, d.search_threads, 4, "已按默认「4」处理"@).1,
    );
    let n6 = noted(n5, opt_field(j, "analysis_cfg"@, d.analysis_cfg, "已按未指定处理"@).1);
    let n7 = noted(n6, difficulty_field(j, d.play_difficulty).1);
    let n8 = noted(n7, opt_field(j, "rules"@, d.rules, "已按自动跟随棋谱处理"@).1);
    let n9 = noted(n8, time_field(j, d.time_system).1);
    noted(n9, rules_field(j, d.new_game_rules).1)
}

/// The settings that a value holds, where `d` are those without it, and what is said of it.
pub open spec fn config_read(
    j: JsonView,
    d: ConfigView,
    quoted: spec_fn(Seq<char>) -> Seq<char>,
) -> (ConfigView, Seq<Seq<char>>) {
    match j {
        JsonView::Object(_) => (
            ConfigView {
                engine_path: path_field(
                    j,
                    "engine_path"@,
                    d.engine_path,
                    "已回退默认引擎路径"@,
                ).0,
                model_path: opt_field(j, "model_path"@, d.model_path, "已按未配置处理"@).0,
                weights_dir: path_field(
                    j,
                    "weights_dir"@,
                    d.weights_dir,
                    "已回退默认权重目录"@,
                ).0,
                visits: positive(
                    u32_field(j, "visits"@, d.visits, 300, "已按默认「300」处理"@).0,
                ),
                search_threads: positive(
                    u32_field(
                        j,
                        "search_threads"@,
                        d.search_threads,
                        4,
                        "已按默认「4」处理"@,
                    ).0,
                ),
                analysis_cfg: opt_field(
                    j,
                    "analysis_cfg"@,
                    d.analysis_cfg,
                    "已按未指定处理"@,
                ).0,
                play_difficulty: difficulty_field(j, d.play_difficulty).0,
                rules: opt_field(j, "rules"@, d.rules, "已按自动跟随棋谱处理"@).0,
                time_system: time_field(j, d.time_system).0,
                new_game_rules: rules_field(j, d.new_game_rules).0,
                ui_prefs: prefs_field(j, quoted).0,
            },
            field_notices(j, d) + prefs_field(j, quoted).1,
        ),
        _ => (d, seq!["文件内容不是设置对象"@]),
    }
}

/// The settings that a value holds, where `default` are those without it, and what is said of it.
pub fn config_from_value(value: &Json, default: EngineConfig) -> (r: (EngineConfig, Vec<String>))
    ensures
        (r.0@, texts(r.1@)) == config_read(
            value@,
            default@,
            |s: Seq<char>| quoted_text(s),
        ),
{
    let mut notices: Vec<String> = Vec::new();
    assert(texts(notices@) =~= Seq::empty());
    let object = match value {
        Json::Object(_) => true,
        _ => false,
    };
    if !object {
        notices.push("文件内容不是设置对象".to_owned());
        assert(texts(notices@) =~= seq!["文件内容不是设置对象"@]);
        return (default, notices);
    }
    let (engine_path, n) = keep_path(
        value,
        "engine_path",
        default.engine_path.as_str(),
        "已回退默认引擎路径",
    );
    note(&mut notices, n);
    let (model_path, n) = keep_opt(value, "model_path", &default.model_path, "已按未配置处理");
    note(&mut notices, n);
    let (weights_dir, n) = keep_path(
        value,
        "weights_dir",
        default.weights_dir.as_str(),
        "已回退默认权重目录",
    );
    note(&mut notices, n);
    let (visits, n) = keep_u32(value, "visits", default.visits, 300, "已按默认「300」处理");
    note(&mut notices, n);
    let (search_threads, n) = keep_u32(
        value,
        "search_threads",
        default.search_threads,
        4,
        "已按默认「4」处理",
    );
    note(&mut notices, n);
    let (analysis_cfg, n) = keep_opt(
        value,
        "analysis_cfg",
        &default.analysis_cfg,
        "已按未指定处理",
    );
    note(&mut notices, n);
    let (play_difficulty, n) = keep_difficulty(value, default.play_difficulty);
    note(&mut notices, n);
    let (rules, n) = keep_opt(value, "rules", &default.rules, "已按自动跟随棋谱处理");
    note(&mut notices, n);
    let (time_system, n) = keep_time(value, default.time_system);
    note(&mut notices, n);
    let (new_game_rules, n) = keep_rules(value, default.new_game_rules);
    note(&mut notices, n);
    let ghost before = texts(notices@);
    assert(before == field_notices(value@, default@));
    let (ui_prefs, more) = keep_prefs(value);
    append_all(&mut notices, more);
    let cfg = EngineConfig {
        engine_path,
        model_path,
        weights_dir,
        visits: if visits == 0 {
            1
        } else {
            visits
        },
        search_threads: if search_threads == 0 {
            1
        } else {
            search_threads
        },
        analysis_cfg,
        play_difficulty,
        rules,
        time_system,
        new_game_rules,
        ui_prefs,
    };
    (cfg, notices)
}

fn append_all(notices: &mut Vec<String>, more: Vec<String>)
    ensures
        texts(final(notices)@) == texts(old(notices)@) + texts(more@),
{
    let ghost before = notices@;
    let mut i: usize = 0;
    assert(texts(more@).take(0) =~= Seq::empty());
    assert(texts(notices@) =~= texts(before) + texts(more@).take(0));
    while i < more.len()
        invariant
            i <= more@.len(),
            texts(notices@) == texts(before) + texts(more@).take(i as int),
        decreases more@.len() - i,
    {
        let ghost here = notices@;
        notices.push(more[i].clone());
        i += 1;
        assert(texts(notices@) =~= texts(here).push(more@[i - 1]@));
        assert(texts(notices@) =~= texts(before) + texts(more@).take(i as int));
    }
    assert(texts(more@).take(i as int) =~= texts(more@));
}

// ---- the file ----

/// The notices in a row.
pub open spec fn joined(ns: Seq<Seq<char>>) -> Seq<char>
    decreases ns.len(),
{
    if ns.len() == 0 {
        Seq::empty()
    } else if ns.len() == 1 {
        ns[0]
    } else {
        joined(ns.drop_last()) + "；"@ + ns.last()
    }
}

/// What the user is told of the notices.
pub open spec fn summary(ns: Seq<Seq<char>>) -> Option<Seq<char>> {
    if ns.len() == 0 {
        None
    } else {
        Some(
            "settings.json 有 "@ + text::decimal(ns.len()) + " 处设置值无法识别（其余设置已保留）："@
                + joined(ns),
        )
    }
}

/// What the user is told of the notices.
pub fn notice_text(notices: &Vec<String>) -> (r: Option<String>)
    ensures
        record::opt_text(r) == summary(texts(notices@)),
{
    let ghost all = texts(notices@);
    let n = notices.len();
    assert(all.len() == n);
    if n == 0 {
        return None;
    }
    let mut list = notices[0].clone();
    let mut i: usize = 1;
    assert(all.take(1) =~= seq![list@]);
    while i < n
        invariant
            1 <= i <= n,
            n == notices@.len(),
            all == texts(notices@),
            list@ == joined(all.take(i as int)),
        decreases n - i,
    {
        list.append("；");
        list.append(notices[i].as_str());
        i += 1;
        proof {
            let t = all.take(i as int);
            assert(t.drop_last() =~= all.take(i - 1));
            assert(t.last() == notices@[i - 1]@);
        }
    }
    assert(all.take(n as int) =~= all);
    let mut out = "settings.json 有 ".to_owned();
    push_decimal(&mut out, n as u64);
    out.append(" 处设置值无法识别（其余设置已保留）：");
    out.append(list.as_str());
    Some(out)
}

/// The settings that the text of a file holds, where `d` are those without it, and what the user
/// is told of it.
pub open spec fn settings_read(
    path: Seq<char>,
    source: Seq<char>,
    d: ConfigView,
    quoted: spec_fn(Seq<char>) -> Seq<char>,
) -> (ConfigView, Option<Seq<char>>) {
    match json::json_read(source) {
        Err(e) => (
            d,
            Some(path + " 无法解析（"@ + e + "），已回退默认引擎配置。"@),
        ),
        Ok(_) => {
            let j = match json::read(source) {
                Some(v) => v,
                None => JsonView::Null,
            };
            (config_read(j, d, quoted).0, summary(config_read(j, d, quoted).1))
        },
    }
}

/// The settings that the text of a file holds, where `default` are those without it, and what the
/// user is told of it.
pub fn load_settings(path: &str, source: &str, default: EngineConfig) -> (r: (
    EngineConfig,
    Option<String>,
))
    ensures
        (r.0@, record::opt_text(r.1)) == settings_read(
            path@,
            source@,
            default@,
            |s: Seq<char>| quoted_text(s),
        ),
{
    match read_json(source) {
        Err(e) => {
            let mut out = path.to_owned();
            out.append(" 无法解析（");
            out.append(e.as_str());
            out.append("），已回退默认引擎配置。");
            (default, Some(out))
        },
        Ok(_) => {
            let value = match open_json(source) {
                Some(v) => v,
                None => Json::Null,
            };
            let (cfg, notices) = config_from_value(&value, default);
            let notice = notice_text(&notices);
            (cfg, notice)
        },
    }
}

/// What the user is told of a file that cannot be read.
pub fn unreadable_text(path: &str, error: &str) -> (r: String)
    ensures
        r@ == "读取 "@ + path@ + " 失败（"@ + error@ + "），已使用默认引擎配置。"@,
{
    let mut out = "读取 ".to_owned();
    out.append(path);
    out.append(" 失败（");
    out.append(error);
    out.append("），已使用默认引擎配置。");
    out
}

} // verus!
