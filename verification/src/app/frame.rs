//! What happens between two looks at the window: clocks run, the engine is asked and moves.

use vstd::prelude::*;
use super::names;
use super::notice::{LoadNotice, NoticeView};
use super::prefs::{self, prefs_step};
use super::{AppView, GuanqiApp, MarksView, TableView};
use crate::board::Action;
use crate::engine::settings::{self, ConfigView, GeometryView, PrefsView, WindowGeometry};
use crate::play::timer::{self, engine_budget, SideClock, TimeBudget};
use crate::play::{self, engine_move_decision, PlayState, Snapshot};
use crate::text::same_text;

verus! {

/// No more than this comes off a clock at once, in nanoseconds: the window may not have been
/// looked at for a while.
pub const LONGEST_STEP: u64 = 10_000_000_000;

/// How much time counts between two looks.
pub open spec fn counted_step(last: Option<u64>, now: u64) -> u64 {
    match last {
        Some(t) => if now < t {
            0
        } else if now - t > LONGEST_STEP {
            LONGEST_STEP
        } else {
            (now - t) as u64
        },
        None => 0,
    }
}

impl AppView {
    /// Whether the human's clock runs: a game is on, it is the human's turn, and the cursor is at
    /// the end of the line.
    pub open spec fn human_timed(self) -> bool {
        self.game_on() && play::at_end(self.docs.active.board) && self.docs.active.board.to_play()
            == self.table.play.human
    }

    /// The state with the human's clock run for `dt`.
    pub open spec fn clock_run(self, dt: u64) -> (AppView, bool) {
        let p = self.table.play;
        let (c, lost) = timer::ticked(p.clock.system, p.clock.side_spec(p.human), dt);
        (
            AppView {
                table: TableView {
                    play: PlayState {
                        clock: p.clock.with_side(
                            p.human,
                            c,
                            timer::capped_sum(p.clock.total_spec(p.human), dt),
                        ),
                        ..p
                    },
                    ..self.table
                },
                ..self
            },
            lost,
        )
    }

    /// The state with the time of the look taken down.
    pub open spec fn looked_at(self, now: u64) -> AppView {
        AppView { table: TableView { last_frame: Some(now), ..self.table }, ..self }
    }

    /// The state after the human's clock has run, and the game ended if its time was over.
    pub open spec fn human_run(self, now: u64) -> AppView {
        let s = self.looked_at(now);
        if self.human_timed() {
            let (t, lost) = s.clock_run(counted_step(self.table.last_frame, now));
            if lost {
                t.timed_out(self.table.play.human)
            } else {
                t
            }
        } else {
            s
        }
    }

    /// The engine's clock.
    pub open spec fn engine_clock(self) -> SideClock {
        self.table.play.clock.side_spec(self.table.play.human.other())
    }

    /// The state after the clocks were looked at: the engine loses where it has no time left.
    pub open spec fn clocks_run(self, now: u64) -> AppView {
        let s = self.human_run(now);
        if self.game_on() && s.engine_clock().usable_spec() == Some(0u128) {
            s.timed_out(self.table.play.human.other())
        } else {
            s
        }
    }

    /// Whether the engine is to look for a move.
    pub open spec fn engine_wanted(self) -> bool {
        let p = self.table.play;
        let b = self.docs.active.board;
        p.mode && p.resigned is None && p.timeout_loss is None && !play::both_passed(b)
            && b.to_play() != p.human && play::at_end(b)
    }
}

/// What the engine is asked for.
#[derive(Debug)]
pub struct QueryPlan {
    /// Whether it is to look for a move.
    pub want_move: bool,
    /// How much time it has for that.
    pub budget: Option<TimeBudget>,
    /// What positions are judged by.
    pub rules: Option<String>,
    /// The komi, as it is written.
    pub komi: String,
}

impl GuanqiApp {
    fn step_since(last: Option<u64>, now: u64) -> (r: u64)
        ensures
            r == counted_step(last, now),
    {
        match last {
            Some(t) => {
                if now < t {
                    0
                } else if now - t > LONGEST_STEP {
                    LONGEST_STEP
                } else {
                    now - t
                }
            },
            None => 0,
        }
    }

    fn run_human(&mut self, now: u64)
        requires
            old(self).wf(),
        ensures
            final(self).wf(),
            final(self)@ == old(self)@.human_run(now),
    {
        let dt = Self::step_since(self.table.last_frame, now);
        let timed = self.table.play.mode && !self.finished() && play::cursor_at_end(
            &self.docs.active.board,
        ) && self.docs.active.board.to_play() == self.table.play.human;
        self.table.last_frame = Some(now);
        let ghost s = self@;
        if timed {
            let human = self.table.play.human;
            let over = self.table.play.clock.tick(human, dt);
            assert(self@ =~= s.clock_run(dt).0);
            if over.is_some() {
                self.finish_timeout(human);
            }
        }
    }

    /// Runs the clocks up to `now` and says what the engine is to be asked for. The engine has
    /// time for a move only where its side has not lost by then.
    pub fn run_clocks(&mut self, now: u64) -> (r: QueryPlan)
        requires
            old(self).wf(),
        ensures
            final(self).wf(),
            final(self)@ == old(self)@.clocks_run(now),
            r.want_move == final(self)@.engine_wanted(),
            r.rules is Some == final(self)@.game_rules() is Some,
            names::opt_text(r.rules) == final(self)@.game_rules(),
            r.komi@ == final(self)@.table.komi,
            r.budget is None == (final(self)@.engine_clock().usable_spec() is None || (old(
                self,
            )@.game_on() && final(self)@.engine_clock().usable_spec() == Some(0u128))),
            r.budget matches Some(b) ==> {
                &&& b.remaining == final(self)@.engine_clock().usable_spec()
                &&& b.max_time == if b.remaining->0 - timer::BUDGET_MARGIN > timer::MIN_BUDGET {
                    (b.remaining->0 - timer::BUDGET_MARGIN) as u128
                } else {
                    timer::MIN_BUDGET
                }
            },
    {
        let game_on = self.table.play.mode && !self.finished();
        self.run_human(now);
        let engine = self.table.play.human.opposite();
        let clock = *self.table.play.clock.side(engine);
        let out = match clock.usable() {
            Some(t) => t == 0,
            None => false,
        };
        let budget = if game_on && out {
            self.finish_timeout(engine);
            None
        } else {
            engine_budget(&clock)
        };
        let want_move = self.table.play.mode && self.table.play.resigned.is_none()
            && self.table.play.timeout_loss.is_none() && !play::two_passes(&self.docs.active.board)
            && self.docs.active.board.to_play() != self.table.play.human && play::cursor_at_end(
            &self.docs.active.board,
        );
        QueryPlan { want_move, budget, rules: self.game_rules(), komi: self.table.komi.clone() }
    }
}

// ---- after the engine was asked ----

impl AppView {
    /// The state with what a scan of the game and the choice of rules had to say told to the user,
    /// and nothing looked at where nothing is known of the position.
    pub open spec fn reports_told(
        self,
        batch: Option<Seq<char>>,
        rules: Option<Seq<char>>,
        known: bool,
    ) -> AppView {
        let a = match batch {
            Some(s) => self.told(NoticeView::Done(s)),
            None => self,
        };
        let b = match rules {
            Some(s) => a.told(NoticeView::Warn(s)),
            None => a,
        };
        if known {
            b
        } else {
            AppView { marks: MarksView { focus: None, ..b.marks }, ..b }
        }
    }

    /// The move that the engine makes now, if it makes one.
    pub open spec fn engine_move(self, snapshot: Option<Snapshot>, ready: bool) -> Option<Action> {
        let p = self.table.play;
        if p.resigned is None && p.timeout_loss is None {
            play::engine_action(p.mode, p.human, self.docs.active.board, snapshot, ready)
        } else {
            None
        }
    }

    /// The state with a move of the engine, which took `think`, on the clock.
    pub open spec fn engine_charged(self, think: u64) -> AppView {
        let p = self.table.play;
        let e = p.human.other();
        AppView {
            table: TableView {
                play: PlayState {
                    clock: p.clock.with_side(
                        e,
                        timer::charged(p.clock.system, p.clock.side_spec(e), think),
                        timer::capped_sum(p.clock.total_spec(e), think),
                    ),
                    ..p
                },
                ..self.table
            },
            ..self
        }
    }

    /// The state after a move of the engine; a move that cannot be played is left out.
    pub open spec fn engine_moved(self, action: Action, think: u64) -> AppView {
        let s = self.engine_charged(think);
        match action {
            Action::Pass => AppView { docs: s.docs.edited(s.docs.active.board.passed()), ..s },
            Action::Place(at) => match s.docs.active.board.played(at) {
                Ok(v) => AppView { docs: s.docs.edited(v), ..s },
                Err(_) => s,
            },
        }
    }
}

impl GuanqiApp {
    /// Tells the user what a scan of the game and the choice of rules had to say; `known` says
    /// whether anything is known of the position.
    pub fn take_reports(&mut self, batch: Option<String>, rules: Option<String>, known: bool)
        requires
            old(self).wf(),
        ensures
            final(self).wf(),
            final(self)@ == old(self)@.reports_told(
                names::opt_text(batch),
                names::opt_text(rules),
                known,
            ),
    {
        if let Some(s) = batch {
            self.notices.push(LoadNotice::Done(s));
        }
        if let Some(s) = rules {
            self.notices.push(LoadNotice::Warn(s));
        }
        if !known {
            self.marks.focus = None;
        }
    }

    /// Lets the engine move, if it is its turn and it has found a move; `think` is the time that
    /// this took. Says whether both sides have passed then.
    pub fn engine_turn(&mut self, snapshot: Option<&Snapshot>, think: u64, ready: bool) -> (r: bool)
        requires
            old(self).wf(),
        ensures
            final(self).wf(),
            match old(self)@.engine_move(
                match snapshot {
                    Some(s) => Some(*s),
                    None => None,
                },
                ready,
            ) {
                Some(a) => final(self)@ == old(self)@.engine_moved(a, think) && r == (a
                    == Action::Pass && play::both_passed(final(self)@.docs.active.board)),
                None => final(self)@ == old(self)@ && !r,
            },
    {
        if self.table.play.resigned.is_some() || self.table.play.timeout_loss.is_some() {
            return false;
        }
        let found = engine_move_decision(
            self.table.play.mode,
            self.table.play.human,
            &self.docs.active.board,
            snapshot,
            ready,
        );
        match found {
            None => false,
            Some(action) => {
                let ghost before = self@;
                let engine = self.table.play.human.opposite();
                self.table.play.clock.on_engine_move(engine, think);
                assert(self@ =~= before.engine_charged(think));
                match action {
                    Action::Place(at) => {
                        let _ = self.docs.play(at);
                        false
                    },
                    Action::Pass => {
                        self.docs.pass();
                        play::two_passes(&self.docs.active.board)
                    },
                }
            },
        }
    }

    /// Whether what is remembered is to be written down now, and how long to wait until the next
    /// look, in milliseconds; `engine_busy` says whether the engine starts or works.
    pub fn settle_prefs(&mut self, now: u64, engine_busy: bool) -> (r: (bool, u64))
        requires
            old(self).wf(),
        ensures
            final(self).wf(),
            ({
                let due = prefs::prefs_due(
                    old(self)@.prefs_dirty_since,
                    now,
                    if engine_busy || old(self)@.game_on() {
                        500
                    } else {
                        700
                    },
                );
                &&& r == (due.save, due.wait)
                &&& final(self)@ == (AppView { prefs_dirty_since: due.since, ..old(self)@ })
            }),
    {
        let game_on = self.table.play.mode && !self.finished();
        let repaint = prefs::repaint_after(engine_busy, game_on);
        let step = prefs_step(self.prefs_dirty_since, now, repaint);
        self.prefs_dirty_since = step.since;
        (step.save, step.wait)
    }

    /// Takes down what is shown, and since when it has changed.
    pub fn sync_prefs_and_track(&mut self, now: u64)
        requires
            old(self).wf(),
        ensures
            final(self).wf(),
            final(self)@ == ({
                let p = prefs::remembered(old(self)@.panels, old(self)@.engine_cfg.ui_prefs);
                let s = AppView {
                    engine_cfg: crate::engine::settings::ConfigView {
                        ui_prefs: p,
                        ..old(self)@.engine_cfg
                    },
                    ..old(self)@
                };
                if p != old(self)@.engine_cfg.ui_prefs {
                    s.changed(now)
                } else {
                    s
                }
            }),
    {
        let panels = self.panels;
        if panels.sync_prefs(&mut self.engine_cfg.ui_prefs) {
            self.mark_prefs_dirty(now);
        }
    }
}

// ---- the window ----

impl AppView {
    /// The state after the window has been seen at a place.
    pub open spec fn seen_at(self, g: GeometryView, now: u64) -> AppView {
        let s = AppView {
            engine_cfg: ConfigView {
                ui_prefs: PrefsView { window_geometry: Some(g), ..self.engine_cfg.ui_prefs },
                ..self.engine_cfg
            },
            ..self
        };
        if self.engine_cfg.ui_prefs.window_geometry == Some(g) {
            s
        } else {
            s.changed(now)
        }
    }

    /// The state with the engine about to start again by settings that were saved: nothing is
    /// wrong with them any more, except what stood in the way of writing its own file.
    pub open spec fn restarting(self, failure: Option<Seq<char>>) -> AppView {
        AppView {
            startup_notice: None,
            persist_notice: match failure {
                Some(s) => Some(s),
                None => self.persist_notice,
            },
            ..self
        }
    }
}

fn same_pair(a: &Option<(String, String)>, b: &Option<(String, String)>) -> (r: bool)
    ensures
        r == (settings::pair_text(*a) == settings::pair_text(*b)),
{
    match (a, b) {
        (Some(x), Some(y)) => same_text(x.0.as_str(), y.0.as_str()) && same_text(
            x.1.as_str(),
            y.1.as_str(),
        ),
        (None, None) => true,
        _ => false,
    }
}

impl GuanqiApp {
    /// Takes down where the window is and how large, and since when that has changed.
    pub fn track_geometry(&mut self, g: WindowGeometry, now: u64)
        requires
            old(self).wf(),
        ensures
            final(self).wf(),
            final(self)@ == old(self)@.seen_at(g@, now),
    {
        let same = match &self.engine_cfg.ui_prefs.window_geometry {
            Some(h) => same_text(h.width.as_str(), g.width.as_str()) && same_text(
                h.height.as_str(),
                g.height.as_str(),
            ) && same_pair(&h.position, &g.position),
            None => false,
        };
        self.engine_cfg.ui_prefs.window_geometry = Some(g);
        if !same {
            self.mark_prefs_dirty(now);
        }
    }

    /// Takes in that the engine starts again by settings that were saved; `failure` says what
    /// stood in the way of writing the engine's own file.
    pub fn engine_restarting(&mut self, failure: Option<String>)
        ensures
            final(self)@ == old(self)@.restarting(names::opt_text(failure)),
            final(self).wf() == old(self).wf(),
    {
        self.startup_notice = None;
        if failure.is_some() {
            self.persist_notice = failure;
        }
    }
}

} // verus!
