//! Going between documents, what is shown on demand, and leaving the program.

use vstd::prelude::*;
use super::confirm::{self, post_save_of, PendingConfirm, UnsavedConfirm, UnsavedVerdict};
use super::dialogs::{self, Effect, EffectView};
use super::docs::{self, DocView, DocsView};
use super::files::Next;
use super::game;
use super::notice::{LoadNotice, NoticeView};
use super::{AppView, AskingView, GuanqiApp, MarksView, TableView};
use crate::board::{self, model, Action, BoardView, Coord};
use crate::engine::settings::CandidateGating;
use crate::play::{self, PlayState};
use crate::text::{self, push_decimal};

verus! {

// ---- documents ----

/// What is said when a game ends because another document is looked at.
pub open spec fn left_game_words() -> Seq<char> {
    "已切换文档，对局结束（未判胜负）；要继续对弈请重新开启人机对弈。"@
}

/// What is said of a new copy.
pub open spec fn copied_words(number: usize, from_move: usize) -> Seq<char> {
    "已创建研究副本 "@ + text::decimal(number as nat) + "（自第 "@ + text::decimal(
        from_move as nat,
    ) + " 手起），原谱保持不变；当前在研究副本 "@ + text::decimal(number as nat) + " 中。"@
}

/// What is said of a copy that was dropped, `left` others being there.
pub open spec fn dropped_words(number: usize, left: nat) -> Seq<char> {
    "研究副本 "@ + text::decimal(number as nat) + if left > 0 {
        " 已丢弃，其余 "@ + text::decimal(left) + " 份副本保持不变。"@
    } else {
        " 已丢弃。"@
    }
}

impl AppView {
    /// The state without a game; nothing is said of who won.
    pub open spec fn game_left(self) -> AppView {
        if self.table.play.mode {
            AppView {
                table: TableView {
                    play: play::reviewing(),
                    last_frame: None,
                    ..self.table
                },
                ..self
            }.told(NoticeView::Warn(left_game_words()))
        } else {
            self
        }
    }

    /// The state with another document active.
    pub open spec fn with_doc(self, number: usize) -> AppView {
        if docs::place(self.docs.others, number) is Some {
            let s = self.game_left();
            AppView { docs: s.docs.switched(number), marks: s.marks.cleared(), ..s }
        } else {
            self
        }
    }

    /// The state without a copy.
    pub open spec fn without_copy(self, number: usize) -> AppView {
        let s = if self.docs.active.number == number {
            self.with_doc(0)
        } else {
            self
        };
        let d = self.docs.dropped(number);
        AppView { docs: d, ..s }.told(NoticeView::Done(dropped_words(number, d.copy_count())))
    }

    /// Whether `next` is the state with a new copy, which is active.
    pub open spec fn copied(self, next: AppView) -> bool {
        let s = self.game_left();
        &&& self.docs.copied(next.docs)
        &&& next == AppView { docs: next.docs, marks: s.marks.cleared(), ..s }.told(
            NoticeView::Done(
                copied_words(self.docs.next_number, self.docs.active.board.here().depth),
            ),
        )
    }
}

fn copied_text(number: usize, from_move: usize) -> (r: String)
    ensures
        r@ == copied_words(number, from_move),
{
    let mut out = "已创建研究副本 ".to_owned();
    push_decimal(&mut out, number as u64);
    out.append("（自第 ");
    push_decimal(&mut out, from_move as u64);
    out.append(" 手起），原谱保持不变；当前在研究副本 ");
    push_decimal(&mut out, number as u64);
    out.append(" 中。");
    assert(out@ =~= copied_words(number, from_move));
    out
}

fn dropped_text(number: usize, left: usize) -> (r: String)
    ensures
        r@ == dropped_words(number, left as nat),
{
    let mut out = "研究副本 ".to_owned();
    push_decimal(&mut out, number as u64);
    if left > 0 {
        out.append(" 已丢弃，其余 ");
        push_decimal(&mut out, left as u64);
        out.append(" 份副本保持不变。");
    } else {
        out.append(" 已丢弃。");
    }
    assert(out@ =~= dropped_words(number, left as nat));
    out
}

impl GuanqiApp {
    /// Ends a game because another document is looked at; nothing is said of who won.
    pub fn end_play_for_doc_switch(&mut self)
        requires
            old(self).wf(),
        ensures
            final(self).wf(),
            final(self)@ == old(self)@.game_left(),
    {
        if self.table.play.mode {
            self.table.play = PlayState::review();
            self.table.last_frame = None;
            self.notices.push(
                LoadNotice::Warn(
                    "已切换文档，对局结束（未判胜负）；要继续对弈请重新开启人机对弈。".to_owned(),
                ),
            );
        }
    }

    /// Makes a copy of the moves up to the cursor, which becomes active.
    pub fn create_copy(&mut self)
        requires
            old(self).wf(),
            old(self).docs.active.meta is Some,
            old(self).docs.next_number < usize::MAX,
        ensures
            final(self).wf(),
            old(self)@.copied(final(self)@),
    {
        let ghost before = self@;
        let from_move = self.docs.active.board.cursor();
        self.end_play_for_doc_switch();
        let number = self.docs.create_copy();
        self.clear_board_derived();
        self.notices.push(LoadNotice::Done(copied_text(number, from_move)));
        assert(before.copied(self@));
    }

    /// Makes another document active, if there is one with that number.
    pub fn switch_doc(&mut self, number: usize)
        requires
            old(self).wf(),
        ensures
            final(self).wf(),
            final(self)@ == old(self)@.with_doc(number),
    {
        let ghost before = self@;
        if self.docs.has(number) {
            self.end_play_for_doc_switch();
            self.docs.switch_doc(number);
            self.clear_board_derived();
            assert(self@ =~= before.with_doc(number));
        }
    }

    /// Makes the record itself active.
    pub fn switch_to_original(&mut self)
        requires
            old(self).wf(),
        ensures
            final(self).wf(),
            final(self)@ == old(self)@.with_doc(0),
    {
        self.switch_doc(0);
    }

    /// Drops a copy; where it is active, the record becomes active.
    pub fn drop_copy(&mut self, number: usize)
        requires
            old(self).wf(),
            number != 0,
        ensures
            final(self).wf(),
            final(self)@ == old(self)@.without_copy(number),
    {
        let ghost before = self@;
        if self.docs.active.number == number {
            self.switch_to_original();
            proof {
                docs::lemma_dropped(before.docs, number);
                docs::lemma_record_found(before.docs);
                assert(self@.docs == before.docs.switched(0));
            }
        }
        proof {
            docs::lemma_drop_twice(before.docs, self@.docs, number);
        }
        self.docs.drop_copy(number);
        let left = self.docs.copy_count();
        self.notices.push(LoadNotice::Done(dropped_text(number, left)));
        assert(self@ =~= before.without_copy(number));
    }

    /// Drops a copy, asking first where moves were tried in it.
    pub fn ask_drop_copy(&mut self, number: usize)
        requires
            old(self).wf(),
            number != 0,
        ensures
            final(self).wf(),
            final(self)@ == if old(self)@.docs.doc_research(number) matches Some(n) && n > 0 {
                AppView {
                    asking: AskingView {
                        copies: PendingConfirm::DropCopy { number },
                        ..old(self)@.asking
                    },
                    ..old(self)@
                }
            } else {
                old(self)@.without_copy(number)
            },
    {
        let n = match self.docs.doc_research(number) {
            Some(n) => n,
            None => 0,
        };
        if n > 0 {
            self.asking.copies = PendingConfirm::DropCopy { number };
        } else {
            self.drop_copy(number);
        }
    }
}

// ---- unsaved changes ----

impl AppView {
    /// What comes of an answer about unsaved changes.
    pub open spec fn unsaved_verdict(self, c: UnsavedConfirm, v: UnsavedVerdict) -> (
        AppView,
        Next,
        Option<EffectView>,
    ) {
        match v {
            UnsavedVerdict::Cancel => (self.unsaved_answered(), Next::Nothing, None),
            UnsavedVerdict::SaveThenContinue => match dialogs::refusal(self.asking) {
                Some(n) => (self.told(n), Next::Dialog, None),
                None => {
                    let (s, e) = self.unsaved_answered().saving(confirm::after_saving(c));
                    (s, Next::Dialog, e)
                },
            },
            UnsavedVerdict::Discard => match c {
                UnsavedConfirm::Exit => (self.unsaved_answered().leaving(), Next::Nothing, None),
                UnsavedConfirm::NewGame(s) => (
                    self.unsaved_answered().with_game(s),
                    Next::GameStarted { save_settings: game::game_settings(self.engine_cfg, s)
                        != self.engine_cfg },
                    None,
                ),
                UnsavedConfirm::OpenDialog => match dialogs::refusal(self.asking) {
                    Some(n) => (self.told(n), Next::Dialog, None),
                    None => {
                        let (s, e) = self.unsaved_answered().opening();
                        (s, Next::Dialog, e)
                    },
                },
            },
        }
    }
}

impl GuanqiApp {
    /// Takes in an answer about unsaved changes. Where no dialog can be opened, the question
    /// stays.
    pub fn answer_unsaved(&mut self, verdict: UnsavedVerdict) -> (r: (Next, Option<Effect>))
        requires
            old(self).wf(),
        ensures
            final(self).wf(),
            match old(self)@.asking.unsaved {
                None => final(self)@ == old(self)@ && r.0 == Next::Nothing && r.1 is None,
                Some(c) => (final(self)@, r.0, dialogs::opt_effect(r.1)) == old(
                    self,
                )@.unsaved_verdict(c, verdict),
            },
    {
        let ghost before = self@;
        let needs_dialog = match (&self.asking.unsaved, verdict) {
            (None, _) => {
                return (Next::Nothing, None);
            },
            (Some(_), UnsavedVerdict::Cancel) => false,
            (Some(_), UnsavedVerdict::SaveThenContinue) => true,
            (Some(c), UnsavedVerdict::Discard) => matches!(c, UnsavedConfirm::OpenDialog),
        };
        if needs_dialog {
            if let Some(n) = self.dialog_guard() {
                self.notices.push(n);
                return (Next::Dialog, None);
            }
        }
        let c = match self.asking.unsaved.take() {
            Some(c) => c,
            None => {
                return (Next::Nothing, None);
            },
        };
        assert(self@ =~= before.unsaved_answered());
        match verdict {
            UnsavedVerdict::Cancel => (Next::Nothing, None),
            UnsavedVerdict::SaveThenContinue => {
                let e = self.save_file_dialog_then(post_save_of(c));
                (Next::Dialog, e)
            },
            UnsavedVerdict::Discard => match c {
                UnsavedConfirm::Exit => {
                    self.asking.exit_requested = true;
                    (Next::Nothing, None)
                },
                UnsavedConfirm::NewGame(s) => {
                    let save_settings = self.start_new_game(s);
                    (Next::GameStarted { save_settings }, None)
                },
                UnsavedConfirm::OpenDialog => {
                    let e = self.open_file_dialog_now();
                    (Next::Dialog, e)
                },
            },
        }
    }

    /// Asks again about unsaved changes before a record is opened, if nothing is asked: the
    /// dialog for it could not be shown.
    pub fn ask_open_again(&mut self)
        ensures
            final(self)@ == (AppView {
                asking: AskingView {
                    unsaved: match old(self)@.asking.unsaved {
                        Some(c) => Some(c),
                        None => Some(UnsavedConfirm::OpenDialog),
                    },
                    ..old(self)@.asking
                },
                ..old(self)@
            }),
            final(self).wf() == old(self).wf(),
    {
        if self.asking.unsaved.is_none() {
            self.asking.unsaved = Some(UnsavedConfirm::OpenDialog);
        }
    }
}

// ---- leaving ----

/// What the window is to be told.
#[derive(Clone, Copy, PartialEq, Eq, Structural, Debug)]
pub enum WindowCommand {
    /// Close.
    Close,
    /// Do not close.
    CancelClose,
}

impl AppView {
    /// What comes of a look at whether the window is to close: it is told to once, when that was
    /// agreed, and asked to stay while there are unsaved changes.
    pub open spec fn closing(self, requested: bool) -> (AppView, Option<WindowCommand>) {
        let a = self.asking;
        if a.exit_requested {
            (
                AppView { asking: AskingView { close_sent: true, ..a }, ..self },
                if a.close_sent {
                    None
                } else {
                    Some(WindowCommand::Close)
                },
            )
        } else if requested && self.docs.dirty {
            (
                AppView {
                    asking: AskingView {
                        unsaved: match a.unsaved {
                            Some(c) => Some(c),
                            None => Some(UnsavedConfirm::Exit),
                        },
                        ..a
                    },
                    ..self
                },
                Some(WindowCommand::CancelClose),
            )
        } else {
            (self, None)
        }
    }

    /// The state after the end of the program was asked for: unsaved changes come first.
    pub open spec fn wanting_exit(self) -> AppView {
        let a = self.asking;
        AppView {
            asking: if self.docs.dirty && !a.exit_requested {
                AskingView {
                    unsaved: match a.unsaved {
                        Some(c) => Some(c),
                        None => Some(UnsavedConfirm::Exit),
                    },
                    ..a
                }
            } else {
                AskingView { exit_requested: true, ..a }
            },
            ..self
        }
    }
}

impl GuanqiApp {
    /// Looks at whether the window is to close.
    pub fn handle_close_request(&mut self, requested: bool) -> (r: Option<WindowCommand>)
        requires
            old(self).wf(),
        ensures
            final(self).wf(),
            (final(self)@, r) == old(self)@.closing(requested),
    {
        if self.asking.exit_requested {
            if self.asking.close_sent {
                assert(self@ =~= old(self)@.closing(requested).0);
                return None;
            }
            self.asking.close_sent = true;
            return Some(WindowCommand::Close);
        }
        if !requested || !self.docs.dirty {
            return None;
        }
        if self.asking.unsaved.is_none() {
            self.asking.unsaved = Some(UnsavedConfirm::Exit);
        }
        assert(self@ =~= old(self)@.closing(requested).0);
        Some(WindowCommand::CancelClose)
    }
}

// ---- candidates on demand ----

impl AppView {
    /// The state after the user has asked to see the candidates of this position.
    pub open spec fn revealing(self) -> AppView {
        if self.panels.gating == CandidateGating::Manual {
            let b = self.docs.active.board;
            AppView {
                marks: MarksView {
                    revealed: true,
                    revealed_at: Some(model::path_records(b.nodes, b.current)),
                    ..self.marks
                },
                ..self
            }
        } else {
            self
        }
    }

    /// The state with candidates that were asked for at another position hidden again.
    pub open spec fn reveal_checked(self) -> AppView {
        let b = self.docs.active.board;
        if self.marks.revealed && self.marks.revealed_at != Some(
            model::path_records(b.nodes, b.current),
        ) {
            AppView { marks: self.marks.hidden(), ..self }
        } else {
            self
        }
    }
}

impl GuanqiApp {
    /// The user asks to see the candidates of this position.
    pub fn reveal_candidates(&mut self)
        requires
            old(self).wf(),
        ensures
            final(self).wf(),
            final(self)@ == old(self)@.revealing(),
    {
        if self.panels.gating == CandidateGating::Manual {
            let records = board::copy_records(self.docs.active.board.records());
            self.marks.revealed = true;
            self.marks.revealed_at = Some(records);
            assert(self@ =~= old(self)@.revealing());
        }
    }

    /// Whether candidates are shown, where the engine has worked on the position for `waited`
    /// seconds.
    pub fn candidates_visible(&self, waited: u64) -> (r: bool)
        ensures
            r == (self@.panels.overlay.show_candidates && match self@.panels.gating {
                CandidateGating::Immediate => true,
                CandidateGating::Delayed { secs } => waited >= secs,
                CandidateGating::Manual => self@.marks.revealed,
            }),
    {
        self.panels.overlay.show_candidates && match self.panels.gating {
            CandidateGating::Immediate => true,
            CandidateGating::Delayed { secs } => waited >= secs as u64,
            CandidateGating::Manual => self.marks.revealed,
        }
    }

    /// Hides candidates that were asked for at another position.
    pub fn check_reveal(&mut self)
        requires
            old(self).wf(),
        ensures
            final(self).wf(),
            final(self)@ == old(self)@.reveal_checked(),
    {
        if !self.marks.revealed {
            return;
        }
        let same = match &self.marks.revealed_at {
            Some(v) => board::same_records(v.as_slice(), self.docs.active.board.records()),
            None => false,
        };
        if !same {
            self.marks.revealed = false;
            self.marks.revealed_at = None;
            assert(self@ =~= old(self)@.reveal_checked());
        }
    }

    /// Sets when candidates are shown.
    pub fn set_gating(&mut self, gating: CandidateGating)
        ensures
            final(self)@ == (AppView {
                panels: super::Panels { gating, ..old(self)@.panels },
                marks: if gating == CandidateGating::Manual {
                    old(self)@.marks
                } else {
                    old(self)@.marks.hidden()
                },
                ..old(self)@
            }),
            final(self).wf() == old(self).wf(),
    {
        self.panels.gating = gating;
        if gating != CandidateGating::Manual {
            self.marks.revealed = false;
            self.marks.revealed_at = None;
        }
    }
}

// ---- following the engine's line ----

/// The move that a step of the engine's line makes; `None` is a pass.
pub open spec fn step_action(step: Option<Coord>) -> Action {
    match step {
        Some(at) => Action::Place(at),
        None => Action::Pass,
    }
}

/// The board after following a line as far as its moves are in the tree; nothing is added.
pub open spec fn followed(b: BoardView, line: Seq<Option<Coord>>) -> BoardView
    decreases line.len(),
{
    if line.len() == 0 || !model::has_child_with(b.nodes, b.current, step_action(line[0])) {
        b
    } else {
        followed(
            b.branched(model::child_with(b.nodes, b.current, step_action(line[0]))),
            line.skip(1),
        )
    }
}

impl DocsView {
    /// The documents with the cursor of the active one elsewhere.
    pub open spec fn at(self, board: BoardView) -> DocsView {
        DocsView { active: DocView { board, ..self.active }, ..self }
    }
}

/// Which child of the position at the cursor holds a move, if one does.
fn find_child(b: &board::Board, action: Action) -> (r: Option<usize>)
    requires
        b.wf(),
    ensures
        match r {
            Some(i) => model::has_child_with(b@.nodes, b@.current, action) && i
                == model::child_with(b@.nodes, b@.current, action) && i
                < b@.here().children.len(),
            None => !model::has_child_with(b@.nodes, b@.current, action),
        },
{
    let n = b.child_count();
    let player = b.to_play();
    let ghost v = b@;
    let mut i: usize = 0;
    proof {
        board::lemma_board_wf(*b);
    }
    while i < n
        invariant
            i <= n,
            n == v.here().children.len(),
            v == b@,
            b.wf(),
            v.wf(),
            player == v.to_play(),
            forall|k: int| 0 <= k < i ==> !#[trigger] model::child_is(v.nodes, v.current, action, k),
        decreases n - i,
    {
        if let Some(m) = b.child_move(i) {
            proof {
                let c = v.here().children[i as int];
                assert(model::child_of(v.nodes, v.here().children[i as int], v.current as int));
                assert(c != 0);
                assert(model::hung(v.nodes, c as int));
                assert(model::step_ok(v.size, v.root_to_play, v.nodes, c as int));
            }
            if m.action == action && m.player == player {
                proof {
                    assert(model::child_is(v.nodes, v.current, action, i as int));
                    let j = choose|j: int| #[trigger] model::child_is(v.nodes, v.current, action, j);
                    assert(model::children_differ(v.nodes, v.current as int));
                    if j < i {
                        assert(!model::child_is(v.nodes, v.current, action, j));
                    } else if i < j {
                        assert(v.nodes[v.here().children[i as int] as int].record->0.action
                            != v.nodes[v.here().children[j] as int].record->0.action);
                    }
                }
                return Some(i);
            }
        }
        i += 1;
    }
    assert forall|k: int| !#[trigger] model::child_is(v.nodes, v.current, action, k) by {}
    None
}

impl GuanqiApp {
    /// Follows the engine's line as far as its moves are in the tree; nothing is added.
    pub fn handle_advance_pv(&mut self, line: &Vec<Option<Coord>>)
        requires
            old(self).wf(),
        ensures
            final(self).wf(),
            final(self)@ == (AppView {
                docs: old(self)@.docs.at(followed(old(self)@.docs.active.board, line@)),
                ..old(self)@
            }),
    {
        let ghost before = self@;
        let ghost end = followed(before.docs.active.board, line@);
        let mut i: usize = 0;
        let mut more = true;
        assert(line@.skip(0) =~= line@);
        assert(before.docs.at(before.docs.active.board) =~= before.docs);
        while i < line.len() && more
            invariant
                i <= line@.len(),
                self.wf(),
                self@ == (AppView {
                    docs: before.docs.at(self@.docs.active.board),
                    ..before
                }),
                more ==> followed(self@.docs.active.board, line@.skip(i as int)) == end,
                !more ==> self@.docs.active.board == end,
            decreases
                    line@.len() - i,
                    if more {
                        1int
                    } else {
                        0int
                    },
        {
            let action = match line[i] {
                Some(at) => Action::Place(at),
                None => Action::Pass,
            };
            let ghost b = self@.docs.active.board;
            let ghost mid = self@;
            assert(line@.skip(i as int)[0] == line@[i as int]);
            match find_child(&self.docs.active.board, action) {
                Some(k) => {
                    self.docs.select_child(k);
                    assert(line@.skip(i as int).skip(1) =~= line@.skip(i + 1));
                    assert(self@.docs =~= before.docs.at(b.branched(k)));
                    i += 1;
                },
                None => {
                    more = false;
                },
            }
        }
        proof {
            if more {
                assert(line@.skip(i as int).len() == 0);
            }
        }
    }
}

} // verus!
