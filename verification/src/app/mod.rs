//! The window around the board: documents, questions to the user, games and what is remembered.
//!
//! [`GuanqiApp`] holds the state. Its methods take what happened and say what is to be done; files,
//! dialogs, the engine and the drawing are the caller's.

use vstd::prelude::*;

pub mod confirm;
pub mod dialogs;
pub mod docs;
pub mod documents;
pub mod files;
pub mod frame;
pub mod game;
pub mod laws;
pub mod menu;
pub mod names;
pub mod notice;
pub mod panel;
pub mod prefs;
pub mod snapshot;

use crate::board::{self, Board, Coord, IllegalReason, MoveRecord, RecordView};
use crate::engine::settings::{ConfigView, EngineConfig};
use crate::play::{self, PlayState};
use confirm::{PendingConfirm, PendingDialog, PostSaveAction, UnsavedConfirm};
use docs::{Docs, DocsView};
use notice::{FeedView, NoticeFeed};
use prefs::Panels;

verus! {

/// What the user is being asked, and what waits for the answer.
#[derive(Debug)]
pub struct Asking {
    /// About copies that would be lost.
    pub copies: PendingConfirm,
    /// About changes that would be lost.
    pub unsaved: Option<UnsavedConfirm>,
    /// What goes on once saving has worked.
    pub post_save: PostSaveAction,
    /// The file dialog that is open.
    pub dialog: Option<PendingDialog>,
    /// Why there are no file dialogs, if there are none.
    pub portal_unavailable: Option<String>,
    /// Whether the program is to end.
    pub exit_requested: bool,
    /// Whether the window has been told to close.
    pub close_sent: bool,
}

/// The model of [`Asking`].
#[verifier::ext_equal]
pub struct AskingView {
    pub copies: PendingConfirm,
    pub unsaved: Option<UnsavedConfirm>,
    pub post_save: PostSaveAction,
    pub dialog: Option<PendingDialog>,
    pub portal_unavailable: Option<Seq<char>>,
    pub exit_requested: bool,
    pub close_sent: bool,
}

impl View for Asking {
    type V = AskingView;

    open spec fn view(&self) -> AskingView {
        AskingView {
            copies: self.copies,
            unsaved: self.unsaved,
            post_save: self.post_save,
            dialog: self.dialog,
            portal_unavailable: names::opt_text(self.portal_unavailable),
            exit_requested: self.exit_requested,
            close_sent: self.close_sent,
        }
    }
}

/// What is marked on the active board.
pub struct Marks {
    /// The candidate that is looked at.
    pub focus: Option<Coord>,
    /// Why the last move could not be played.
    pub notice: Option<IllegalReason>,
    /// What was said of a new variation.
    pub branch_notice: Option<String>,
    /// Whether the user has asked to see the candidates.
    pub revealed: bool,
    /// The moves to the position for which they were asked for.
    pub revealed_at: Option<Vec<MoveRecord>>,
}

/// The model of [`Marks`].
#[verifier::ext_equal]
pub struct MarksView {
    pub focus: Option<Coord>,
    pub notice: Option<IllegalReason>,
    pub branch_notice: Option<Seq<char>>,
    pub revealed: bool,
    pub revealed_at: Option<Seq<RecordView>>,
}

impl View for Marks {
    type V = MarksView;

    open spec fn view(&self) -> MarksView {
        MarksView {
            focus: self.focus,
            notice: self.notice,
            branch_notice: names::opt_text(self.branch_notice),
            revealed: self.revealed,
            revealed_at: match self.revealed_at {
                Some(v) => Some(board::record_views(v@)),
                None => None,
            },
        }
    }
}

impl MarksView {
    /// What is left of the marks when the board is replaced.
    pub open spec fn cleared(self) -> MarksView {
        MarksView { focus: None, notice: None, branch_notice: None, ..self }
    }

    /// The marks without the candidates shown on demand.
    pub open spec fn hidden(self) -> MarksView {
        MarksView { revealed: false, revealed_at: None, ..self }
    }
}

/// The game that is on, and the terms on which positions are judged.
#[derive(Debug)]
pub struct Table {
    pub play: PlayState,
    /// The number as it is written.
    pub komi: String,
    /// The rules of a game that was started here, by the engine's name; `None` for a record.
    pub active_rules: Option<String>,
    /// When the human's clock was last looked at, in nanoseconds.
    pub last_frame: Option<u64>,
}

/// The model of [`Table`].
#[verifier::ext_equal]
pub struct TableView {
    pub play: PlayState,
    pub komi: Seq<char>,
    pub active_rules: Option<Seq<char>>,
    pub last_frame: Option<u64>,
}

impl View for Table {
    type V = TableView;

    open spec fn view(&self) -> TableView {
        TableView {
            play: self.play,
            komi: self.komi@,
            active_rules: names::opt_text(self.active_rules),
            last_frame: self.last_frame,
        }
    }
}

/// The state of the window.
pub struct GuanqiApp {
    pub docs: Docs,
    pub table: Table,
    pub notices: NoticeFeed,
    pub asking: Asking,
    pub marks: Marks,
    pub panels: Panels,
    pub engine_cfg: EngineConfig,
    /// What was said of the settings when the program started.
    pub startup_notice: Option<String>,
    /// Why the settings could not be written, if they could not.
    pub persist_notice: Option<String>,
    /// Since when changes of what is remembered rest, in milliseconds.
    pub prefs_dirty_since: Option<u64>,
}

/// The model of [`GuanqiApp`].
#[verifier::ext_equal]
pub struct AppView {
    pub docs: DocsView,
    pub table: TableView,
    pub notices: FeedView,
    pub asking: AskingView,
    pub marks: MarksView,
    pub panels: Panels,
    pub engine_cfg: ConfigView,
    pub startup_notice: Option<Seq<char>>,
    pub persist_notice: Option<Seq<char>>,
    pub prefs_dirty_since: Option<u64>,
}

impl View for GuanqiApp {
    type V = AppView;

    open spec fn view(&self) -> AppView {
        AppView {
            docs: self.docs@,
            table: self.table@,
            notices: self.notices@,
            asking: self.asking@,
            marks: self.marks@,
            panels: self.panels,
            engine_cfg: self.engine_cfg@,
            startup_notice: names::opt_text(self.startup_notice),
            persist_notice: names::opt_text(self.persist_notice),
            prefs_dirty_since: self.prefs_dirty_since,
        }
    }
}

/// The texts of a row of strings.
pub open spec fn texts(v: Seq<String>) -> Seq<Seq<char>> {
    v.map_values(|s: String| s@)
}

/// Notices at the start, one to a line.
pub open spec fn startup_words(first: Option<Seq<char>>, more: Seq<Seq<char>>) -> Option<Seq<char>>
    decreases more.len(),
{
    if more.len() == 0 {
        first
    } else {
        Some(
            match startup_words(first, more.drop_last()) {
                Some(s) => s + "\n"@ + more.last(),
                None => more.last(),
            },
        )
    }
}

impl GuanqiApp {
    /// A state that makes sense.
    pub open spec fn wf(self) -> bool {
        self.docs.wf() && self.notices@.wf()
    }

    /// The state when the program starts: an empty board, what is shown as it is remembered, and
    /// no game. `limit` is the number of notices that are kept.
    pub fn new_with_prefs(
        engine_cfg: EngineConfig,
        startup_notice: Option<String>,
        notices: Vec<String>,
        portal_unavailable: Option<String>,
        limit: usize,
    ) -> (r: Self)
        ensures
            r.wf(),
            r@.docs.active.board == board::fresh_board(
                board::Size::of(19),
                board::Stone::Black,
                Seq::new(board::Size::of(19).points(), |i: int| None),
            ),
            r@.docs.active.meta is None,
            r@.docs.active.from_move is None,
            r@.docs.active.number == 0,
            r@.docs.others.len() == 0,
            r@.docs.next_number == 1,
            !r@.docs.dirty,
            r@.docs.epoch == 0,
            r@.table == (TableView {
                play: play::reviewing(),
                komi: "7.5"@,
                active_rules: None,
                last_frame: None,
            }),
            r@.notices == (FeedView { list: Seq::empty(), limit }),
            r@.asking == (AskingView {
                copies: PendingConfirm::Nothing,
                unsaved: None,
                post_save: PostSaveAction::Nothing,
                dialog: None,
                portal_unavailable: names::opt_text(portal_unavailable),
                exit_requested: false,
                close_sent: false,
            }),
            r@.marks == (MarksView {
                focus: None,
                notice: None,
                branch_notice: None,
                revealed: false,
                revealed_at: None,
            }),
            r@.panels == prefs::panels_in(engine_cfg@.ui_prefs),
            r@.engine_cfg == engine_cfg@,
            r@.startup_notice == startup_words(
                names::opt_text(startup_notice),
                texts(notices@),
            ),
            r@.persist_notice is None,
            r@.prefs_dirty_since is None,
    {
        let panels = Panels::from_prefs(&engine_cfg.ui_prefs);
        let said = startup_text(startup_notice, &notices);
        GuanqiApp {
            docs: Docs::new(),
            table: Table {
                play: PlayState::review(),
                komi: "7.5".to_owned(),
                active_rules: None,
                last_frame: None,
            },
            notices: NoticeFeed::new(limit),
            asking: Asking {
                copies: PendingConfirm::Nothing,
                unsaved: None,
                post_save: PostSaveAction::Nothing,
                dialog: None,
                portal_unavailable,
                exit_requested: false,
                close_sent: false,
            },
            marks: Marks {
                focus: None,
                notice: None,
                branch_notice: None,
                revealed: false,
                revealed_at: None,
            },
            panels,
            engine_cfg,
            startup_notice: said,
            persist_notice: None,
            prefs_dirty_since: None,
        }
    }

    /// Asks for the end of the program; where changes are not saved, the user is asked first.
    pub fn request_exit(&mut self)
        ensures
            final(self)@ == old(self)@.wanting_exit(),
            final(self).wf() == old(self).wf(),
    {
        if self.docs.dirty && !self.asking.exit_requested {
            if self.asking.unsaved.is_none() {
                self.asking.unsaved = Some(UnsavedConfirm::Exit);
            }
        } else {
            self.asking.exit_requested = true;
        }
    }

    /// Whether the active document has changed since it was saved or loaded.
    pub fn is_dirty(&self) -> (r: bool)
        ensures
            r == self@.docs.dirty,
    {
        self.docs.dirty
    }

    /// The board of the active document.
    pub fn board(&self) -> (r: &Board)
        ensures
            *r == self.docs.active.board,
    {
        &self.docs.active.board
    }
}

/// Notices at the start, one to a line.
fn startup_text(first: Option<String>, more: &Vec<String>) -> (r: Option<String>)
    ensures
        names::opt_text(r) == startup_words(names::opt_text(first), texts(more@)),
{
    let ghost f = names::opt_text(first);
    let ghost all = texts(more@);
    let mut out = first;
    let mut i: usize = 0;
    assert(all.take(0).len() == 0);
    while i < more.len()
        invariant
            i <= more@.len(),
            all == texts(more@),
            names::opt_text(out) == startup_words(f, all.take(i as int)),
        decreases more@.len() - i,
    {
        proof {
            assert(all.take(i + 1).drop_last() =~= all.take(i as int));
            assert(all.take(i + 1).last() == more@[i as int]@);
        }
        out = match out {
            Some(s) => {
                let mut t = s;
                t.append("\n");
                t.append(more[i].as_str());
                Some(t)
            },
            None => Some(more[i].clone()),
        };
        i += 1;
    }
    assert(all.take(i as int) =~= all);
    out
}

} // verus!
