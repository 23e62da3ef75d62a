//! Loading and saving, and what goes on after questions have been answered.

use vstd::prelude::*;
use super::confirm::{self, PendingConfirm, PostSaveAction, UnsavedConfirm};
use super::dialogs::{self, Effect};
use super::docs::{self, DocsView};
use super::game::{self, lost_text};
use super::notice::{with_warning, LoadNotice, NoticeView};
use super::{AppView, AskingView, GuanqiApp, TableView};
use crate::board::{self, Size};
use crate::play::GameSetup;
use crate::sgf::block::{self, note_block};
use crate::sgf::info;
use crate::sgf::load::{self, load_from_bytes, GameMeta, LoadErrorView, LoadedView, MetaView};
use crate::sgf::model;
use crate::sgf::save::{self, board_to_sgf};
use crate::text::{self, push_decimal};

verus! {

// ---- loading ----

/// The size of a board as shown to the user.
pub open spec fn size_words(size: Size) -> Seq<char> {
    text::decimal(size.side()) + "路"@
}

/// What is said of a record that was loaded.
pub open spec fn loaded_words(l: LoadedView) -> NoticeView {
    record_words(l.board.size, (l.board.nodes.len() - 1) as nat, l.warning, l.partial)
}

/// What is said of a record with a size, a number of moves, and something that went wrong.
pub open spec fn record_words(
    board_size: Size,
    count: nat,
    warning: Option<Seq<char>>,
    partial: bool,
) -> NoticeView {
    let size = size_words(board_size);
    let moves = text::decimal(count);
    match warning {
        Some(w) => if partial {
            NoticeView::Warn("已部分载入 "@ + size + "（全树共 "@ + moves + " 手）："@ + w)
        } else {
            NoticeView::Done("已载入 "@ + size + "（全树共 "@ + moves + " 手，"@ + w + "）"@)
        },
        None => NoticeView::Done("已载入 "@ + size + " 棋谱，全树共 "@ + moves + " 手。"@),
    }
}

/// What is said of copies that were lost by loading.
pub open spec fn with_lost(n: NoticeView, lost: usize) -> NoticeView {
    if lost > 0 {
        NoticeView::Warn(n.words() + game::lost_words(lost))
    } else {
        n
    }
}

/// What is said of comments and properties that belong to no position.
pub open spec fn with_unplaced(n: NoticeView, comments: usize, props: usize) -> NoticeView {
    let c = text::decimal(comments as nat);
    let p = text::decimal(props as nat);
    if comments == 0 && props == 0 {
        n
    } else if props == 0 {
        NoticeView::Warn(
            n.words() + ("（谱上有 "@ + c + " 条注释因所在节点没有着法，无法保留。）"@),
        )
    } else if comments == 0 {
        NoticeView::Warn(
            n.words() + ("（谱上另有 "@ + p
                + " 条标记/扩展属性挂在无法载入的节点上，另存时将无法保留。）"@),
        )
    } else {
        NoticeView::Warn(
            n.words() + ("（谱上有 "@ + c + " 条注释因所在节点没有着法无法保留；另有 "@ + p
                + " 条标记/扩展属性挂在无法载入的节点上，另存时将无法保留。）"@),
        )
    }
}

impl AppView {
    /// The state after a record has been loaded: it replaces the record and the copies.
    pub open spec fn with_record(self, l: LoadedView) -> AppView {
        AppView {
            docs: self.docs.replaced(l.board, Some(l.meta)),
            table: TableView {
                komi: match l.meta.info.komi {
                    Some(k) => k,
                    None => "7.5"@,
                },
                active_rules: None,
                ..self.table
            },
            asking: AskingView { copies: PendingConfirm::Nothing, ..self.asking },
            marks: self.marks.cleared(),
            ..self
        }.told(
            with_unplaced(
                with_lost(loaded_words(l), self.docs.research_moves()),
                l.dropped_comments,
                l.unplaced_props,
            ),
        )
    }

    /// The state after an attempt to load bytes.
    pub open spec fn loading(self, got: Result<LoadedView, LoadErrorView>) -> AppView {
        match got {
            Ok(l) => self.with_record(l),
            Err(e) => self.told(NoticeView::Failed("打开棋谱失败："@ + e.message())),
        }
    }
}

fn loaded_text(size: Size, moves: usize, warning: &Option<String>, partial: bool) -> (r: LoadNotice)
    ensures
        r@ == record_words(size, moves as nat, info::opt_text(*warning), partial),
{
    let ghost l = record_words(size, moves as nat, info::opt_text(*warning), partial);
    let mut out = String::new();
    match warning {
        Some(w) => {
            if partial {
                out.append("已部分载入 ");
                out.append(size.display().as_str());
                out.append("（全树共 ");
                push_decimal(&mut out, moves as u64);
                out.append(" 手）：");
                out.append(w.as_str());
                assert(NoticeView::Warn(out@) =~= l);
                LoadNotice::Warn(out)
            } else {
                out.append("已载入 ");
                out.append(size.display().as_str());
                out.append("（全树共 ");
                push_decimal(&mut out, moves as u64);
                out.append(" 手，");
                out.append(w.as_str());
                out.append("）");
                assert(NoticeView::Done(out@) =~= l);
                LoadNotice::Done(out)
            }
        },
        None => {
            out.append("已载入 ");
            out.append(size.display().as_str());
            out.append(" 棋谱，全树共 ");
            push_decimal(&mut out, moves as u64);
            out.append(" 手。");
            assert(NoticeView::Done(out@) =~= l);
            LoadNotice::Done(out)
        },
    }
}

fn add_lost(n: LoadNotice, lost: usize) -> (r: LoadNotice)
    ensures
        r@ == with_lost(n@, lost),
{
    if lost > 0 {
        with_warning(&n, lost_text(lost).as_str())
    } else {
        n
    }
}

fn add_unplaced(n: LoadNotice, comments: usize, props: usize) -> (r: LoadNotice)
    ensures
        r@ == with_unplaced(n@, comments, props),
{
    if comments == 0 && props == 0 {
        return n;
    }
    let mut out = String::new();
    if props == 0 {
        out.append("（谱上有 ");
        push_decimal(&mut out, comments as u64);
        out.append(" 条注释因所在节点没有着法，无法保留。）");
    } else if comments == 0 {
        out.append("（谱上另有 ");
        push_decimal(&mut out, props as u64);
        out.append(" 条标记/扩展属性挂在无法载入的节点上，另存时将无法保留。）");
    } else {
        out.append("（谱上有 ");
        push_decimal(&mut out, comments as u64);
        out.append(" 条注释因所在节点没有着法无法保留；另有 ");
        push_decimal(&mut out, props as u64);
        out.append(" 条标记/扩展属性挂在无法载入的节点上，另存时将无法保留。）");
    }
    let r = with_warning(&n, out.as_str());
    assert(r@ =~= with_unplaced(n@, comments, props));
    r
}

impl GuanqiApp {
    /// Loads a record from the bytes of a file. Says whether that has worked; the caller then
    /// forgets what the engine found before.
    pub fn load_game_from_bytes(&mut self, path: &str, bytes: &[u8]) -> (r: bool)
        requires
            old(self).wf(),
        ensures
            final(self).wf(),
            final(self)@ == old(self)@.loading(load::loaded(path@, bytes@)),
            r == load::loaded(path@, bytes@) is Ok,
    {
        match load_from_bytes(path, bytes) {
            Err(e) => {
                let mut out = "打开棋谱失败：".to_owned();
                out.append(e.message().as_str());
                self.notices.push(LoadNotice::Failed(out));
                false
            },
            Ok(got) => {
                let ghost l = got@;
                let ghost before = self@;
                let lost = self.docs.research_moves();
                let size = got.board.size();
                let moves = got.board.move_count();
                let said = loaded_text(size, moves, &got.warning, got.partial);
                let said = add_unplaced(
                    add_lost(said, lost),
                    got.dropped_comments,
                    got.unplaced_props,
                );
                let komi = match &got.meta.info().komi {
                    Some(k) => k.clone(),
                    None => "7.5".to_owned(),
                };
                let (board, meta) = got.into_parts();
                self.docs.replace(board, Some(meta));
                self.table.komi = komi;
                self.table.active_rules = None;
                self.asking.copies = PendingConfirm::Nothing;
                self.clear_board_derived();
                self.notices.push(said);
                assert(self@ =~= before.with_record(l));
                true
            },
        }
    }

    /// Takes in that a file could not be read.
    pub fn read_failed(&mut self, path: &str, why: &str)
        requires
            old(self).wf(),
        ensures
            final(self).wf(),
            final(self)@ == old(self)@.told(
                NoticeView::Failed("读取 "@ + path@ + " 失败："@ + why@),
            ),
    {
        let mut out = "读取 ".to_owned();
        out.append(path);
        out.append(" 失败：");
        out.append(why);
        self.notices.push(LoadNotice::Failed(out));
    }
}

// ---- saving ----

/// What is said of a document that was saved.
pub open spec fn saved_words(path: Seq<char>, size: Size, moves: nat) -> Seq<char> {
    "已另存到 "@ + path + "（"@ + size_words(size) + "，"@ + text::decimal(moves) + " 手）。"@
}

/// What is kept beside a board that was saved to `path`.
pub open spec fn saved_meta(meta: Option<MetaView>, path: Seq<char>, size: Size) -> MetaView {
    match meta {
        Some(m) => MetaView { source: path, ..m },
        None => MetaView {
            source: path,
            info: info::GameInfo::blank_spec(size),
            comments: Map::empty(),
            extras: Map::empty(),
        },
    }
}

/// What is saved beside a board: what the engine said of how the game ended stands in the comment,
/// and so do the numbers of the game, each in a block of its own; the rest of the comment stays.
pub open spec fn with_blocks(m: MetaView, stats: Option<Seq<char>>) -> MetaView {
    MetaView {
        info: info::InfoView {
            root_comment: block::noted(
                block::noted(
                    m.info.root_comment,
                    block::RESULT_OPEN@,
                    block::RESULT_CLOSE@,
                    m.info.result_block,
                ),
                block::STATS_OPEN@,
                block::STATS_CLOSE@,
                stats,
            ),
            ..m.info
        },
        ..m
    }
}

fn blocks_noted(m: &GameMeta, stats: Option<&str>) -> (r: GameMeta)
    ensures
        r@ == with_blocks(
            m@,
            match stats {
                Some(s) => Some(s@),
                None => None,
            },
        ),
{
    let mut out = m.clone();
    let mut what = m.info().clone();
    let result = match &what.result_block {
        Some(b) => Some(b.as_str()),
        None => None,
    };
    let ended = note_block(
        &what.root_comment,
        block::RESULT_OPEN,
        block::RESULT_CLOSE,
        result,
    );
    what.root_comment = note_block(&ended, block::STATS_OPEN, block::STATS_CLOSE, stats);
    out.set_info(what);
    out
}

/// The version of SGF that a record had, where saving it changes that.
pub open spec fn other_format(meta: Option<MetaView>) -> Option<u8> {
    match meta {
        Some(m) => match m.info.format {
            Some(n) if n != 4 => Some(n),
            _ => None,
        },
        None => None,
    }
}

impl AppView {
    /// The state after the active document was saved, before anything goes on.
    pub open spec fn saved(self, path: Seq<char>) -> AppView {
        let d = self.docs.active;
        let now = AppView {
            docs: DocsView {
                dirty: false,
                ..self.docs.with_meta(Some(saved_meta(d.meta, path, d.board.size)))
            },
            ..self
        }.not_going_on().told(NoticeView::Done(saved_words(path, d.board.size, (d.board.nodes.len() - 1) as nat)));
        match other_format(d.meta) {
            Some(n) => now.told(
                NoticeView::Warn(
                    "原谱 SGF 版本为 FF["@ + text::decimal(n as nat) + "]，已按 FF[4] 另存。"@,
                ),
            ),
            None => now,
        }
    }

    /// The state with the end of the program asked for.
    pub open spec fn leaving(self) -> AppView {
        AppView { asking: AskingView { exit_requested: true, ..self.asking }, ..self }
    }

    /// What comes of something that goes on after saving.
    pub open spec fn going_on(self, then: PostSaveAction) -> (AppView, Next) {
        match then {
            PostSaveAction::Nothing => (self, Next::Nothing),
            PostSaveAction::NewGame(s) => (
                self.with_game(s),
                Next::GameStarted { save_settings: game::game_settings(self.engine_cfg, s)
                    != self.engine_cfg },
            ),
            PostSaveAction::OpenDialog => (self.wanting_open().0, Next::Dialog),
            PostSaveAction::Exit => (self.leaving(), Next::Nothing),
        }
    }
}

/// What the caller is to do after a step that may go on to something else.
#[derive(Clone, Copy, PartialEq, Eq, Structural, Debug)]
pub enum Next {
    /// Nothing.
    Nothing,
    /// A game has started: what the engine found before is to be forgotten, and the settings may
    /// have to be written.
    GameStarted { save_settings: bool },
    /// See whether a dialog is to be shown.
    Dialog,
}

fn saved_text(path: &str, size: Size, moves: usize) -> (r: String)
    ensures
        r@ == saved_words(path@, size, moves as nat),
{
    let mut out = "已另存到 ".to_owned();
    out.append(path);
    out.append("（");
    out.append(size.display().as_str());
    out.append("，");
    push_decimal(&mut out, moves as u64);
    out.append(" 手）。");
    assert(out@ =~= saved_words(path@, size, moves as nat));
    out
}

impl GuanqiApp {
    /// The text of the document on the board, as it is saved. Into the comment of the record goes
    /// what the engine said of how the game ended, and the numbers of the game, `stats`.
    pub fn document_text(&self, stats: Option<&str>) -> (r: String)
        requires
            self.wf(),
        ensures
            r@ == model::written(
                save::saved_tree(
                    self@.docs.active.board,
                    match self@.docs.active.meta {
                        Some(m) => Some(
                            with_blocks(
                                m,
                                match stats {
                                    Some(s) => Some(s@),
                                    None => None,
                                },
                            ),
                        ),
                        None => None,
                    },
                ),
            ),
    {
        match &self.docs.active.meta {
            Some(m) => {
                let noted = blocks_noted(m, stats);
                board_to_sgf(&self.docs.active.board, Some(&noted))
            },
            None => board_to_sgf(&self.docs.active.board, None),
        }
    }

    fn told_format(&self) -> (r: Option<u8>)
        ensures
            r == other_format(self@.docs.active.meta),
    {
        match &self.docs.active.meta {
            Some(m) => match m.info().format {
                Some(n) => if n != 4 {
                    Some(n)
                } else {
                    None
                },
                None => None,
            },
            None => None,
        }
    }

    fn take_in_saved(&mut self, path: &str)
        requires
            old(self).wf(),
        ensures
            final(self).wf(),
            final(self)@ == old(self)@.saved(path@),
    {
        let ghost before = self@;
        let format = self.told_format();
        let size = self.docs.active.board.size();
        let moves = self.docs.active.board.move_count();
        let said = saved_text(path, size, moves);
        let meta = match &self.docs.active.meta {
            Some(m) => {
                let mut m2 = m.clone();
                m2.set_source(path.to_owned());
                m2
            },
            None => GameMeta::for_path(path, size),
        };
        assert(meta@ =~= saved_meta(before.docs.active.meta, path@, before.docs.active.board.size));
        self.docs.set_meta(meta);
        let ghost d1 = self.docs@;
        self.docs.dirty = false;
        proof {
            docs::lemma_same_docs(d1, self.docs@);
        }
        self.asking.post_save = PostSaveAction::Nothing;
        self.notices.push(LoadNotice::Done(said));
        if let Some(n) = format {
            let mut out = "原谱 SGF 版本为 FF[".to_owned();
            push_decimal(&mut out, n as u64);
            out.append("]，已按 FF[4] 另存。");
            self.notices.push(LoadNotice::Warn(out));
        }
        assert(self@ =~= before.saved(path@));
    }

    /// Takes in that the active document was saved to `path`, and goes on with what waited for
    /// that. With [`Next::Dialog`] comes the dialog to show, if any.
    pub fn saved(&mut self, path: &str) -> (r: (Next, Option<Effect>))
        requires
            old(self).wf(),
        ensures
            final(self).wf(),
            (final(self)@, r.0) == old(self)@.saved(path@).going_on(old(self)@.asking.post_save),
            dialogs::opt_effect(r.1) == if old(self)@.asking.post_save is OpenDialog {
                old(self)@.saved(path@).wanting_open().1
            } else {
                None
            },
    {
        let mut then = PostSaveAction::Nothing;
        std::mem::swap(&mut then, &mut self.asking.post_save);
        let ghost mid = self@;
        self.take_in_saved(path);
        proof {
            assert(mid.saved(path@) =~= old(self)@.saved(path@));
        }
        match then {
            PostSaveAction::Nothing => (Next::Nothing, None),
            PostSaveAction::NewGame(s) => {
                let save_settings = self.start_new_game(s);
                (Next::GameStarted { save_settings }, None)
            },
            PostSaveAction::OpenDialog => {
                let e = self.open_file_dialog();
                (Next::Dialog, e)
            },
            PostSaveAction::Exit => {
                self.asking.exit_requested = true;
                (Next::Nothing, None)
            },
        }
    }

    /// Takes in that the active document could not be saved: nothing goes on then.
    pub fn save_failed(&mut self, path: &str, why: &str)
        requires
            old(self).wf(),
        ensures
            final(self).wf(),
            final(self)@ == old(self)@.not_going_on().told(
                NoticeView::Failed("保存到 "@ + path@ + " 失败："@ + why@),
            ),
    {
        let mut out = "保存到 ".to_owned();
        out.append(path);
        out.append(" 失败：");
        out.append(why);
        self.asking.post_save = PostSaveAction::Nothing;
        self.notices.push(LoadNotice::Failed(out));
    }
}

// ---- questions ----

impl AppView {
    /// The state after a game was asked for: copies with moves tried in them and unsaved changes
    /// come first.
    pub open spec fn wanting_game(self, setup: GameSetup) -> (AppView, Next) {
        if self.docs.research_moves() > 0 {
            (
                AppView {
                    asking: AskingView { copies: PendingConfirm::NewGame(setup), ..self.asking },
                    ..self
                },
                Next::Nothing,
            )
        } else if self.docs.dirty {
            (
                AppView {
                    asking: AskingView {
                        unsaved: Some(UnsavedConfirm::NewGame(setup)),
                        ..self.asking
                    },
                    ..self
                },
                Next::Nothing,
            )
        } else {
            (
                AppView {
                    panels: super::Panels { new_game_open: false, ..self.panels },
                    ..self
                }.with_game(setup),
                Next::GameStarted { save_settings: game::game_settings(self.engine_cfg, setup)
                    != self.engine_cfg },
            )
        }
    }

    /// The state with no question about copies.
    pub open spec fn copies_answered(self) -> AppView {
        AppView { asking: AskingView { copies: PendingConfirm::Nothing, ..self.asking }, ..self }
    }

    /// The state with no question about unsaved changes.
    pub open spec fn unsaved_answered(self) -> AppView {
        AppView { asking: AskingView { unsaved: None, ..self.asking }, ..self }
    }
}

impl GuanqiApp {
    /// Asks for a game: copies with moves tried in them and unsaved changes come first.
    pub fn want_new_game(&mut self, setup: GameSetup) -> (r: Next)
        requires
            old(self).wf(),
        ensures
            final(self).wf(),
            (final(self)@, r) == old(self)@.wanting_game(setup),
    {
        if self.docs.research_moves() > 0 {
            self.asking.copies = PendingConfirm::NewGame(setup);
            return Next::Nothing;
        }
        if self.docs.dirty {
            self.asking.unsaved = Some(UnsavedConfirm::NewGame(setup));
            return Next::Nothing;
        }
        self.panels.new_game_open = false;
        let save_settings = self.start_new_game(setup);
        Next::GameStarted { save_settings }
    }

    /// What the user is asked about copies, if anything.
    pub fn copies_question(&self) -> (r: Option<String>)
        requires
            self.wf(),
        ensures
            match r {
                Some(s) => !(self@.asking.copies is Nothing) && s@ == match self@.asking.copies {
                    PendingConfirm::DropCopy { number } => confirm::copies_question(
                        self@.asking.copies,
                        1,
                        match self@.docs.doc_research(number) {
                            Some(n) => n,
                            None => 0,
                        },
                    ),
                    _ => confirm::copies_question(
                        self@.asking.copies,
                        self@.docs.copy_count(),
                        self@.docs.research_moves() as nat,
                    ),
                },
                None => self@.asking.copies is Nothing,
            },
    {
        match &self.asking.copies {
            PendingConfirm::Nothing => None,
            PendingConfirm::DropCopy { number } => {
                let moves = match self.docs.doc_research(*number) {
                    Some(n) => n,
                    None => 0,
                };
                Some(self.asking.copies.text(1, moves))
            },
            _ => Some(
                self.asking.copies.text(self.docs.copy_count(), self.docs.research_moves()),
            ),
        }
    }

    /// The user does not want copies to be lost; an open dialog for a record is forgotten.
    pub fn keep_copies(&mut self)
        requires
            old(self).wf(),
        ensures
            final(self).wf(),
            final(self)@ == (AppView {
                asking: AskingView {
                    copies: PendingConfirm::Nothing,
                    dialog: if old(self)@.asking.copies is LoadGame {
                        None
                    } else {
                        old(self)@.asking.dialog
                    },
                    ..old(self)@.asking
                },
                ..old(self)@
            }),
    {
        if matches!(self.asking.copies, PendingConfirm::LoadGame) {
            self.asking.dialog = None;
        }
        self.asking.copies = PendingConfirm::Nothing;
    }

    /// The user agrees to lose copies: what was asked about is done.
    pub fn lose_copies(&mut self) -> (r: (Next, Option<Effect>))
        requires
            old(self).wf(),
            old(self).asking.copies matches PendingConfirm::DropCopy { number } ==> number != 0,
        ensures
            final(self).wf(),
            match old(self)@.asking.copies {
                PendingConfirm::Nothing => final(self)@ == old(self)@ && r.0 == Next::Nothing
                    && r.1 is None,
                PendingConfirm::DropCopy { number } => final(self)@
                    == old(self)@.copies_answered().without_copy(number) && r.0 == Next::Nothing
                    && r.1 is None,
                PendingConfirm::LoadGame => {
                    &&& r.0 == Next::Dialog
                    &&& (final(self)@, dialogs::opt_effect(r.1)) == if old(
                        self,
                    )@.docs.dirty {
                        (
                            AppView {
                                asking: AskingView {
                                    unsaved: Some(UnsavedConfirm::OpenDialog),
                                    ..old(self)@.copies_answered().asking
                                },
                                ..old(self)@.copies_answered()
                            },
                            None,
                        )
                    } else {
                        old(self)@.copies_answered().opening()
                    }
                },
                PendingConfirm::NewGame(s) => {
                    &&& r.1 is None
                    &&& final(self)@ == old(self)@.copies_answered().with_game(s)
                    &&& r.0 == Next::GameStarted { save_settings: game::game_settings(
                        old(self)@.engine_cfg,
                        s,
                    ) != old(self)@.engine_cfg }
                },
            },
    {
        let mut what = PendingConfirm::Nothing;
        std::mem::swap(&mut what, &mut self.asking.copies);
        assert(self@ =~= old(self)@.copies_answered());
        match what {
            PendingConfirm::Nothing => {
                assert(self@ =~= old(self)@);
                (Next::Nothing, None)
            },
            PendingConfirm::DropCopy { number } => {
                self.drop_copy(number);
                (Next::Nothing, None)
            },
            PendingConfirm::LoadGame => {
                if self.docs.dirty {
                    self.asking.unsaved = Some(UnsavedConfirm::OpenDialog);
                    return (Next::Dialog, None);
                }
                let e = self.open_file_dialog_now();
                (Next::Dialog, e)
            },
            PendingConfirm::NewGame(s) => {
                let save_settings = self.start_new_game(s);
                (Next::GameStarted { save_settings }, None)
            },
        }
    }
}

} // verus!
