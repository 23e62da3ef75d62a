//! File dialogs, questions and what comes of the answers.

use vstd::prelude::*;
use super::confirm::{PendingConfirm, PendingDialog, PostSaveAction, UnsavedConfirm};
use super::names::{self, dir_of};
use super::notice::{LoadNotice, NoticeView};
use super::{AppView, AskingView, GuanqiApp};
use crate::engine::settings::{ConfigView, PrefsView, UiPrefs};
use crate::portal::PortalEvent;
use crate::text::same_text;

verus! {

/// What the caller is to do.
#[derive(Debug)]
pub enum Effect {
    /// Show a dialog for a record to open, starting in a directory.
    OpenDialog { dir: Option<String> },
    /// Show a dialog for a place to save at, starting in a directory.
    SaveDialog { name: String, dir: Option<String> },
    /// Read a file.
    ReadFile(String),
    /// Write the active document to a file.
    WriteFile(String),
}

/// The model of [`Effect`].
pub enum EffectView {
    OpenDialog { dir: Option<Seq<char>> },
    SaveDialog { name: Seq<char>, dir: Option<Seq<char>> },
    ReadFile(Seq<char>),
    WriteFile(Seq<char>),
}

impl View for Effect {
    type V = EffectView;

    open spec fn view(&self) -> EffectView {
        match *self {
            Effect::OpenDialog { dir } => EffectView::OpenDialog { dir: names::opt_text(dir) },
            Effect::SaveDialog { name, dir } => EffectView::SaveDialog {
                name: name@,
                dir: names::opt_text(dir),
            },
            Effect::ReadFile(p) => EffectView::ReadFile(p@),
            Effect::WriteFile(p) => EffectView::WriteFile(p@),
        }
    }
}

/// The directory that is remembered for a dialog.
pub open spec fn dir_in(p: PrefsView, kind: PendingDialog) -> Option<Seq<char>> {
    match kind {
        PendingDialog::Open => p.last_open_dir,
        PendingDialog::Save => p.last_save_dir,
    }
}

/// What is remembered, with another directory for a dialog.
pub open spec fn with_dir_in(p: PrefsView, kind: PendingDialog, dir: Seq<char>) -> PrefsView {
    match kind {
        PendingDialog::Open => PrefsView { last_open_dir: Some(dir), ..p },
        PendingDialog::Save => PrefsView { last_save_dir: Some(dir), ..p },
    }
}

fn has_dir(p: &UiPrefs, kind: PendingDialog, dir: &str) -> (r: bool)
    ensures
        r == (dir_in(p@, kind) == Some(dir@)),
{
    match kind {
        PendingDialog::Open => match &p.last_open_dir {
            Some(d) => same_text(d.as_str(), dir),
            None => false,
        },
        PendingDialog::Save => match &p.last_save_dir {
            Some(d) => same_text(d.as_str(), dir),
            None => false,
        },
    }
}

fn set_dir(p: &mut UiPrefs, kind: PendingDialog, dir: String)
    ensures
        final(p)@ == with_dir_in(old(p)@, kind, dir@),
{
    match kind {
        PendingDialog::Open => {
            p.last_open_dir = Some(dir);
        },
        PendingDialog::Save => {
            p.last_save_dir = Some(dir);
        },
    }
}

/// The view of what is to be done, if anything.
pub open spec fn opt_effect(e: Option<Effect>) -> Option<EffectView> {
    match e {
        Some(e) => Some(e@),
        None => None,
    }
}

/// Why no dialog can be opened now, if none can.
pub open spec fn refusal(a: AskingView) -> Option<NoticeView> {
    match a.portal_unavailable {
        Some(why) => Some(NoticeView::Warn("文件对话框不可用："@ + why)),
        None => if a.dialog is Some {
            Some(
                NoticeView::Warn(
                    "已有文件对话框正在等待选择，请先完成或取消。"@,
                ),
            )
        } else {
            None
        },
    }
}

impl AppView {
    /// The state with something told to the user.
    pub open spec fn told(self, n: NoticeView) -> AppView {
        AppView { notices: self.notices.told(n), ..self }
    }

    /// Asking for a record to open, with nothing in the way.
    pub open spec fn opening(self) -> (AppView, Option<EffectView>) {
        match refusal(self.asking) {
            Some(n) => (self.told(n), None),
            None => (
                AppView {
                    asking: AskingView { dialog: Some(PendingDialog::Open), ..self.asking },
                    ..self
                },
                Some(EffectView::OpenDialog { dir: self.engine_cfg.ui_prefs.last_open_dir }),
            ),
        }
    }

    /// Asking for a record to open: copies with moves tried in them and unsaved changes come
    /// first.
    pub open spec fn wanting_open(self) -> (AppView, Option<EffectView>) {
        if self.docs.research_moves() > 0 {
            (
                AppView {
                    asking: AskingView { copies: PendingConfirm::LoadGame, ..self.asking },
                    ..self
                },
                None,
            )
        } else if self.docs.dirty {
            (
                AppView {
                    asking: AskingView {
                        unsaved: Some(UnsavedConfirm::OpenDialog),
                        ..self.asking
                    },
                    ..self
                },
                None,
            )
        } else {
            self.opening()
        }
    }

    /// Asking for a place to save at; `then` goes on once that has worked.
    pub open spec fn saving(self, then: PostSaveAction) -> (AppView, Option<EffectView>) {
        match refusal(self.asking) {
            Some(n) => (self.told(n), None),
            None => (
                AppView {
                    asking: AskingView {
                        dialog: Some(PendingDialog::Save),
                        post_save: then,
                        ..self.asking
                    },
                    ..self
                },
                Some(
                    EffectView::SaveDialog {
                        name: self.docs.save_name(),
                        dir: match self.engine_cfg.ui_prefs.last_save_dir {
                            Some(d) => Some(d),
                            None => self.engine_cfg.ui_prefs.last_open_dir,
                        },
                    },
                ),
            ),
        }
    }

    /// The state after a dialog that could not be shown: what was to go on after saving becomes a
    /// question again.
    pub open spec fn no_dialog(self, why: Seq<char>) -> AppView {
        let a = self.asking;
        AppView {
            asking: if a.dialog == Some(PendingDialog::Save) {
                AskingView {
                    dialog: None,
                    post_save: PostSaveAction::Nothing,
                    unsaved: match a.post_save {
                        PostSaveAction::Nothing => a.unsaved,
                        PostSaveAction::NewGame(s) => Some(UnsavedConfirm::NewGame(s)),
                        PostSaveAction::OpenDialog => Some(UnsavedConfirm::OpenDialog),
                        PostSaveAction::Exit => Some(UnsavedConfirm::Exit),
                    },
                    ..a
                }
            } else {
                AskingView { dialog: None, ..a }
            },
            ..self
        }.told(NoticeView::Failed(why))
    }

    /// The state with changes of what is remembered, since `now` if there were none before.
    pub open spec fn changed(self, now: u64) -> AppView {
        AppView {
            prefs_dirty_since: match self.prefs_dirty_since {
                Some(t) => Some(t),
                None => Some(now),
            },
            ..self
        }
    }

    /// The state with another directory remembered for a dialog.
    pub open spec fn with_dir(self, kind: PendingDialog, dir: Seq<char>) -> AppView {
        AppView {
            engine_cfg: ConfigView {
                ui_prefs: with_dir_in(self.engine_cfg.ui_prefs, kind, dir),
                ..self.engine_cfg
            },
            ..self
        }
    }

    /// The state with the directory of a file remembered for a dialog.
    pub open spec fn remembering(self, kind: PendingDialog, path: Seq<char>, now: u64) -> AppView {
        match names::directory(path) {
            Some(d) => if dir_in(self.engine_cfg.ui_prefs, kind) == Some(d) {
                self
            } else {
                self.with_dir(kind, d).changed(now)
            },
            None => self,
        }
    }

    /// What comes of the end of a dialog.
    pub open spec fn after_dialog(self, kind: PendingDialog, event: PortalEvent, now: u64) -> (
        AppView,
        Option<EffectView>,
    ) {
        match (kind, event) {
            (PendingDialog::Open, PortalEvent::Picked(p)) => (
                self.remembering(kind, p@, now),
                Some(EffectView::ReadFile(p@)),
            ),
            (PendingDialog::Open, PortalEvent::Cancelled) => (self, None),
            (PendingDialog::Open, PortalEvent::Failed(e)) => (
                self.told(NoticeView::Failed(e@.message())),
                None,
            ),
            (PendingDialog::Save, PortalEvent::Picked(p)) => (
                self.remembering(kind, p@, now),
                Some(EffectView::WriteFile(p@)),
            ),
            (PendingDialog::Save, PortalEvent::Cancelled) => (self.not_going_on(), None),
            (PendingDialog::Save, PortalEvent::Failed(e)) => (
                self.not_going_on().told(NoticeView::Failed(e@.message())),
                None,
            ),
        }
    }

    /// The state with nothing that goes on after saving.
    pub open spec fn not_going_on(self) -> AppView {
        AppView {
            asking: AskingView { post_save: PostSaveAction::Nothing, ..self.asking },
            ..self
        }
    }
}

fn copy_dir(d: &Option<String>) -> (r: Option<String>)
    ensures
        names::opt_text(r) == names::opt_text(*d),
        names::opt_text(r) == crate::engine::record::opt_text(*d),
{
    match d {
        Some(s) => Some(s.clone()),
        None => None,
    }
}

impl GuanqiApp {
    /// Why no dialog can be opened now, if none can.
    pub fn dialog_guard(&self) -> (r: Option<LoadNotice>)
        ensures
            match r {
                Some(n) => refusal(self@.asking) == Some(n@),
                None => refusal(self@.asking) is None,
            },
    {
        match &self.asking.portal_unavailable {
            Some(why) => {
                let mut out = "文件对话框不可用：".to_owned();
                out.append(why.as_str());
                return Some(LoadNotice::Warn(out));
            },
            None => {},
        }
        if self.asking.dialog.is_some() {
            return Some(
                LoadNotice::Warn("已有文件对话框正在等待选择，请先完成或取消。".to_owned()),
            );
        }
        None
    }

    /// Asks for a record to open, with nothing in the way.
    pub fn open_file_dialog_now(&mut self) -> (r: Option<Effect>)
        requires
            old(self).wf(),
        ensures
            final(self).wf(),
            (final(self)@, opt_effect(r)) == old(self)@.opening(),
    {
        match self.dialog_guard() {
            Some(n) => {
                self.notices.push(n);
                None
            },
            None => {
                self.asking.dialog = Some(PendingDialog::Open);
                Some(Effect::OpenDialog { dir: copy_dir(&self.engine_cfg.ui_prefs.last_open_dir) })
            },
        }
    }

    /// Asks for a record to open: copies with moves tried in them and unsaved changes come first.
    pub fn open_file_dialog(&mut self) -> (r: Option<Effect>)
        requires
            old(self).wf(),
        ensures
            final(self).wf(),
            (final(self)@, opt_effect(r)) == old(self)@.wanting_open(),
    {
        if self.docs.research_moves() > 0 {
            self.asking.copies = PendingConfirm::LoadGame;
            return None;
        }
        if self.docs.dirty {
            self.asking.unsaved = Some(UnsavedConfirm::OpenDialog);
            return None;
        }
        self.open_file_dialog_now()
    }

    /// Asks for a place to save at; `then` goes on once that has worked.
    pub fn save_file_dialog_then(&mut self, then: PostSaveAction) -> (r: Option<Effect>)
        requires
            old(self).wf(),
        ensures
            final(self).wf(),
            (final(self)@, opt_effect(r)) == old(self)@.saving(then),
    {
        match self.dialog_guard() {
            Some(n) => {
                self.notices.push(n);
                None
            },
            None => {
                let name = self.docs.save_name();
                let dir = match &self.engine_cfg.ui_prefs.last_save_dir {
                    Some(d) => Some(d.clone()),
                    None => copy_dir(&self.engine_cfg.ui_prefs.last_open_dir),
                };
                self.asking.post_save = then;
                self.asking.dialog = Some(PendingDialog::Save);
                Some(Effect::SaveDialog { name, dir })
            },
        }
    }

    /// Asks for a place to save at.
    pub fn save_file_dialog(&mut self) -> (r: Option<Effect>)
        requires
            old(self).wf(),
        ensures
            final(self).wf(),
            (final(self)@, opt_effect(r)) == old(self)@.saving(PostSaveAction::Nothing),
    {
        self.save_file_dialog_then(PostSaveAction::Nothing)
    }

    /// Takes in that a dialog could not be shown.
    pub fn dialog_failed(&mut self, why: &str)
        requires
            old(self).wf(),
        ensures
            final(self).wf(),
            final(self)@ == old(self)@.no_dialog(why@),
    {
        if matches!(self.asking.dialog, Some(PendingDialog::Save)) {
            let mut then = PostSaveAction::Nothing;
            std::mem::swap(&mut then, &mut self.asking.post_save);
            match then {
                PostSaveAction::Nothing => {},
                PostSaveAction::NewGame(s) => {
                    self.asking.unsaved = Some(UnsavedConfirm::NewGame(s));
                },
                PostSaveAction::OpenDialog => {
                    self.asking.unsaved = Some(UnsavedConfirm::OpenDialog);
                },
                PostSaveAction::Exit => {
                    self.asking.unsaved = Some(UnsavedConfirm::Exit);
                },
            }
        }
        self.asking.dialog = None;
        self.notices.push(LoadNotice::Failed(why.to_owned()));
    }

    /// Takes in that something that is remembered has changed.
    pub fn mark_prefs_dirty(&mut self, now: u64)
        ensures
            final(self)@ == old(self)@.changed(now),
            final(self).wf() == old(self).wf(),
    {
        if self.prefs_dirty_since.is_none() {
            self.prefs_dirty_since = Some(now);
        }
    }

    /// Remembers the directory of a file for a dialog.
    pub fn remember_dir(&mut self, kind: PendingDialog, path: &str, now: u64)
        requires
            old(self).wf(),
        ensures
            final(self).wf(),
            final(self)@ == old(self)@.remembering(kind, path@, now),
    {
        let dir = match dir_of(path) {
            Some(d) => d,
            None => {
                return;
            },
        };
        if has_dir(&self.engine_cfg.ui_prefs, kind, dir.as_str()) {
            return;
        }
        set_dir(&mut self.engine_cfg.ui_prefs, kind, dir);
        self.mark_prefs_dirty(now);
    }

    /// Takes in how a dialog ended.
    pub fn on_portal_event(&mut self, kind: PendingDialog, event: PortalEvent, now: u64) -> (r: Option<
        Effect,
    >)
        requires
            old(self).wf(),
        ensures
            final(self).wf(),
            (final(self)@, opt_effect(r)) == old(self)@.after_dialog(kind, event, now),
    {
        match event {
            PortalEvent::Picked(path) => {
                self.remember_dir(kind, path.as_str(), now);
                match kind {
                    PendingDialog::Open => Some(Effect::ReadFile(path)),
                    PendingDialog::Save => Some(Effect::WriteFile(path)),
                }
            },
            PortalEvent::Cancelled => {
                if kind == PendingDialog::Save {
                    self.asking.post_save = PostSaveAction::Nothing;
                }
                None
            },
            PortalEvent::Failed(e) => {
                if kind == PendingDialog::Save {
                    self.asking.post_save = PostSaveAction::Nothing;
                }
                self.notices.push(LoadNotice::Failed(e.message()));
                None
            },
        }
    }

    /// Takes in how a dialog ended; no dialog is open then.
    pub fn inject_portal_event(&mut self, kind: PendingDialog, event: PortalEvent, now: u64) -> (r:
        Option<Effect>)
        requires
            old(self).wf(),
        ensures
            final(self).wf(),
            (final(self)@, opt_effect(r)) == (AppView {
                asking: AskingView { dialog: None, ..old(self)@.asking },
                ..old(self)@
            }).after_dialog(kind, event, now),
    {
        self.asking.dialog = None;
        self.on_portal_event(kind, event, now)
    }
}

} // verus!
