//! Questions to the user before something is lost.

use vstd::prelude::*;
use crate::play::GameSetup;
use crate::text::{self, push_decimal};

verus! {

/// What an open dialog is for.
#[derive(Clone, Copy, PartialEq, Eq, Structural, Debug)]
pub enum PendingDialog {
    /// Choosing the record to open.
    Open,
    /// Choosing where to save.
    Save,
}

/// What is to be done once the user agrees to lose copies.
#[derive(Debug)]
pub enum PendingConfirm {
    /// Nothing is asked.
    Nothing,
    /// Drop the copy with this number.
    DropCopy { number: usize },
    /// Ask for a record to open.
    LoadGame,
    /// Start a game.
    NewGame(GameSetup),
}

/// What is asked before copies are lost.
pub open spec fn copies_question(c: PendingConfirm, copies: nat, moves: nat) -> Seq<char> {
    (match c {
        PendingConfirm::Nothing => Seq::empty(),
        PendingConfirm::DropCopy { .. } => "丢弃该研究副本后"@,
        PendingConfirm::LoadGame => "载入新棋谱会替换原谱"@,
        PendingConfirm::NewGame(_) => "开始新对局会替换原谱"@,
    }) + "，"@ + text::decimal(copies) + " 份研究副本将被丢弃，其中 "@ + text::decimal(moves)
        + " 手研究成果无法恢复。继续吗？"@
}

impl PendingConfirm {
    /// What the user is asked: how many copies are lost, and how many moves that were tried in
    /// them.
    pub fn text(&self, copies: usize, moves: usize) -> (r: String)
        ensures
            r@ == copies_question(*self, copies as nat, moves as nat),
    {
        let mut out = String::new();
        match self {
            PendingConfirm::Nothing => {},
            PendingConfirm::DropCopy { .. } => {
                out.append("丢弃该研究副本后");
            },
            PendingConfirm::LoadGame => {
                out.append("载入新棋谱会替换原谱");
            },
            PendingConfirm::NewGame(_) => {
                out.append("开始新对局会替换原谱");
            },
        }
        out.append("，");
        push_decimal(&mut out, copies as u64);
        out.append(" 份研究副本将被丢弃，其中 ");
        push_decimal(&mut out, moves as u64);
        out.append(" 手研究成果无法恢复。继续吗？");
        assert(out@ =~= copies_question(*self, copies as nat, moves as nat));
        out
    }
}

/// What is to be done once the user has said what becomes of unsaved changes.
#[derive(Debug)]
pub enum UnsavedConfirm {
    /// Leave the program.
    Exit,
    /// Start a game.
    NewGame(GameSetup),
    /// Ask for a record to open.
    OpenDialog,
}

/// What is asked before unsaved changes are lost.
pub open spec fn unsaved_question(c: UnsavedConfirm) -> Seq<char> {
    match c {
        UnsavedConfirm::Exit => "当前棋谱有未保存的改动，关闭窗口将丢失这些改动。"@,
        UnsavedConfirm::NewGame(_) => "开始新对局会替换当前棋谱，未保存的改动将丢失。"@,
        UnsavedConfirm::OpenDialog => "打开棋谱会替换当前棋谱，未保存的改动将丢失。"@,
    }
}

impl UnsavedConfirm {
    /// What the user is asked.
    pub fn text(&self) -> (r: String)
        ensures
            r@ == unsaved_question(*self),
    {
        match self {
            UnsavedConfirm::Exit => "当前棋谱有未保存的改动，关闭窗口将丢失这些改动。".to_owned(),
            UnsavedConfirm::NewGame(_) => "开始新对局会替换当前棋谱，未保存的改动将丢失。".to_owned(),
            UnsavedConfirm::OpenDialog => "打开棋谱会替换当前棋谱，未保存的改动将丢失。".to_owned(),
        }
    }
}

/// What goes on once saving has worked.
#[derive(Debug)]
pub enum PostSaveAction {
    /// Nothing.
    Nothing,
    /// Start a game.
    NewGame(GameSetup),
    /// Ask for a record to open.
    OpenDialog,
    /// Leave the program.
    Exit,
}

/// The user's answer about unsaved changes.
#[derive(Clone, Copy, PartialEq, Eq, Structural, Debug)]
pub enum UnsavedVerdict {
    /// Save first, and go on once that has worked.
    SaveThenContinue,
    /// Go on without saving.
    Discard,
    /// Do nothing.
    Cancel,
}

/// What goes on after saving, for a question about unsaved changes.
pub open spec fn after_saving(c: UnsavedConfirm) -> PostSaveAction {
    match c {
        UnsavedConfirm::Exit => PostSaveAction::Exit,
        UnsavedConfirm::NewGame(s) => PostSaveAction::NewGame(s),
        UnsavedConfirm::OpenDialog => PostSaveAction::OpenDialog,
    }
}

/// What goes on after saving, for a question about unsaved changes.
pub fn post_save_of(c: UnsavedConfirm) -> (r: PostSaveAction)
    ensures
        r == after_saving(c),
{
    match c {
        UnsavedConfirm::Exit => PostSaveAction::Exit,
        UnsavedConfirm::NewGame(s) => PostSaveAction::NewGame(s),
        UnsavedConfirm::OpenDialog => PostSaveAction::OpenDialog,
    }
}

} // verus!
