//! What holds of documents, questions and games, whatever the user does.

use vstd::prelude::*;
use super::confirm::{UnsavedConfirm, UnsavedVerdict};
use super::dialogs;
use super::docs::{self, DocsView};
use super::documents::{self, WindowCommand};
use super::files::Next;
use super::frame;
use super::game;
use super::names;
use super::notice::{self, FeedView, NoticeView};
use super::panel::PanelAction;
use super::prefs;
use super::snapshot;
use super::{AppView, PostSaveAction};
use crate::board::{self, coord, copies, model, tree, Action, BoardView, Coord, Stone};
use crate::play::timer;
use crate::play::{self, GameSetup};
use crate::engine::json;
use crate::number;
use crate::portal::PortalEvent;
use crate::sgf::load::{self, LoadErrorView, LoadedView};
use crate::text;

verus! {

/// A number that a copy had is never given again: a new copy gets a larger one than any document
/// has, and dropping and switching leave the numbers still to come as they are.
pub proof fn law_numbers_stay(d: DocsView, n: DocsView, number: usize, i: int)
    requires
        d.wf(),
        d.next_number < usize::MAX,
        d.copied(n),
        0 <= i < d.all().len(),
    ensures
        n.active.number > d.all()[i].number,
        n.next_number > n.active.number,
        d.switched(number).next_number == d.next_number,
        d.dropped(number).next_number == d.next_number,
{
    assert(d.all()[i].number < d.next_number);
}

/// Making a copy leaves the record itself as it was.
pub proof fn law_copy_leaves_record(d: DocsView, n: DocsView)
    requires
        d.wf(),
        d.next_number < usize::MAX,
        d.copied(n),
    ensures
        n.record() == d.record(),
{
    assert(d.all()[0] == d.active);
    docs::lemma_place(n.others, 0);
    docs::lemma_place(d.others, 0);
    assert(n.active.number != 0);
    let m = d.others.len() as int;
    assert(n.others[m] == d.active);
    let (was, all) = (d.all(), d.all());
    if d.active.number == 0 {
        let i = docs::place(n.others, 0)->0;
        if i < m {
            assert(n.others[i] == d.others[i]);
            assert(all[i + 1] == d.others[i]);
            assert(all[0].number != all[i + 1].number);
        }
    } else {
        docs::lemma_record_found(d);
        let j = docs::place(d.others, 0)->0;
        assert(n.others[j] == d.others[j]);
        let i = docs::place(n.others, 0)->0;
        assert(i < m);
        assert(n.others[i] == d.others[i]);
        if i < j {
            assert(all[i + 1].number != all[j + 1].number);
        } else if j < i {
            assert(all[j + 1].number != all[i + 1].number);
        }
    }
}

/// Going to another document and back shows the first one again, as it was.
pub proof fn law_switch_and_back(d: DocsView, number: usize)
    requires
        d.wf(),
        docs::place(d.others, number) is Some,
    ensures
        d.switched(number).active.number == number,
        d.switched(number).switched(d.active.number).active == d.active,
{
    docs::lemma_place(d.others, number);
    let i = docs::place(d.others, number)->0;
    let n = d.switched(number);
    let m = n.others.len() - 1;
    assert(n.others[m] == d.active);
    docs::lemma_place(n.others, d.active.number);
    docs::lemma_switched(d, number);
    let k = docs::place(n.others, d.active.number)->0;
    if k != m {
        assert(n.all()[k + 1] == n.others[k] && n.all()[m + 1] == n.others[m]);
        assert(n.all()[k + 1].number != n.all()[m + 1].number);
    }
}

/// Unsaved changes are lost only after the user was asked: while there are any, asking for a
/// record, for a game or for the end of the program changes no document and opens no dialog, and
/// the window is told to stay.
pub proof fn law_unsaved_changes_asked_about(s: AppView, setup: GameSetup)
    requires
        s.docs.dirty,
        !s.asking.exit_requested,
    ensures
        s.wanting_open().0.docs == s.docs,
        s.wanting_open().1 is None,
        s.wanting_game(setup).0.docs == s.docs,
        s.wanting_game(setup).1 == Next::Nothing,
        s.closing(true).0.docs == s.docs,
        s.closing(true).1 == Some(WindowCommand::CancelClose),
        s.closing(true).0.asking.unsaved is Some,
        s.wanting_exit().docs == s.docs,
        s.wanting_exit().asking.unsaved is Some,
        s.wanting_exit().closing(false).1 is None,
        s.wanting_exit().closing(true).1 == Some(WindowCommand::CancelClose),
{
}

/// Moves that were tried in copies are lost only after the user was asked.
pub proof fn law_tried_moves_asked_about(s: AppView, setup: GameSetup)
    requires
        s.docs.research_moves() > 0,
    ensures
        s.wanting_open().0.docs == s.docs,
        s.wanting_open().1 is None,
        !(s.wanting_open().0.asking.copies is Nothing),
        s.wanting_game(setup).0.docs == s.docs,
        s.wanting_game(setup).1 == Next::Nothing,
        !(s.wanting_game(setup).0.asking.copies is Nothing),
{
}

/// There is never a second dialog: while one is open, none is opened, and it stays the one that is
/// waited for.
pub proof fn law_one_dialog(s: AppView, then: super::PostSaveAction)
    requires
        s.asking.dialog is Some,
    ensures
        s.opening().1 is None,
        s.opening().0.asking.dialog == s.asking.dialog,
        s.saving(then).1 is None,
        s.saving(then).0.asking == s.asking,
{
}

/// The window is told to close once.
pub proof fn law_close_once(s: AppView, now: bool, later: bool)
    requires
        s.asking.exit_requested,
    ensures
        s.closing(now).0.closing(later).1 is None,
        s.closing(now).0.closing(later).0 == s.closing(now).0,
{
    assert(s.closing(now).0.closing(later).0 =~= s.closing(now).0);
}

/// A record that cannot be loaded changes nothing but what the user is told.
pub proof fn law_failed_load_keeps_all(s: AppView, e: LoadErrorView)
    ensures
        s.loading(Err::<LoadedView, LoadErrorView>(e)) == (AppView {
            notices: s.loading(Err::<LoadedView, LoadErrorView>(e)).notices,
            ..s
        }),
{
}

/// A game that ends because another document is looked at leaves every document as it is: nothing
/// is written of who won.
pub proof fn law_left_game_has_no_result(s: AppView)
    ensures
        s.game_left().docs == s.docs,
        !s.game_left().table.play.mode,
{
}

/// Following the engine's line moves the cursor only: no move and no position changes, and none is
/// added.
pub proof fn law_following_adds_nothing(b: BoardView, line: Seq<Option<Coord>>)
    requires
        b.wf(),
    ensures
        documents::followed(b, line).wf(),
        tree::same_core(b.nodes, documents::followed(b, line).nodes),
    decreases line.len(),
{
    if line.len() > 0 {
        let a = documents::step_action(line[0]);
        if model::has_child_with(b.nodes, b.current, a) {
            let j = choose|j: int| #[trigger] model::child_is(b.nodes, b.current, a, j);
            tree::lemma_children_bound(b.size, b.root_to_play, b.nodes, b.current);
            let i = model::child_with(b.nodes, b.current, a);
            assert(i == j);
            let n = b.branched(i);
            board::laws::law_navigation_keeps_tree(b, 0, i);
            board::laws::law_branch_reaches(b, i);
            law_following_adds_nothing(n, line.skip(1));
            let e = documents::followed(n, line.skip(1));
            assert forall|x: int|
                #![trigger b.nodes[x]]
                #![trigger e.nodes[x]]
                0 <= x < b.nodes.len() implies b.nodes[x].record == e.nodes[x].record
                && b.nodes[x].parent == e.nodes[x].parent && b.nodes[x].children
                == e.nodes[x].children && b.nodes[x].grid == e.nodes[x].grid && b.nodes[x].depth
                == e.nodes[x].depth by {
                assert(b.nodes[x].record == n.nodes[x].record);
                assert(n.nodes[x].record == e.nodes[x].record);
            }
        }
    }
}

// ---- games ----

/// A new game begins on a board of its size with the handicap on it, White to move where there is
/// one and Black where not, with full clocks, by its rules, komi and strength; the human's name
/// stands at the human's side.
pub proof fn law_new_game_begins(s: AppView, setup: GameSetup, c: Coord)
    requires
        setup.size.wf(),
        c.on(setup.size),
    ensures
        ({
            let w = s.with_game(setup);
            let b = w.docs.active.board;
            let h: nat = if setup.handicap < 2 {
                0
            } else if setup.handicap > 9 {
                9
            } else {
                setup.handicap as nat
            };
            let info = w.docs.active.meta->0.info;
            &&& b.size == setup.size
            &&& b.nodes.len() == 1
            &&& b.to_play() == if h > 0 {
                Stone::White
            } else {
                Stone::Black
            }
            &&& b.here().grid[c.idx(setup.size)] == if play::handicap_points(
                setup.size,
                h,
            ).contains(c) {
                Some(Stone::Black)
            } else {
                None
            }
            &&& w.docs.active.from_move is None
            &&& w.docs.others.len() == 0
            &&& !w.docs.dirty
            &&& w.table.play == play::begun(setup.human, setup.time_system)
            &&& w.table.komi == setup.komi@
            &&& w.table.active_rules == Some(setup.rules.wire_spec())
            &&& w.docs.active.meta is Some
            &&& info.komi == Some(setup.komi@)
            &&& info.handicap == h
            &&& info.rules == Some(setup.rules.wire_spec())
            &&& setup.human == Stone::Black ==> info.player_black == Some("人类"@)
                && info.player_white == Some("观棋(KataGo)"@)
            &&& setup.human == Stone::White ==> info.player_white == Some("人类"@)
                && info.player_black == Some("观棋(KataGo)"@)
            &&& w.engine_cfg.time_system == setup.time_system
            &&& w.engine_cfg.new_game_rules == setup.rules
            &&& w.engine_cfg.play_difficulty == setup.difficulty
            &&& w.engine_cfg.engine_path == s.engine_cfg.engine_path
            &&& w.engine_cfg.visits == s.engine_cfg.visits
        }),
{
    let h = play::handicap_meant(setup.handicap) as nat;
    let ps = play::handicap_points(setup.size, h);
    let none = Seq::<Coord>::empty();
    play::lemma_handicap_on(setup.size, h);
    coord::lemma_idx_range(c, setup.size);
    if board::at_index(setup.size, ps, c.idx(setup.size)) {
        let k = choose|k: int|
            0 <= k < ps.len() && (#[trigger] ps[k]).idx(setup.size) == c.idx(setup.size);
        coord::lemma_idx_injective(ps[k], c, setup.size);
    }
    if ps.contains(c) {
        let k = choose|k: int| 0 <= k < ps.len() && ps[k] == c;
        assert(ps[k].idx(setup.size) == c.idx(setup.size));
    }
}

/// Who resigns or runs out of time has lost: that side is taken down as the loser, the record gets
/// the letter of the other side with `+R` or `+T`, and no board changes.
pub proof fn law_loser_is_taken_down(s: AppView, loser: Stone)
    ensures
        s.resigned(loser).table.play.resigned == Some(loser),
        s.resigned(loser).table.play.timeout_loss == s.table.play.timeout_loss,
        s.timed_out(loser).table.play.timeout_loss == Some(loser),
        s.timed_out(loser).table.play.resigned == s.table.play.resigned,
        s.resigned(loser).docs.active.board == s.docs.active.board,
        s.timed_out(loser).docs.active.board == s.docs.active.board,
        s.resigned(loser).table.play.clock == s.table.play.clock,
        s.timed_out(loser).table.play.clock == s.table.play.clock,
        s.docs.active.meta is Some ==> {
            let won = if loser == Stone::Black {
                "W"@
            } else {
                "B"@
            };
            &&& s.resigned(loser).docs.active.meta->0.info.result == Some(won + "+R"@)
            &&& s.timed_out(loser).docs.active.meta->0.info.result == Some(won + "+T"@)
        },
{
}

/// After two passes the record gets the engine's result as it stands, and a question mark without
/// one; a judgement that comes in later is written only after two passes, with enough visits, and
/// where it says something new.
pub proof fn law_result_by_judgement(s: AppView, e: game::TerminalEval)
    requires
        s.docs.active.meta is Some,
    ensures
        s.passed_out(Some(e)).docs.active.meta->0.info.result == Some(e.result@),
        s.passed_out(Some(e)).docs.active.meta->0.info.result_block == Some(e.block@),
        s.passed_out(None).docs.active.meta->0.info.result == Some("?"@),
        s.passed_out(Some(e)).docs.active.board == s.docs.active.board,
        s.settled(None) == s,
        ({
            let due = play::both_passed(s.docs.active.board) && e.visits >= 800
                && s.docs.active.meta->0.info.result != Some(e.result@);
            &&& due ==> s.settled(Some(e)).docs.active.meta->0.info.result == Some(e.result@)
            &&& due ==> s.settled(Some(e)).docs.active.meta->0.info.result_block == Some(e.block@)
            &&& !due ==> s.settled(Some(e)) == s
        }),
{
}

/// A move of the human is played on the board and, in a game, gives the human a whole period again;
/// the engine's clock does not change.
pub proof fn law_human_move(s: AppView, b: BoardView)
    ensures
        ({
            let w = s.human_moved(b);
            let (p, q) = (s.table.play, w.table.play);
            &&& w.docs.active.board == b
            &&& w.docs.dirty == (s.docs.dirty || b.nodes.len() != s.docs.active.board.nodes.len())
            &&& w.docs.others == s.docs.others
            &&& !p.mode ==> q == p
            &&& p.mode ==> {
                &&& q.clock.side_spec(p.human) == timer::refreshed(
                    p.clock.system,
                    p.clock.side_spec(p.human),
                )
                &&& q.clock.side_spec(p.human.other()) == p.clock.side_spec(p.human.other())
                &&& q.clock.total_spec(p.human) == p.clock.total_spec(p.human)
                &&& q.human == p.human
            }
        }),
        s.human_passed().docs.active.board == s.docs.active.board.passed(),
{
}

/// A move of the engine is played on the board and its time comes off the engine's clock; the
/// human's clock does not change. A move that cannot be played leaves the board as it is.
pub proof fn law_engine_move(s: AppView, at: Coord, think: u64)
    ensures
        ({
            let w = s.engine_moved(Action::Place(at), think);
            let v = s.engine_moved(Action::Pass, think);
            let (p, q) = (s.table.play, w.table.play);
            let e = p.human.other();
            &&& s.docs.active.board.played(at) matches Ok(b) ==> w.docs.active.board == b
            &&& s.docs.active.board.played(at) is Err ==> w.docs == s.docs
            &&& v.docs.active.board == s.docs.active.board.passed()
            &&& q.clock.side_spec(e) == timer::charged(p.clock.system, p.clock.side_spec(e), think)
            &&& q.clock.side_spec(p.human) == p.clock.side_spec(p.human)
            &&& q.clock.total_spec(p.human) == p.clock.total_spec(p.human)
            &&& p.clock.total_spec(e) + think <= u64::MAX ==> q.clock.total_spec(e)
                == p.clock.total_spec(e) + think
            &&& v.table.play.clock == q.clock
        }),
        s.table.play.resigned is Some || s.table.play.timeout_loss is Some ==> forall|
            x: Option<play::Snapshot>,
            ready: bool,
        | #[trigger] s.engine_move(x, ready) is None,
{
}

/// The human's clock runs only while a game is on, it is the human's turn and the cursor is at the
/// end of the line, by the time since the last look, ten seconds at most; the human has lost when
/// it has run out, and the engine when it has no time left.
pub proof fn law_clocks_run(s: AppView, now: u64)
    requires
        s.docs.active.board.wf(),
    ensures
        ({
            let p = s.table.play;
            let b = s.docs.active.board;
            let on = p.mode && p.resigned is None && p.timeout_loss is None && !play::both_passed(b);
            let runs = on && b.here().children.len() == 0 && b.to_play() == p.human;
            let dt: int = match s.table.last_frame {
                Some(t) => if now < t {
                    0
                } else if now - t > 10_000_000_000 {
                    10_000_000_000
                } else {
                    now - t
                },
                None => 0,
            };
            let (c, lost) = timer::ticked(p.clock.system, p.clock.side_spec(p.human), dt as u64);
            let w = s.human_run(now).table.play;
            &&& s.human_run(now).table.last_frame == Some(now)
            &&& !runs ==> w == p
            &&& runs ==> w.clock.side_spec(p.human) == c
            &&& runs ==> w.clock.side_spec(p.human.other()) == p.clock.side_spec(p.human.other())
            &&& runs && lost ==> w.timeout_loss == Some(p.human)
            &&& runs && !lost ==> w.timeout_loss is None
            &&& s.human_run(now).docs.active.board == b
            &&& on && p.clock.side_spec(p.human.other()).usable_spec() == Some(0u128)
                ==> s.clocks_run(now).table.play.timeout_loss == Some(p.human.other())
            &&& !on || p.clock.side_spec(p.human.other()).usable_spec() != Some(0u128)
                ==> s.clocks_run(now) == s.human_run(now)
        }),
{
    let b = s.docs.active.board;
    tree::lemma_next(b.size, b.root_to_play, b.nodes, b.current);
    assert(model::line_at(b.nodes, b.here().depth as nat) == Some(b.current));
    assert(model::line_at(b.nodes, b.here().depth as nat + 1) == model::next_of(b.nodes, b.current));
    play::laws::law_each_side_has_its_clock(
        s.table.play.clock,
        s.table.play.human,
        s.table.play.clock.side_spec(s.table.play.human),
        0,
    );
}

// ---- documents ----

/// Dropping a copy removes the document with its number and no other.
pub proof fn law_dropped_is_gone(d: DocsView, number: usize, i: int)
    requires
        d.wf(),
        number != 0,
        d.active.number != number,
        0 <= i < d.others.len(),
    ensures
        d.dropped(number).active == d.active,
        d.others[i].number != number ==> d.dropped(number).others.contains(d.others[i]),
        d.others[i].number == number ==> !d.dropped(number).others.contains(d.others[i]),
        d.dropped(number).dirty == d.dirty,
{
    docs::lemma_without(d.others, number);
    let w = d.dropped(number).others;
    if w.contains(d.others[i]) {
        let k = choose|k: int| 0 <= k < w.len() && w[k] == d.others[i];
        assert(w[k].number != number);
    }
}

/// A new copy holds the moves up to the cursor and nothing else, gets the next number, and is the
/// active document; every other document stays.
pub proof fn law_new_copy(d: DocsView, n: DocsView)
    requires
        d.copied(n),
    ensures
        copies::is_prefix(n.active.board, d.active.board, d.active.board.here().depth as nat),
        n.active.from_move == Some(d.active.board.here().depth),
        n.active.number == d.next_number,
        n.active.meta == d.active.meta,
        n.others == d.others.push(d.active),
        n.next_number == (d.next_number + 1) as usize,
        !n.dirty,
{
}

/// The moves tried in a copy are those beyond the ones that it began with.
pub proof fn law_tried_moves(d: docs::DocView)
    ensures
        d.from_move is None ==> d.tried() == 0,
        d.from_move matches Some(f) ==> (d.board.nodes.len() - 1 >= f ==> d.tried()
            == d.board.nodes.len() - 1 - f),
        d.from_move matches Some(f) ==> (d.board.nodes.len() - 1 < f ==> d.tried() == 0),
{
}

/// The documents have unsaved changes once a move was added or taken away, and not by looking
/// around or by putting another record in their place.
pub proof fn law_when_changes_are_unsaved(d: DocsView, b: BoardView, m: Option<load::MetaView>)
    ensures
        d.edited(b).active.board == b,
        d.edited(b).dirty <==> d.dirty || b.nodes.len() != d.active.board.nodes.len(),
        d.edited(b).others == d.others,
        d.edited(b).active.meta == d.active.meta,
        d.at(b).active.board == b,
        d.at(b).dirty == d.dirty,
        !d.replaced(b, m).dirty,
        d.replaced(b, m).active.board == b,
        d.replaced(b, m).active.meta == m,
        d.replaced(b, m).others.len() == 0,
        d.replaced(b, m).active.number == 0,
{
}

// ---- dialogs ----

/// With nothing in the way, asking for a record opens the dialog at the directory where one was
/// opened last, and saving opens it at the directory where one was saved last, or else opened.
pub proof fn law_dialogs_open(s: AppView, then: super::PostSaveAction)
    requires
        s.asking.portal_unavailable is None,
        s.asking.dialog is None,
    ensures
        s.opening().1 == Some(
            (dialogs::EffectView::OpenDialog { dir: s.engine_cfg.ui_prefs.last_open_dir }),
        ),
        s.opening().0.asking.dialog == Some(super::PendingDialog::Open),
        s.saving(then).0.asking.dialog == Some(super::PendingDialog::Save),
        s.saving(then).0.asking.post_save == then,
        s.saving(then).1 == Some(
            (dialogs::EffectView::SaveDialog {
                name: s.docs.save_name(),
                dir: if s.engine_cfg.ui_prefs.last_save_dir is Some {
                    s.engine_cfg.ui_prefs.last_save_dir
                } else {
                    s.engine_cfg.ui_prefs.last_open_dir
                },
            }),
        ),
        s.opening().0.docs == s.docs,
        s.saving(then).0.docs == s.docs,
{
}

/// A file picked for opening is read and one picked for saving is written, its directory being
/// remembered for that dialog; a dialog that was left changes no document and does nothing further.
pub proof fn law_dialogs_end(s: AppView, path: String, now: u64)
    ensures
        ({
            let picked = PortalEvent::Picked(path);
            let o = s.after_dialog(super::PendingDialog::Open, picked, now);
            let w = s.after_dialog(super::PendingDialog::Save, picked, now);
            let x = s.after_dialog(super::PendingDialog::Open, PortalEvent::Cancelled, now);
            let y = s.after_dialog(super::PendingDialog::Save, PortalEvent::Cancelled, now);
            &&& o.1 == Some(dialogs::EffectView::ReadFile(path@))
            &&& w.1 == Some(dialogs::EffectView::WriteFile(path@))
            &&& names::directory(path@) matches Some(d) ==> o.0.engine_cfg.ui_prefs.last_open_dir
                == Some(d) && o.0.engine_cfg.ui_prefs.last_save_dir
                == s.engine_cfg.ui_prefs.last_save_dir
            &&& names::directory(path@) matches Some(d) ==> w.0.engine_cfg.ui_prefs.last_save_dir
                == Some(d) && w.0.engine_cfg.ui_prefs.last_open_dir
                == s.engine_cfg.ui_prefs.last_open_dir
            &&& o.0.docs == s.docs
            &&& w.0.docs == s.docs
            &&& x == (s, None::<dialogs::EffectView>)
            &&& y.1 is None
            &&& y.0.docs == s.docs
            &&& y.0.asking.post_save == super::PostSaveAction::Nothing
        }),
{
}

// ---- paths and names ----

proof fn lemma_head(s: Seq<char>, dir: Seq<char>, name: Seq<char>)
    requires
        s == dir.push('/') + name,
        forall|i: int| 0 <= i < name.len() ==> #[trigger] name[i] != '/',
    ensures
        names::head_len(s) == dir.len() + 1,
    decreases name.len(),
{
    if name.len() == 0 {
        assert(s =~= dir.push('/'));
    } else {
        assert(s.last() == name.last());
        assert(s.drop_last() =~= dir.push('/') + name.drop_last());
        assert forall|i: int| 0 <= i < name.drop_last().len() implies #[trigger] name.drop_last()[i]
            != '/' by {
            assert(name.drop_last()[i] == name[i]);
        }
        lemma_head(s.drop_last(), dir, name.drop_last());
    }
}

/// A path leads to the file whose name stands behind its last slash, in the directory before it; a
/// slash at the end does not matter.
pub proof fn law_file_of_a_path(dir: Seq<char>, name: Seq<char>)
    requires
        name.len() > 0,
        forall|i: int| 0 <= i < name.len() ==> #[trigger] name[i] != '/',
        name != "."@,
        name != ".."@,
    ensures
        names::named(dir.push('/') + name) == Some(name),
        names::named((dir.push('/') + name).push('/')) == Some(name),
        dir.len() > 0 ==> names::directory(dir.push('/') + name) == Some(names::trimmed_path(dir)),
        dir.len() == 0 ==> names::directory(dir.push('/') + name) == Some(seq!['/']),
{
    reveal_strlit(".");
    let s = dir.push('/') + name;
    assert(s.last() == name.last());
    if name.len() == 1 && name[0] == '.' {
        assert(name =~= "."@);
    }
    assert(s[s.len() - 1] == name[name.len() - 1]);
    if name.len() > 1 {
        assert(s[s.len() - 2] == name[name.len() - 2]);
    }
    assert(names::trimmed_path(s) == s);
    assert(s.push('/').drop_last() =~= s);
    reveal_with_fuel(names::trimmed_path, 2);
    assert(names::trimmed_path(s.push('/')) == s);
    lemma_head(s, dir, name);
    assert(s.skip((dir.len() + 1) as int) =~= name);
    assert(s.take(dir.len() as int) =~= dir);
    assert(s.take(1)[0] == s[0]);
    if dir.len() == 0 {
        assert(s.take(1) =~= seq!['/']);
    }
}

/// The name of a copy has its number before the first dot; everything else of the name stays.
pub proof fn law_name_of_a_copy(stem: Seq<char>, ext: Seq<char>, number: nat)
    requires
        stem.len() > 0,
        forall|i: int| 0 <= i < stem.len() ==> #[trigger] stem[i] != '.',
    ensures
        names::offered_copy_name(stem.push('.') + ext, number) == stem + "-副本"@ + text::decimal(
            number,
        ) + seq!['.'] + ext,
{
    reveal_strlit(".");
    let base = stem.push('.') + ext;
    assert forall|k: int| 0 <= k < stem.len() implies #[trigger] base[k] != '.' by {
        assert(base[k] == stem[k]);
    }
    text::lemma_found(base, '.', 0, stem.len() as int);
    assert(base.take(stem.len() as int) =~= stem);
    assert(base.skip((stem.len() + 1) as int) =~= ext);
    assert("."@ =~= seq!['.']);
}

/// A time is rounded to the nearest unit: it is never more than half a unit off, and half a unit
/// goes up.
pub proof fn law_times_are_rounded(t: timer::Seconds, unit: u64)
    requires
        unit > 0,
        unit % 2 == 0,
        names::to_nearest(t, unit) < u64::MAX,
    ensures
        ({
            let (n, all) = (names::to_nearest(t, unit) as int, t.nanos_spec(true) as int);
            2 * n * unit <= 2 * all + unit < 2 * n * unit + 2 * unit
        }),
{
    let (n, u, all) = (names::to_nearest(t, unit) as int, unit as int, t.nanos_spec(true) as int);
    let sum = all + u / 2;
    vstd::arithmetic::div_mod::lemma_fundamental_div_mod(sum, u);
    assert(n == sum / u);
    assert(2 * n * u <= 2 * all + u < 2 * n * u + 2 * u) by (nonlinear_arith)
        requires
            sum == u * n + sum % u,
            0 <= sum % u < u,
            2 * sum == 2 * all + u,
    ;
}

// ---- settings and looks at the clock ----

/// Changes are written down once they have rested for a second and a half, not before, and only
/// once.
pub proof fn law_when_settings_are_saved(since: u64, now: u64, repaint: u64)
    ensures
        prefs::prefs_due(Some(since), now, repaint).save <==> now >= since + 1500,
        prefs::prefs_due(Some(since), now, repaint).since == if now >= since + 1500 {
            None
        } else {
            Some(since)
        },
        !prefs::prefs_due(None, now, repaint).save && prefs::prefs_due(None, now, repaint).since
            is None,
        prefs::prefs_due(Some(since), now, repaint).wait >= repaint,
        since <= now < since + 1500 ==> now + prefs::prefs_due(Some(since), now, repaint).wait
            >= since + 1500,
{
}

/// The time between looks adds up, as long as the looks are less than ten seconds apart; of a
/// longer time ten seconds count, and of time that runs backwards none.
pub proof fn law_looks_add_up(a: u64, b: u64, c: u64)
    requires
        a <= b <= c,
    ensures
        c - a <= 10_000_000_000 ==> frame::counted_step(Some(a), b) + frame::counted_step(
            Some(b),
            c,
        ) == c - a,
        c - a > 10_000_000_000 ==> frame::counted_step(Some(a), c) == 10_000_000_000,
        a < b ==> frame::counted_step(Some(b), a) == 0,
        frame::counted_step(None, c) == 0,
{
}

// ---- what is told ----

/// A notice comes last in the feed; those before it keep their order, and only the oldest leaves
/// where there are too many.
pub proof fn law_notices_in_order(f: FeedView, n: NoticeView, k: int)
    requires
        f.wf(),
        f.limit > 0,
    ensures
        ({
            let g = f.told(n);
            &&& g.wf()
            &&& g.limit == f.limit
            &&& g.list.len() > 0 && g.list.last() == n
            &&& f.list.len() < f.limit ==> g.list == f.list.push(n)
            &&& f.list.len() == f.limit ==> g.list.len() == f.limit
            &&& 0 <= k < g.list.len() - 1 ==> g.list[k] == f.list[k + (f.list.len() + 1
                - g.list.len())]
        }),
{
    let all = f.list.push(n);
    let g = f.told(n);
    assert(g.list == notice::latest(all, f.limit as nat));
    assert(f.list.len() < f.limit ==> g.list == all);
}

// ---- counting copies ----

/// The moves tried in documents add up, and so do the copies among them.
pub proof fn law_tried_moves_add_up(a: Seq<docs::DocView>, d: docs::DocView)
    ensures
        docs::tried_in(Seq::empty()) == 0,
        docs::tried_in(a.push(d)) == docs::tried_in(a) + d.tried(),
        docs::copies_in(Seq::empty()) == 0,
        docs::copies_in(a.push(d)) == docs::copies_in(a) + if d.from_move is Some { 1nat } else {
            0nat
        },
{
    assert(a.push(d).drop_last() =~= a);
    assert(a.push(d).last() == d);
}

/// A document is found by its number, at the first place where that stands.
pub proof fn law_found_by_number(s: Seq<docs::DocView>, number: usize)
    ensures
        match docs::place(s, number) {
            Some(i) => 0 <= i < s.len() && s[i].number == number && forall|k: int|
                0 <= k < i ==> (#[trigger] s[k]).number != number,
            None => forall|k: int| 0 <= k < s.len() ==> (#[trigger] s[k]).number != number,
        },
    decreases s.len(),
{
    if s.len() > 0 {
        let rest = s.drop_last();
        law_found_by_number(rest, number);
        assert forall|k: int| 0 <= k < rest.len() implies #[trigger] s[k] == rest[k] by {}
        match docs::place(rest, number) {
            Some(i) => {
                assert(s[i] == rest[i]);
                assert forall|k: int| 0 <= k < i implies (#[trigger] s[k]).number != number by {
                    assert(s[k] == rest[k]);
                }
            },
            None => {
                assert forall|k: int| 0 <= k < s.len() - 1 implies (#[trigger] s[k]).number
                    != number by {
                    assert(s[k] == rest[k]);
                }
            },
        }
    }
}

// ---- times in the state that is shown ----

/// A row of zeros.
pub open spec fn zeros(n: nat) -> Seq<char> {
    Seq::new(n, |i: int| '0')
}

proof fn lemma_fraction(s: Seq<char>)
    requires
        s.len() > 0,
    ensures
        0 < snapshot::fraction(s).len() <= s.len(),
        snapshot::fraction(s) + zeros((s.len() - snapshot::fraction(s).len()) as nat) == s,
        snapshot::fraction(s).len() > 1 ==> snapshot::fraction(s).last() != '0',
    decreases s.len(),
{
    let f = snapshot::fraction(s);
    if s.len() > 1 && s.last() == '0' {
        lemma_fraction(s.drop_last());
        let n = (s.len() - f.len()) as nat;
        assert(zeros(n) =~= zeros((n - 1) as nat).push('0'));
        assert(f + zeros(n) =~= s.drop_last().push('0'));
        assert(s =~= s.drop_last().push('0'));
    } else {
        assert(f + zeros(0) =~= s);
    }
}

proof fn lemma_value_of_rest(s: Seq<char>)
    requires
        text::all_digits(s),
        s.len() > 0,
    ensures
        text::digits_value(s) == (s[0] as int - 48) * tens((s.len() - 1) as nat)
            + text::digits_value(s.skip(1)),
    decreases s.len(),
{
    reveal_with_fuel(text::digits_value, 2);
    reveal_with_fuel(tens, 2);
    if s.len() == 1 {
        assert(s.skip(1) =~= Seq::empty());
        assert(s.drop_last() =~= Seq::empty());
        assert(s.last() == s[0]);
    } else {
        let r = s.drop_last();
        assert(r[0] == s[0]);
        assert forall|i: int| 0 <= i < r.len() implies '0' <= #[trigger] r[i] && r[i] <= '9' by {
            assert(r[i] == s[i]);
        }
        lemma_value_of_rest(r);
        assert(s.skip(1).drop_last() =~= r.skip(1));
        assert(s.skip(1).last() == s.last());
        let (a, t, v) = (s[0] as int - 48, tens((r.len() - 1) as nat) as int, text::digits_value(
            r.skip(1),
        ) as int);
        assert((a * t + v) * 10 == a * (10 * t) + v * 10) by (nonlinear_arith);
    }
}

/// A power of ten.
pub open spec fn tens(n: nat) -> nat
    decreases n,
{
    if n == 0 {
        1
    } else {
        10 * tens((n - 1) as nat)
    }
}

/// A time is shown as its whole seconds, a point, and the nine digits of its nanoseconds without
/// the zeros at the end, but one digit at least.
pub proof fn law_time_is_shown(t: u128)
    ensures
        ({
            let (whole, part) = (t / 1_000_000_000, t % 1_000_000_000);
            let nine = snapshot::nine_digits(part as nat);
            let f = snapshot::fraction(nine);
            &&& snapshot::seconds_text(t) == text::decimal(whole as nat) + seq!['.'] + f
            &&& nine.len() == 9
            &&& text::digits_value(nine) == part
            &&& 0 < f.len() <= 9
            &&& nine == f + zeros((9 - f.len()) as nat)
            &&& f.len() > 1 ==> f.last() != '0'
        }),
{
    reveal_strlit(".");
    assert("."@ =~= seq!['.']);
    let part = (t % 1_000_000_000) as nat;
    let n = 1_000_000_000 + part;
    text::law_decimal_is_the_number(n);
    text::lemma_decimal_digits(n);
    let d = text::decimal(n);
    reveal_with_fuel(text::decimal, 11);
    assert(n / 10 / 10 / 10 / 10 / 10 / 10 / 10 / 10 / 10 == 1);
    assert(d.len() == 10);
    assert(d[0] == text::digit_char(1));
    assert forall|i: int| 0 <= i < d.len() implies '0' <= #[trigger] d[i] && d[i] <= '9' by {
        assert(text::is_digit(d[i]));
    }
    lemma_value_of_rest(d);
    reveal_with_fuel(tens, 10);
    assert(tens(9) == 1_000_000_000);
    lemma_fraction(d.skip(1));
    let lead = d[0] as int - 48;
    assert(lead == 1);
    assert(lead * tens(9) == 1_000_000_000) by (nonlinear_arith)
        requires
            lead == 1,
            tens(9) == 1_000_000_000,
    ;
    assert(text::digits_value(d.skip(1)) == part);
    assert(snapshot::nine_digits(part) == d.skip(1));
    assert(snapshot::seconds_text(t) =~= text::decimal((t / 1_000_000_000) as nat) + seq!['.']
        + snapshot::fraction(d.skip(1)));
}

// ---- unsaved changes ----

/// Whoever cancels loses nothing and goes nowhere; whoever saves first loses nothing either, and
/// what was asked for goes on afterwards.
pub proof fn law_unsaved_changes_are_safe(s: AppView, c: UnsavedConfirm)
    ensures
        ({
            let (t, next, effect) = s.unsaved_verdict(c, UnsavedVerdict::Cancel);
            &&& t.docs == s.docs && t.table == s.table && t.engine_cfg == s.engine_cfg
            &&& t.asking.unsaved is None && t.asking.exit_requested == s.asking.exit_requested
            &&& t.asking.dialog == s.asking.dialog
            &&& next == Next::Nothing && effect is None
        }),
        ({
            let (t, next, effect) = s.unsaved_verdict(c, UnsavedVerdict::SaveThenContinue);
            &&& t.docs == s.docs && t.table == s.table && t.engine_cfg == s.engine_cfg
            &&& t.asking.exit_requested == s.asking.exit_requested
            &&& effect is Some <==> s.asking.dialog is None && s.asking.portal_unavailable is None
            &&& effect is None ==> t.asking == s.asking
            &&& effect is Some ==> {
                &&& t.asking.unsaved is None
                &&& t.asking.dialog == Some(super::PendingDialog::Save)
                &&& c is Exit ==> t.asking.post_save is Exit
                &&& c is OpenDialog ==> t.asking.post_save is OpenDialog
                &&& c matches UnsavedConfirm::NewGame(setup) ==> t.asking.post_save
                    == PostSaveAction::NewGame(setup)
            }
        }),
{
}

/// Whoever gives the changes up gets what was asked for at once.
pub proof fn law_changes_given_up(s: AppView, c: UnsavedConfirm)
    ensures
        ({
            let (t, next, effect) = s.unsaved_verdict(c, UnsavedVerdict::Discard);
            &&& c is Exit ==> t.asking.exit_requested && t.asking.unsaved is None && t.docs
                == s.docs && effect is None
            &&& c matches UnsavedConfirm::NewGame(setup) ==> {
                &&& t.docs.active.board == s.with_game(setup).docs.active.board
                &&& t.table == s.with_game(setup).table
                &&& !t.docs.dirty
                &&& next is GameStarted
            }
            &&& c is OpenDialog ==> t.docs == s.docs && t.asking.exit_requested
                == s.asking.exit_requested && (effect is Some ==> t.asking.dialog == Some(
                super::PendingDialog::Open,
            ))
        }),
{
}

/// What was to go on after saving goes on: the program ends, a game begins, or a record is asked
/// for; without anything, all stays as it is.
pub proof fn law_goes_on_after_saving(s: AppView, setup: GameSetup)
    ensures
        s.going_on(PostSaveAction::Nothing) == (s, Next::Nothing),
        s.going_on(PostSaveAction::Exit).0.asking.exit_requested,
        s.going_on(PostSaveAction::Exit).0.docs == s.docs,
        s.going_on(PostSaveAction::NewGame(setup)).0 == s.with_game(setup),
        s.going_on(PostSaveAction::OpenDialog).0.docs == s.docs,
        s.going_on(PostSaveAction::OpenDialog).0.asking.exit_requested == s.asking.exit_requested,
{
}

/// Saving keeps the documents: only where the record was saved is taken down, and nothing is
/// unsaved any more.
pub proof fn law_saving_keeps_the_document(s: AppView, path: Seq<char>)
    ensures
        ({
            let t = s.saved(path);
            &&& !t.docs.dirty
            &&& t.docs.active.board == s.docs.active.board
            &&& t.docs.active.number == s.docs.active.number
            &&& t.docs.active.from_move == s.docs.active.from_move
            &&& t.docs.others == s.docs.others
            &&& t.docs.active.meta matches Some(m) && m.source == path
            &&& s.docs.active.meta matches Some(was) ==> t.docs.active.meta->0.info == was.info
                && t.docs.active.meta->0.comments == was.comments && t.docs.active.meta->0.extras
                == was.extras
            &&& t.table == s.table
            &&& t.asking.post_save is Nothing
            &&& t.asking.exit_requested == s.asking.exit_requested
        }),
{
}

/// A record that was loaded takes the place of everything: no copies are left, nothing is unsaved,
/// and its own komi counts, or seven and a half where it says none.
pub proof fn law_loaded_record_replaces(s: AppView, l: LoadedView)
    ensures
        ({
            let t = s.with_record(l);
            &&& t.docs.active.board == l.board
            &&& t.docs.active.meta == Some(l.meta)
            &&& t.docs.active.number == 0 && t.docs.active.from_move is None
            &&& t.docs.others.len() == 0
            &&& !t.docs.dirty
            &&& t.docs.next_number == s.docs.next_number
            &&& t.docs.epoch != s.docs.epoch
            &&& l.meta.info.komi matches Some(k) ==> t.table.komi == k
            &&& l.meta.info.komi is None ==> t.table.komi == "7.5"@
            &&& t.table.active_rules is None
            &&& t.marks.focus is None
            &&& t.asking.copies is Nothing
        }),
{
}

/// The window closes only when that was agreed; while there are unsaved changes it is asked to
/// stay, and the question is put once.
pub proof fn law_window_stays_for_changes(s: AppView, requested: bool)
    ensures
        ({
            let (t, command) = s.closing(requested);
            &&& command == Some(WindowCommand::Close) <==> s.asking.exit_requested
                && !s.asking.close_sent
            &&& command == Some(WindowCommand::CancelClose) <==> !s.asking.exit_requested
                && requested && s.docs.dirty
            &&& command == Some(WindowCommand::CancelClose) ==> t.asking.unsaved is Some
            &&& t.docs == s.docs
            &&& t.asking.exit_requested == s.asking.exit_requested
            &&& s.asking.unsaved is Some ==> t.asking.unsaved == s.asking.unsaved
        }),
        ({
            let t = s.wanting_exit();
            &&& t.asking.exit_requested <==> s.asking.exit_requested || !s.docs.dirty
            &&& !t.asking.exit_requested ==> t.asking.unsaved is Some
            &&& t.docs == s.docs
        }),
{
}

// ---- the side panel ----

/// A point that is marked is no longer marked when it is chosen again; another point takes its
/// place.
pub proof fn law_mark_twice(s: AppView, a: Coord, b: Coord)
    requires
        a != b,
    ensures
        ({
            let (f, g) = (PanelAction::Focus { at: a }, PanelAction::Focus { at: b });
            let once = s.after_panel(f);
            &&& s.marks.focus != Some(a) ==> once.marks.focus == Some(a)
            &&& s.marks.focus == Some(a) ==> once.marks.focus is None
            &&& s.marks.focus is None ==> once.after_panel(f).marks.focus is None
            &&& once.after_panel(g).marks.focus == Some(b) || s.marks.focus == Some(b)
            &&& once.docs == s.docs && once.table == s.table
        }),
{
}

/// Who resigns has lost, and only while a game is on; setting how strong the engine plays changes
/// nothing else.
pub proof fn law_panel_in_a_game(s: AppView, d: crate::engine::config::Difficulty)
    ensures
        s.game_on() ==> s.after_panel(PanelAction::HumanResign).table.play.resigned == Some(
            s.table.play.human,
        ),
        s.game_on() ==> s.after_panel(PanelAction::EngineResign).table.play.resigned == Some(
            s.table.play.human.other(),
        ),
        s.game_on() ==> s.after_panel(PanelAction::HumanPass).docs.active.board
            == s.docs.active.board.passed(),
        !s.game_on() ==> s.after_panel(PanelAction::HumanResign) == s && s.after_panel(
            PanelAction::EngineResign,
        ) == s && s.after_panel(PanelAction::HumanPass) == s,
        s.after_panel(PanelAction::SetDifficulty(d)).engine_cfg.play_difficulty == d,
        s.after_panel(PanelAction::SetDifficulty(d)).docs == s.docs,
        s.after_panel(PanelAction::SetDifficulty(d)).table == s.table,
{
}

/// A copy in which moves were tried is dropped only after a question; one without any at once.
pub proof fn law_copy_with_moves_is_asked_about(s: AppView, n: usize, m: nat)
    requires
        s.docs.doc_research(n) == Some(m),
    ensures
        ({
            let t = s.after_panel(PanelAction::DropCopy(n));
            &&& m > 0 ==> t.docs == s.docs && t.asking.copies == (super::PendingConfirm::DropCopy {
                number: n,
            })
            &&& m == 0 ==> t.docs == s.docs.dropped(n) && t.asking.copies == s.asking.copies
        }),
{
}

/// Candidates asked for at a position are shown there, and hidden as soon as another position is
/// looked at.
pub proof fn law_candidates_on_demand(s: AppView, t: AppView)
    requires
        s.panels.gating == crate::engine::settings::CandidateGating::Manual,
        t.marks == s.revealing().marks,
    ensures
        s.revealing().marks.revealed,
        s.revealing().docs == s.docs,
        s.revealing().reveal_checked() == s.revealing(),
        model::path_records(t.docs.active.board.nodes, t.docs.active.board.current)
            != model::path_records(s.docs.active.board.nodes, s.docs.active.board.current)
            ==> !t.reveal_checked().marks.revealed,
        model::path_records(t.docs.active.board.nodes, t.docs.active.board.current)
            == model::path_records(s.docs.active.board.nodes, s.docs.active.board.current)
            ==> t.reveal_checked() == t,
{
}

/// The engine looks for a move only in a game that is not over, when it is its turn and the cursor
/// is at the end of the line; a new game with the human as White begins with that.
pub proof fn law_when_the_engine_moves(s: AppView)
    ensures
        s.engine_wanted() <==> s.game_on() && s.docs.active.board.to_play()
            == s.table.play.human.other() && play::at_end(s.docs.active.board),
        s.engine_wanted() ==> !s.human_timed(),
{
}

/// Another document can be gone to only if it is there, and a game that is on is left for it.
pub proof fn law_going_to_a_document(s: AppView, n: usize)
    ensures
        docs::place(s.docs.others, n) is None ==> s.with_doc(n) == s,
        docs::place(s.docs.others, n) matches Some(i) ==> {
            &&& s.with_doc(n).docs == s.docs.switched(n)
            &&& !s.with_doc(n).table.play.mode
            &&& s.with_doc(n).marks.focus is None
        },
{
}

// ---- the state that is shown ----

/// A truth value as a word.
pub open spec fn truth(b: bool) -> Seq<char> {
    if b {
        "true"@
    } else {
        "false"@
    }
}

/// Whether a part stands somewhere in a text.
#[verifier::opaque]
pub open spec fn shows(s: Seq<char>, part: Seq<char>) -> bool {
    exists|i: int|
        #![trigger s.subrange(i, i + part.len())]
        0 <= i && i + part.len() <= s.len() && s.subrange(i, i + part.len()) == part
}

proof fn lemma_truth(b: bool)
    ensures
        snapshot::bool_text(b) == truth(b),
{
    reveal(snapshot::bool_text);
}

proof fn lemma_shown_at_the_end(t: Seq<char>, k: Seq<char>, v: Seq<char>, n: Seq<char>)
    ensures
        shows(t + k + v + n, k + v + n),
        shows(t + k + v, k + v),
        shows(k + v + n, k + v + n),
{
    reveal(shows);
    let (s, p) = (t + k + v + n, k + v + n);
    let i = t.len() as int;
    assert(s.subrange(i, i + p.len()) =~= p);
    let (s2, p2) = (t + k + v, k + v);
    assert(s2.subrange(i, i + p2.len()) =~= p2);
    let z: int = 0;
    assert(p.subrange(z, z + p.len()) =~= p);
}

proof fn lemma_still_shown(t: Seq<char>, r: Seq<char>)
    ensures
        forall|q: Seq<char>| #[trigger] shows(t, q) ==> shows(t + r, q),
{
    reveal(shows);
    assert forall|q: Seq<char>| #[trigger] shows(t, q) implies shows(t + r, q) by {
        let i = choose|i: int|
            #![trigger t.subrange(i, i + q.len())]
            0 <= i && i + q.len() <= t.len() && t.subrange(i, i + q.len()) == q;
        assert((t + r).subrange(i, i + q.len()) =~= t.subrange(i, i + q.len()));
    }
}

/// The text of the state names how far a scan is, the candidates and the clocks:
/// each value stands behind its own name.
pub proof fn law_state_clocks(x: snapshot::StateSnapshot)
    ensures
        shows(x.json_1(), "{\"batch_progress\":"@ + snapshot::batch_text(x.batch_progress) + ",\"candidates\":"@),
        shows(x.json_1(), ",\"candidates\":"@ + text::decimal(x.candidates as nat) + ",\"candidates_visible\":"@),
        shows(x.json_1(), ",\"candidates_visible\":"@ + truth(x.candidates_visible) + ",\"clock_main\":["@),
        shows(x.json_1(), ",\"clock_main\":["@ + snapshot::opt_seconds(x.clock_main.0) + ","@),
        shows(x.json_1(), ","@ + snapshot::opt_seconds(x.clock_main.1) + "],\"clock_total\":["@),
        shows(x.json_1(), "],\"clock_total\":["@ + snapshot::seconds_text(x.clock_total.0 as u128) + ","@),
        shows(x.json_1(), ","@ + snapshot::seconds_text(x.clock_total.1 as u128) + "]"@),
{
    lemma_truth(x.candidates_visible);
    let none = Seq::<char>::empty();
    let t0 = "{\"batch_progress\":"@;
    let t1 = t0 + snapshot::batch_text(x.batch_progress);
    let t2 = t1 + ",\"candidates\":"@;
    let t3 = t2 + text::decimal(x.candidates as nat);
    let t4 = t3 + ",\"candidates_visible\":"@;
    let t5 = t4 + truth(x.candidates_visible);
    let t6 = t5 + ",\"clock_main\":["@;
    let t7 = t6 + snapshot::opt_seconds(x.clock_main.0);
    let t8 = t7 + ","@;
    let t9 = t8 + snapshot::opt_seconds(x.clock_main.1);
    let t10 = t9 + "],\"clock_total\":["@;
    let t11 = t10 + snapshot::seconds_text(x.clock_total.0 as u128);
    let t12 = t11 + ","@;
    let t13 = t12 + snapshot::seconds_text(x.clock_total.1 as u128);
    let t14 = t13 + "]"@;
    lemma_still_shown(t0, snapshot::batch_text(x.batch_progress));
    lemma_shown_at_the_end(none, "{\"batch_progress\":"@, snapshot::batch_text(x.batch_progress), ",\"candidates\":"@);
    lemma_still_shown(t1, ",\"candidates\":"@);
    lemma_still_shown(t2, text::decimal(x.candidates as nat));
    lemma_shown_at_the_end(t1, ",\"candidates\":"@, text::decimal(x.candidates as nat), ",\"candidates_visible\":"@);
    lemma_still_shown(t3, ",\"candidates_visible\":"@);
    lemma_still_shown(t4, truth(x.candidates_visible));
    lemma_shown_at_the_end(t3, ",\"candidates_visible\":"@, truth(x.candidates_visible), ",\"clock_main\":["@);
    lemma_still_shown(t5, ",\"clock_main\":["@);
    lemma_still_shown(t6, snapshot::opt_seconds(x.clock_main.0));
    lemma_shown_at_the_end(t5, ",\"clock_main\":["@, snapshot::opt_seconds(x.clock_main.0), ","@);
    lemma_still_shown(t7, ","@);
    lemma_still_shown(t8, snapshot::opt_seconds(x.clock_main.1));
    lemma_shown_at_the_end(t7, ","@, snapshot::opt_seconds(x.clock_main.1), "],\"clock_total\":["@);
    lemma_still_shown(t9, "],\"clock_total\":["@);
    lemma_still_shown(t10, snapshot::seconds_text(x.clock_total.0 as u128));
    lemma_shown_at_the_end(t9, "],\"clock_total\":["@, snapshot::seconds_text(x.clock_total.0 as u128), ","@);
    lemma_still_shown(t11, ","@);
    lemma_still_shown(t12, snapshot::seconds_text(x.clock_total.1 as u128));
    lemma_shown_at_the_end(t11, ","@, snapshot::seconds_text(x.clock_total.1 as u128), "]"@);
    lemma_still_shown(t13, "]"@);
    assert(x.json_1() == t14);
}

/// The text of the state names the cursor, the engine and who plays:
/// each value stands behind its own name.
pub proof fn law_state_position(x: snapshot::StateSnapshot)
    ensures
        shows(x.json_2(), ",\"cursor\":"@ + text::decimal(x.cursor as nat) + ",\"dirty\":"@),
        shows(x.json_2(), ",\"dirty\":"@ + truth(x.dirty) + ",\"engine_reads\":"@),
        shows(x.json_2(), ",\"engine_reads\":"@ + snapshot::reads_text(snapshot::opt_reads(x.engine_reads)) + ",\"engine_status\":"@),
        shows(x.json_2(), ",\"engine_status\":"@ + json::json_quoted(x.engine_status@) + ",\"gating\":"@),
        shows(x.json_2(), ",\"gating\":"@ + json::json_quoted(x.gating@) + ",\"human\":"@),
        shows(x.json_2(), ",\"human\":"@ + json::json_quoted(x.human@)),
{
    lemma_truth(x.dirty);
    let none = Seq::<char>::empty();
    let t0 = ",\"cursor\":"@;
    let t1 = t0 + text::decimal(x.cursor as nat);
    let t2 = t1 + ",\"dirty\":"@;
    let t3 = t2 + truth(x.dirty);
    let t4 = t3 + ",\"engine_reads\":"@;
    let t5 = t4 + snapshot::reads_text(snapshot::opt_reads(x.engine_reads));
    let t6 = t5 + ",\"engine_status\":"@;
    let t7 = t6 + json::json_quoted(x.engine_status@);
    let t8 = t7 + ",\"gating\":"@;
    let t9 = t8 + json::json_quoted(x.gating@);
    let t10 = t9 + ",\"human\":"@;
    let t11 = t10 + json::json_quoted(x.human@);
    lemma_still_shown(t0, text::decimal(x.cursor as nat));
    lemma_shown_at_the_end(none, ",\"cursor\":"@, text::decimal(x.cursor as nat), ",\"dirty\":"@);
    lemma_still_shown(t1, ",\"dirty\":"@);
    lemma_still_shown(t2, truth(x.dirty));
    lemma_shown_at_the_end(t1, ",\"dirty\":"@, truth(x.dirty), ",\"engine_reads\":"@);
    lemma_still_shown(t3, ",\"engine_reads\":"@);
    lemma_still_shown(t4, snapshot::reads_text(snapshot::opt_reads(x.engine_reads)));
    lemma_shown_at_the_end(t3, ",\"engine_reads\":"@, snapshot::reads_text(snapshot::opt_reads(x.engine_reads)), ",\"engine_status\":"@);
    lemma_still_shown(t5, ",\"engine_status\":"@);
    lemma_still_shown(t6, json::json_quoted(x.engine_status@));
    lemma_shown_at_the_end(t5, ",\"engine_status\":"@, json::json_quoted(x.engine_status@), ",\"gating\":"@);
    lemma_still_shown(t7, ",\"gating\":"@);
    lemma_still_shown(t8, json::json_quoted(x.gating@));
    lemma_shown_at_the_end(t7, ",\"gating\":"@, json::json_quoted(x.gating@), ",\"human\":"@);
    lemma_still_shown(t9, ",\"human\":"@);
    lemma_shown_at_the_end(t9, ",\"human\":"@, json::json_quoted(x.human@), none);
    lemma_still_shown(t10, json::json_quoted(x.human@));
    assert(x.json_2() == t11);
}

/// The text of the state names the komi and what was told:
/// each value stands behind its own name.
pub proof fn law_state_notices(x: snapshot::StateSnapshot)
    ensures
        shows(x.json_3(), ",\"komi\":"@ + number::in_json(x.komi@) + ",\"last_log\":"@),
        shows(x.json_3(), ",\"last_log\":"@ + snapshot::opt_quoted(names::opt_text(x.last_log)) + ",\"line_len\":"@),
        shows(x.json_3(), ",\"line_len\":"@ + text::decimal(x.line_len as nat) + ",\"manual_revealed\":"@),
        shows(x.json_3(), ",\"manual_revealed\":"@ + truth(x.manual_revealed) + ",\"notices\":["@),
        shows(x.json_3(), ",\"notices\":["@ + snapshot::quoted_list(super::texts(x.notices@)) + "]"@),
{
    lemma_truth(x.manual_revealed);
    let none = Seq::<char>::empty();
    let t0 = ",\"komi\":"@;
    let t1 = t0 + number::in_json(x.komi@);
    let t2 = t1 + ",\"last_log\":"@;
    let t3 = t2 + snapshot::opt_quoted(names::opt_text(x.last_log));
    let t4 = t3 + ",\"line_len\":"@;
    let t5 = t4 + text::decimal(x.line_len as nat);
    let t6 = t5 + ",\"manual_revealed\":"@;
    let t7 = t6 + truth(x.manual_revealed);
    let t8 = t7 + ",\"notices\":["@;
    let t9 = t8 + snapshot::quoted_list(super::texts(x.notices@));
    let t10 = t9 + "]"@;
    lemma_still_shown(t0, number::in_json(x.komi@));
    lemma_shown_at_the_end(none, ",\"komi\":"@, number::in_json(x.komi@), ",\"last_log\":"@);
    lemma_still_shown(t1, ",\"last_log\":"@);
    lemma_still_shown(t2, snapshot::opt_quoted(names::opt_text(x.last_log)));
    lemma_shown_at_the_end(t1, ",\"last_log\":"@, snapshot::opt_quoted(names::opt_text(x.last_log)), ",\"line_len\":"@);
    lemma_still_shown(t3, ",\"line_len\":"@);
    lemma_still_shown(t4, text::decimal(x.line_len as nat));
    lemma_shown_at_the_end(t3, ",\"line_len\":"@, text::decimal(x.line_len as nat), ",\"manual_revealed\":"@);
    lemma_still_shown(t5, ",\"manual_revealed\":"@);
    lemma_still_shown(t6, truth(x.manual_revealed));
    lemma_shown_at_the_end(t5, ",\"manual_revealed\":"@, truth(x.manual_revealed), ",\"notices\":["@);
    lemma_still_shown(t7, ",\"notices\":["@);
    lemma_still_shown(t8, snapshot::quoted_list(super::texts(x.notices@)));
    lemma_shown_at_the_end(t7, ",\"notices\":["@, snapshot::quoted_list(super::texts(x.notices@)), "]"@);
    lemma_still_shown(t9, "]"@);
    assert(x.json_3() == t10);
}

/// The text of the state names the game and where it is from:
/// each value stands behind its own name.
pub proof fn law_state_game(x: snapshot::StateSnapshot)
    ensures
        shows(x.json_4(), ",\"play_finished\":"@ + truth(x.play_finished) + ",\"play_mode\":"@),
        shows(x.json_4(), ",\"play_mode\":"@ + truth(x.play_mode) + ",\"resigned\":"@),
        shows(x.json_4(), ",\"resigned\":"@ + snapshot::opt_quoted(super::menu::opt_lit(x.resigned)) + ",\"size\":"@),
        shows(x.json_4(), ",\"size\":"@ + text::decimal(x.size as nat) + ",\"source\":"@),
        shows(x.json_4(), ",\"source\":"@ + snapshot::opt_quoted(names::opt_text(x.source))),
{
    lemma_truth(x.play_finished);
    lemma_truth(x.play_mode);
    let none = Seq::<char>::empty();
    let t0 = ",\"play_finished\":"@;
    let t1 = t0 + truth(x.play_finished);
    let t2 = t1 + ",\"play_mode\":"@;
    let t3 = t2 + truth(x.play_mode);
    let t4 = t3 + ",\"resigned\":"@;
    let t5 = t4 + snapshot::opt_quoted(super::menu::opt_lit(x.resigned));
    let t6 = t5 + ",\"size\":"@;
    let t7 = t6 + text::decimal(x.size as nat);
    let t8 = t7 + ",\"source\":"@;
    let t9 = t8 + snapshot::opt_quoted(names::opt_text(x.source));
    lemma_still_shown(t0, truth(x.play_finished));
    lemma_shown_at_the_end(none, ",\"play_finished\":"@, truth(x.play_finished), ",\"play_mode\":"@);
    lemma_still_shown(t1, ",\"play_mode\":"@);
    lemma_still_shown(t2, truth(x.play_mode));
    lemma_shown_at_the_end(t1, ",\"play_mode\":"@, truth(x.play_mode), ",\"resigned\":"@);
    lemma_still_shown(t3, ",\"resigned\":"@);
    lemma_still_shown(t4, snapshot::opt_quoted(super::menu::opt_lit(x.resigned)));
    lemma_shown_at_the_end(t3, ",\"resigned\":"@, snapshot::opt_quoted(super::menu::opt_lit(x.resigned)), ",\"size\":"@);
    lemma_still_shown(t5, ",\"size\":"@);
    lemma_still_shown(t6, text::decimal(x.size as nat));
    lemma_shown_at_the_end(t5, ",\"size\":"@, text::decimal(x.size as nat), ",\"source\":"@);
    lemma_still_shown(t7, ",\"source\":"@);
    lemma_shown_at_the_end(t7, ",\"source\":"@, snapshot::opt_quoted(names::opt_text(x.source)), none);
    lemma_still_shown(t8, snapshot::opt_quoted(names::opt_text(x.source)));
    assert(x.json_4() == t9);
}

/// The text of the state names what is on and the size of the tree:
/// each value stands behind its own name.
pub proof fn law_state_rest(x: snapshot::StateSnapshot)
    ensures
        shows(x.json_5(), ",\"timeout_loss\":"@ + snapshot::opt_quoted(super::menu::opt_lit(x.timeout_loss)) + ",\"toggles\":"@),
        shows(x.json_5(), ",\"toggles\":"@ + snapshot::toggles_text(x.toggles) + ",\"transient_error\":"@),
        shows(x.json_5(), ",\"transient_error\":"@ + snapshot::opt_quoted(names::opt_text(x.transient_error)) + ",\"tree_moves\":"@),
        shows(x.json_5(), ",\"tree_moves\":"@ + text::decimal(x.tree_moves as nat) + ",\"viewport_commands\":["@),
        shows(x.json_5(), ",\"viewport_commands\":["@ + snapshot::quoted_list(super::texts(x.viewport_commands@)) + "]}"@),
{
    let none = Seq::<char>::empty();
    let t0 = ",\"timeout_loss\":"@;
    let t1 = t0 + snapshot::opt_quoted(super::menu::opt_lit(x.timeout_loss));
    let t2 = t1 + ",\"toggles\":"@;
    let t3 = t2 + snapshot::toggles_text(x.toggles);
    let t4 = t3 + ",\"transient_error\":"@;
    let t5 = t4 + snapshot::opt_quoted(names::opt_text(x.transient_error));
    let t6 = t5 + ",\"tree_moves\":"@;
    let t7 = t6 + text::decimal(x.tree_moves as nat);
    let t8 = t7 + ",\"viewport_commands\":["@;
    let t9 = t8 + snapshot::quoted_list(super::texts(x.viewport_commands@));
    let t10 = t9 + "]}"@;
    lemma_still_shown(t0, snapshot::opt_quoted(super::menu::opt_lit(x.timeout_loss)));
    lemma_shown_at_the_end(none, ",\"timeout_loss\":"@, snapshot::opt_quoted(super::menu::opt_lit(x.timeout_loss)), ",\"toggles\":"@);
    lemma_still_shown(t1, ",\"toggles\":"@);
    lemma_still_shown(t2, snapshot::toggles_text(x.toggles));
    lemma_shown_at_the_end(t1, ",\"toggles\":"@, snapshot::toggles_text(x.toggles), ",\"transient_error\":"@);
    lemma_still_shown(t3, ",\"transient_error\":"@);
    lemma_still_shown(t4, snapshot::opt_quoted(names::opt_text(x.transient_error)));
    lemma_shown_at_the_end(t3, ",\"transient_error\":"@, snapshot::opt_quoted(names::opt_text(x.transient_error)), ",\"tree_moves\":"@);
    lemma_still_shown(t5, ",\"tree_moves\":"@);
    lemma_still_shown(t6, text::decimal(x.tree_moves as nat));
    lemma_shown_at_the_end(t5, ",\"tree_moves\":"@, text::decimal(x.tree_moves as nat), ",\"viewport_commands\":["@);
    lemma_still_shown(t7, ",\"viewport_commands\":["@);
    lemma_still_shown(t8, snapshot::quoted_list(super::texts(x.viewport_commands@)));
    lemma_shown_at_the_end(t7, ",\"viewport_commands\":["@, snapshot::quoted_list(super::texts(x.viewport_commands@)), "]}"@);
    lemma_still_shown(t9, "]}"@);
    assert(x.json_5() == t10);
}

/// The text of the state names what is on, each under its own name:
/// each value stands behind its own name.
pub proof fn law_state_toggles(x: prefs::Toggles)
    ensures
        shows(snapshot::toggles_text(x), "{\"curve_open\":"@ + truth(x.curve_open) + ",\"new_game_open\":"@),
        shows(snapshot::toggles_text(x), ",\"new_game_open\":"@ + truth(x.new_game_open) + ",\"settings_open\":"@),
        shows(snapshot::toggles_text(x), ",\"settings_open\":"@ + truth(x.settings_open) + ",\"show_candidates\":"@),
        shows(snapshot::toggles_text(x), ",\"show_candidates\":"@ + truth(x.show_candidates) + ",\"show_heat\":"@),
        shows(snapshot::toggles_text(x), ",\"show_heat\":"@ + truth(x.show_heat) + ",\"show_mini_board\":"@),
        shows(snapshot::toggles_text(x), ",\"show_mini_board\":"@ + truth(x.show_mini_board) + ",\"show_mistakes\":"@),
        shows(snapshot::toggles_text(x), ",\"show_mistakes\":"@ + truth(x.show_mistakes) + ",\"show_moves_heat\":"@),
        shows(snapshot::toggles_text(x), ",\"show_moves_heat\":"@ + truth(x.show_moves_heat) + ",\"show_policy\":"@),
        shows(snapshot::toggles_text(x), ",\"show_policy\":"@ + truth(x.show_policy) + ",\"show_score_lead\":"@),
        shows(snapshot::toggles_text(x), ",\"show_score_lead\":"@ + truth(x.show_score_lead) + ",\"tree_open\":"@),
        shows(snapshot::toggles_text(x), ",\"tree_open\":"@ + truth(x.tree_open) + "}"@),
{
    lemma_truth(x.curve_open);
    lemma_truth(x.new_game_open);
    lemma_truth(x.settings_open);
    lemma_truth(x.show_candidates);
    lemma_truth(x.show_heat);
    lemma_truth(x.show_mini_board);
    lemma_truth(x.show_mistakes);
    lemma_truth(x.show_moves_heat);
    lemma_truth(x.show_policy);
    lemma_truth(x.show_score_lead);
    lemma_truth(x.tree_open);
    let none = Seq::<char>::empty();
    let t0 = "{\"curve_open\":"@;
    let t1 = t0 + truth(x.curve_open);
    let t2 = t1 + ",\"new_game_open\":"@;
    let t3 = t2 + truth(x.new_game_open);
    let t4 = t3 + ",\"settings_open\":"@;
    let t5 = t4 + truth(x.settings_open);
    let t6 = t5 + ",\"show_candidates\":"@;
    let t7 = t6 + truth(x.show_candidates);
    let t8 = t7 + ",\"show_heat\":"@;
    let t9 = t8 + truth(x.show_heat);
    let t10 = t9 + ",\"show_mini_board\":"@;
    let t11 = t10 + truth(x.show_mini_board);
    let t12 = t11 + ",\"show_mistakes\":"@;
    let t13 = t12 + truth(x.show_mistakes);
    let t14 = t13 + ",\"show_moves_heat\":"@;
    let t15 = t14 + truth(x.show_moves_heat);
    let t16 = t15 + ",\"show_policy\":"@;
    let t17 = t16 + truth(x.show_policy);
    let t18 = t17 + ",\"show_score_lead\":"@;
    let t19 = t18 + truth(x.show_score_lead);
    let t20 = t19 + ",\"tree_open\":"@;
    let t21 = t20 + truth(x.tree_open);
    let t22 = t21 + "}"@;
    lemma_still_shown(t0, truth(x.curve_open));
    lemma_shown_at_the_end(none, "{\"curve_open\":"@, truth(x.curve_open), ",\"new_game_open\":"@);
    lemma_still_shown(t1, ",\"new_game_open\":"@);
    lemma_still_shown(t2, truth(x.new_game_open));
    lemma_shown_at_the_end(t1, ",\"new_game_open\":"@, truth(x.new_game_open), ",\"settings_open\":"@);
    lemma_still_shown(t3, ",\"settings_open\":"@);
    lemma_still_shown(t4, truth(x.settings_open));
    lemma_shown_at_the_end(t3, ",\"settings_open\":"@, truth(x.settings_open), ",\"show_candidates\":"@);
    lemma_still_shown(t5, ",\"show_candidates\":"@);
    lemma_still_shown(t6, truth(x.show_candidates));
    lemma_shown_at_the_end(t5, ",\"show_candidates\":"@, truth(x.show_candidates), ",\"show_heat\":"@);
    lemma_still_shown(t7, ",\"show_heat\":"@);
    lemma_still_shown(t8, truth(x.show_heat));
    lemma_shown_at_the_end(t7, ",\"show_heat\":"@, truth(x.show_heat), ",\"show_mini_board\":"@);
    lemma_still_shown(t9, ",\"show_mini_board\":"@);
    lemma_still_shown(t10, truth(x.show_mini_board));
    lemma_shown_at_the_end(t9, ",\"show_mini_board\":"@, truth(x.show_mini_board), ",\"show_mistakes\":"@);
    lemma_still_shown(t11, ",\"show_mistakes\":"@);
    lemma_still_shown(t12, truth(x.show_mistakes));
    lemma_shown_at_the_end(t11, ",\"show_mistakes\":"@, truth(x.show_mistakes), ",\"show_moves_heat\":"@);
    lemma_still_shown(t13, ",\"show_moves_heat\":"@);
    lemma_still_shown(t14, truth(x.show_moves_heat));
    lemma_shown_at_the_end(t13, ",\"show_moves_heat\":"@, truth(x.show_moves_heat), ",\"show_policy\":"@);
    lemma_still_shown(t15, ",\"show_policy\":"@);
    lemma_still_shown(t16, truth(x.show_policy));
    lemma_shown_at_the_end(t15, ",\"show_policy\":"@, truth(x.show_policy), ",\"show_score_lead\":"@);
    lemma_still_shown(t17, ",\"show_score_lead\":"@);
    lemma_still_shown(t18, truth(x.show_score_lead));
    lemma_shown_at_the_end(t17, ",\"show_score_lead\":"@, truth(x.show_score_lead), ",\"tree_open\":"@);
    lemma_still_shown(t19, ",\"tree_open\":"@);
    lemma_still_shown(t20, truth(x.tree_open));
    lemma_shown_at_the_end(t19, ",\"tree_open\":"@, truth(x.tree_open), "}"@);
    lemma_still_shown(t21, "}"@);
    assert(snapshot::toggles_text(x) == t22);
}

// ---- what is remembered ----

/// Each setting of the window is that of its own name; windows for settings, games and scans are
/// closed at first, and a scan looks at one visit and one move at least.
pub proof fn law_panels_name_by_name(p: crate::engine::settings::PrefsView)
    ensures
        ({
            let w = prefs::panels_in(p);
            &&& w.overlay.show_candidates == p.show_candidates
            &&& w.overlay.show_heat == p.show_heat
            &&& w.overlay.show_policy == p.show_policy
            &&& w.overlay.show_moves_heat == p.show_moves_heat
            &&& w.overlay.show_mistakes == p.show_mistakes
            &&& w.overlay.show_score_lead == p.show_score_lead
            &&& w.overlay.show_mini_board == p.show_mini_board
            &&& w.curve_open == p.curve_open
            &&& w.tree_open == p.tree_open
            &&& !w.settings_open && !w.new_game_open && !w.batch_scan_open
            &&& w.batch.include_variations == p.batch_variations
            &&& w.batch.deepen_enabled == p.batch_deepen
            &&& p.batch_visits > 0 ==> w.batch.visits == p.batch_visits
            &&& p.batch_deepen_top > 0 ==> w.batch.deepen_top == p.batch_deepen_top
            &&& p.batch_deepen_visits > 0 ==> w.batch.deepen_visits == p.batch_deepen_visits
            &&& w.batch.visits > 0 && w.batch.deepen_top > 0 && w.batch.deepen_visits > 0
        }),
{
}

/// Where a dialog cannot be shown, what was to go on after saving is asked about again, and no
/// document changes.
pub proof fn law_dialog_that_fails(s: AppView, why: Seq<char>)
    ensures
        ({
            let t = s.no_dialog(why);
            let saving = s.asking.dialog == Some(super::PendingDialog::Save);
            &&& t.docs == s.docs && t.table == s.table
            &&& t.asking.dialog is None
            &&& t.asking.exit_requested == s.asking.exit_requested
            &&& saving ==> t.asking.post_save is Nothing
            &&& saving && s.asking.post_save is Exit ==> t.asking.unsaved == Some(
                UnsavedConfirm::Exit,
            )
            &&& saving && s.asking.post_save is OpenDialog ==> t.asking.unsaved == Some(
                UnsavedConfirm::OpenDialog,
            )
            &&& saving ==> (s.asking.post_save matches PostSaveAction::NewGame(setup)
                ==> t.asking.unsaved == Some(UnsavedConfirm::NewGame(setup)))
            &&& !saving || s.asking.post_save is Nothing ==> t.asking.unsaved == s.asking.unsaved
        }),
{
}

/// Changes rest since the first of them.
pub proof fn law_changes_rest_since_the_first(s: AppView, a: u64, b: u64)
    ensures
        s.changed(a).prefs_dirty_since is Some,
        s.prefs_dirty_since is None ==> s.changed(a).prefs_dirty_since == Some(a),
        s.changed(a).changed(b) == s.changed(a),
        s.changed(a).docs == s.docs,
{
}

/// The rules of a game that was started here go before those that the record speaks of.
pub proof fn law_rules_of_the_game(s: AppView, r: crate::engine::config::Rules, raw: Seq<char>)
    ensures
        s.table.active_rules == Some(r.wire_spec()) ==> s.game_rules() == Some(r.wire_spec()),
        s.table.active_rules is None && s.rules_text() == Some(raw) ==> s.game_rules() == Some(raw),
        s.table.active_rules is None && s.rules_text() is None ==> s.game_rules() is None
            && s.rules_name() is None,
        s.docs.active.meta matches Some(m) ==> s.rules_text() == m.info.rules,
{
}

/// A record is saved under the name of its file; a copy under that name with its number.
pub proof fn law_name_to_save_under(d: DocsView)
    ensures
        d.active.from_move is None && d.active.meta is Some ==> (match names::named(
            d.active.meta->0.source,
        ) {
            Some(n) => d.save_name() == n,
            None => d.save_name() == "guanqi.sgf"@,
        }),
        d.active.from_move is None && d.active.meta is None ==> d.save_name() == "guanqi.sgf"@,
        d.active.from_move is Some ==> d.save_name() == names::offered_copy_name(
            docs::record_file(d.record().meta),
            d.active.number as nat,
        ),
{
}

// ---- looking around ----

/// The cursor goes to the move with the number that was asked for, on the current line; a number
/// that the line does not reach changes nothing.
pub proof fn law_going_to_a_move(b: BoardView, n: usize)
    requires
        b.wf(),
    ensures
        model::line_at(b.nodes, n as nat) is None ==> docs::turned(b, n) == b,
        model::line_at(b.nodes, n as nat) matches Some(id) ==> {
            let w = docs::turned(b, n);
            &&& w.current == id
            &&& b.nodes[id as int].depth == n
            &&& w.here().grid == b.nodes[id as int].grid
            &&& w.nodes.len() == b.nodes.len()
        },
{
    if model::line_at(b.nodes, n as nat) is Some {
        tree::lemma_line(b.size, b.root_to_play, b.nodes, n as nat);
        board::laws::law_cursor_goes_there(b, model::line_at(b.nodes, n as nat)->0);
    }
}

/// A line is followed step by step as long as its next step is in the tree, and no further.
pub proof fn law_line_is_followed(b: BoardView, step: Option<Coord>, rest: Seq<Option<Coord>>)
    ensures
        documents::followed(b, Seq::empty()) == b,
        ({
            let action = match step {
                Some(at) => Action::Place(at),
                None => Action::Pass,
            };
            let line = seq![step] + rest;
            &&& !model::has_child_with(b.nodes, b.current, action) ==> documents::followed(b, line)
                == b
            &&& model::has_child_with(b.nodes, b.current, action) ==> documents::followed(b, line)
                == documents::followed(
                b.branched(model::child_with(b.nodes, b.current, action)),
                rest,
            )
        }),
{
    let line = seq![step] + rest;
    assert(line.skip(1) =~= rest);
    assert(line[0] == step);
}

/// Going to a document makes it the active one; the one that was active is kept among the others,
/// and nothing of it is unsaved.
pub proof fn law_switch_keeps_documents(d: DocsView, number: usize, i: int)
    requires
        docs::place(d.others, number) == Some(i),
        0 <= i < d.others.len(),
    ensures
        d.switched(number).active == d.others[i],
        d.switched(number).others.contains(d.active),
        d.switched(number).others.len() == d.others.len(),
        d.switched(number).next_number == d.next_number,
        !d.switched(number).dirty,
        d.switched(number).epoch != d.epoch,
        forall|k: int|
            0 <= k < d.others.len() && k != i ==> d.switched(number).others.contains(
                #[trigger] d.others[k],
            ),
{
    let w = d.switched(number).others;
    let less = d.others.remove(i);
    assert(w[less.len() as int] == d.active);
    assert forall|k: int| 0 <= k < d.others.len() && k != i implies w.contains(
        #[trigger] d.others[k],
    ) by {
        if k < i {
            assert(w[k] == d.others[k]);
        } else {
            assert(w[k - 1] == d.others[k]);
        }
    }
}

/// That the engine has no hope is told once in a game that it did not resign, and only when a search
/// says so.
pub proof fn law_no_hope_is_told_once(s: AppView, low: bool)
    ensures
        s.hopeless(low) ==> low && s.table.play.mode && s.table.play.resigned is None
            && !s.table.play.hopeless_shown,
        s.table.play.mode && s.table.play.resigned is None && !s.table.play.hopeless_shown
            ==> s.hopeless(true),
        !s.hopeless(false),
{
}

/// A mark goes when its point is no longer known; reports change no document.
pub proof fn law_reports_are_told(
    s: AppView,
    batch: Option<Seq<char>>,
    rules: Option<Seq<char>>,
    known: bool,
)
    ensures
        ({
            let t = s.reports_told(batch, rules, known);
            &&& t.docs == s.docs && t.table == s.table && t.asking == s.asking
            &&& known ==> t.marks == s.marks
            &&& !known ==> t.marks.focus is None
            &&& batch is None && rules is None ==> t.notices == s.notices
        }),
{
}

/// Where the window stands is remembered; only another place counts as a change.
pub proof fn law_place_of_the_window(
    s: AppView,
    g: crate::engine::settings::GeometryView,
    now: u64,
)
    ensures
        s.seen_at(g, now).engine_cfg.ui_prefs.window_geometry == Some(g),
        s.engine_cfg.ui_prefs.window_geometry == Some(g) ==> s.seen_at(g, now).prefs_dirty_since
            == s.prefs_dirty_since,
        s.engine_cfg.ui_prefs.window_geometry != Some(g) ==> s.seen_at(
            g,
            now,
        ).prefs_dirty_since is Some,
        s.seen_at(g, now).docs == s.docs,
{
}

/// A new game takes down its time limit: the main time in minutes, and how many periods of how many
/// seconds there are; without a limit nothing is taken down.
pub proof fn law_time_limit_is_taken_down(s: AppView, setup: GameSetup)
    ensures
        ({
            let info = s.with_game(setup).docs.active.meta->0.info;
            match setup.time_system {
                timer::TimeSystem::Unlimited => info.time_limit is None && info.overtime is None,
                timer::TimeSystem::Absolute { seconds } => info.time_limit == Some(
                    text::decimal(names::to_nearest(seconds, 60_000_000_000)) + " 分钟"@,
                ) && info.overtime is None,
                timer::TimeSystem::Byoyomi { main_seconds, period_seconds, periods } => {
                    &&& info.time_limit == Some(
                        text::decimal(names::to_nearest(main_seconds, 60_000_000_000))
                            + " 分钟"@,
                    )
                    &&& info.overtime == Some(
                        text::decimal(periods as nat) + " 次 × "@ + text::decimal(
                            names::to_nearest(period_seconds, 1_000_000_000),
                        ) + " 秒读秒"@,
                    )
                },
            }
        }),
{
}

} // verus!
