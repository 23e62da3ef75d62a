//! The application: documents, games, dialogs, questions, and what a frame does.

use guanqi::app::confirm::{
    post_save_of, PendingConfirm, PendingDialog, PostSaveAction, UnsavedConfirm, UnsavedVerdict,
};
use guanqi::app::dialogs::Effect;
use guanqi::app::documents::WindowCommand;
use guanqi::app::files::Next;
use guanqi::app::game::TerminalEval;
use guanqi::app::names::{
    copy_name, default_sgf_name, dir_of, file_name, result_letter, time_meta_text,
};
use guanqi::app::notice::{with_warning, LoadNotice, NoticeFeed};
use guanqi::app::panel::{gating_hint, limits_menu, PanelAction, PanelEffect};
use guanqi::app::prefs::{prefs_step, repaint_after, Panels};
use guanqi::app::snapshot::{BatchProgress, EngineFacts, EngineReads, EngineStatus};
use guanqi::app::GuanqiApp;
use guanqi::board::{Coord, IllegalReason, Size, Stone};
use guanqi::engine::config::{Difficulty, Rules};
use guanqi::engine::settings::{CandidateGating, EngineConfig, UiPrefs, WindowGeometry};
use guanqi::play::timer::{Seconds, TimeSystem, SECOND};
use guanqi::play::{GameSetup, Snapshot};
use guanqi::portal::{PortalError, PortalEvent};

const GAME: &[u8] = b"(;GM[1]FF[3]SZ[9]KM[6.5]RU[Japanese];B[cc];W[gg];B[cg])";

fn config() -> EngineConfig {
    EngineConfig::found("/usr/bin/katago".to_string(), None, "/w".to_string(), 4)
}

fn fresh() -> GuanqiApp {
    GuanqiApp::new_with_prefs(config(), None, vec![], None, 8)
}

fn opened() -> GuanqiApp {
    let mut a = fresh();
    assert!(a.load_game_from_bytes("/games/a.sgf", GAME));
    a
}

fn at(x: u8, y: u8) -> Coord {
    Coord::new(Size::new(9).unwrap(), x, y).unwrap()
}

fn setup(human: Stone, time_system: TimeSystem) -> GameSetup {
    GameSetup {
        size: Size::new(9).unwrap(),
        komi: "5.5".to_string(),
        handicap: 0,
        human,
        difficulty: Difficulty::Easy,
        time_system,
        rules: Rules::Korean,
    }
}

fn playing(human: Stone, time_system: TimeSystem) -> GuanqiApp {
    let mut a = fresh();
    assert!(matches!(
        a.want_new_game(setup(human, time_system)),
        Next::GameStarted { save_settings: true }
    ));
    a
}

fn last_notice(a: &GuanqiApp) -> String {
    a.notices.texts().last().unwrap().clone()
}

fn facts() -> EngineFacts {
    EngineFacts {
        status: EngineStatus::Ready,
        reads: None,
        candidates: 0,
        transient_error: None,
        last_log: None,
        batch: None,
        candidates_visible: true,
    }
}

#[test]
fn a_fresh_window() {
    let a = GuanqiApp::new_with_prefs(
        config(),
        Some("x".to_string()),
        vec!["y".to_string(), "z".to_string()],
        None,
        8,
    );
    assert_eq!(a.startup_notice, Some("x\ny\nz".to_string()));
    assert_eq!(a.board().size(), Size::usual());
    assert_eq!(a.table.komi, "7.5");
    assert!(!a.is_dirty());
}

#[test]
fn a_record_is_opened() {
    let a = opened();
    assert_eq!(a.board().size().n(), 9);
    assert_eq!(a.table.komi, "6.5");
    assert_eq!(last_notice(&a), "已载入 9路 棋谱，全树共 3 手。");
    assert!(!a.is_dirty());
    assert_eq!(a.game_rules(), Some("Japanese".to_string()));
    assert_eq!(a.current_rules_name(), Some("日本".to_string()));
}

#[test]
fn a_record_that_cannot_be_opened() {
    let mut a = opened();
    assert!(!a.load_game_from_bytes("/b.sgf", b"nothing"));
    assert!(last_notice(&a).starts_with("打开棋谱失败：应为"));
    assert_eq!(a.board().line_len(), 3);
    a.read_failed("/b.sgf", "no");
    assert_eq!(last_notice(&a), "读取 /b.sgf 失败：no");
}

#[test]
fn a_record_is_saved() {
    let mut a = opened();
    a.docs.go_to(3);
    assert!(a.human_move(at(6, 2)).is_ok());
    assert!(a.is_dirty());
    let text = a.document_text(None);
    assert!(text.contains("FF[4]") && text.ends_with(";B[cc];W[gg];B[cg];W[gc])"));
    match a.save_file_dialog() {
        Some(Effect::SaveDialog { name, dir }) => {
            assert_eq!(name, "a.sgf");
            assert_eq!(dir, None);
        }
        _ => panic!("no dialog"),
    }
    match a.inject_portal_event(
        PendingDialog::Save,
        PortalEvent::Picked("/out/b.sgf".to_string()),
        5,
    ) {
        Some(Effect::WriteFile(p)) => assert_eq!(p, "/out/b.sgf"),
        _ => panic!("no file"),
    }
    assert_eq!(a.engine_cfg.ui_prefs.last_save_dir, Some("/out".to_string()));
    assert_eq!(a.prefs_dirty_since, Some(5));
    let (next, effect) = a.saved("/out/b.sgf");
    assert_eq!(next, Next::Nothing);
    assert!(effect.is_none());
    assert!(!a.is_dirty());
    assert_eq!(a.docs.active.meta.as_ref().unwrap().source(), "/out/b.sgf");
    let mut b = fresh();
    assert!(b.load_game_from_bytes("/out/b.sgf", text.as_bytes()));
    assert_eq!(b.board().line_len(), 4);
    a.save_failed("/out/b.sgf", "full");
    assert_eq!(last_notice(&a), "保存到 /out/b.sgf 失败：full");
}

#[test]
fn one_dialog_at_a_time() {
    let mut a = opened();
    assert!(matches!(a.open_file_dialog(), Some(Effect::OpenDialog { .. })));
    assert!(a.open_file_dialog().is_none());
    assert_eq!(last_notice(&a), "已有文件对话框正在等待选择，请先完成或取消。");
    assert!(a
        .inject_portal_event(PendingDialog::Open, PortalEvent::Cancelled, 0)
        .is_none());
    assert!(a.open_file_dialog().is_some());
    match a.inject_portal_event(PendingDialog::Open, PortalEvent::Picked("/d/x.sgf".to_string()), 0)
    {
        Some(Effect::ReadFile(p)) => assert_eq!(p, "/d/x.sgf"),
        _ => panic!("no file"),
    }
    assert!(a.open_file_dialog().is_some());
    assert!(a
        .inject_portal_event(
            PendingDialog::Open,
            PortalEvent::Failed(PortalError::Timeout(300)),
            0
        )
        .is_none());
    assert!(last_notice(&a).starts_with("等待用户选择超时"));
}

#[test]
fn no_dialog_service() {
    let mut a = GuanqiApp::new_with_prefs(config(), None, vec![], Some("没有".to_string()), 8);
    assert!(a.open_file_dialog().is_none());
    assert_eq!(last_notice(&a), "文件对话框不可用：没有");
    assert!(a.file_menu().dialog_reason.is_some());
    assert!(matches!(a.dialog_guard(), Some(LoadNotice::Warn(_))));
}

#[test]
fn unsaved_changes_are_asked_about() {
    let mut a = opened();
    a.docs.pass();
    assert_eq!(a.handle_close_request(false), None);
    assert_eq!(a.handle_close_request(true), Some(WindowCommand::CancelClose));
    assert!(matches!(a.asking.unsaved, Some(UnsavedConfirm::Exit)));
    let (next, effect) = a.answer_unsaved(UnsavedVerdict::Cancel);
    assert_eq!(next, Next::Nothing);
    assert!(effect.is_none() && a.asking.unsaved.is_none());
    assert_eq!(a.handle_close_request(true), Some(WindowCommand::CancelClose));
    let _ = a.answer_unsaved(UnsavedVerdict::Discard);
    assert_eq!(a.handle_close_request(false), Some(WindowCommand::Close));
    assert_eq!(a.handle_close_request(false), None);
}

#[test]
fn saving_goes_on_to_what_was_wanted() {
    let mut a = opened();
    a.docs.pass();
    assert_eq!(a.want_new_game(setup(Stone::Black, TimeSystem::Unlimited)), Next::Nothing);
    assert!(matches!(a.asking.unsaved, Some(UnsavedConfirm::NewGame(_))));
    let (next, effect) = a.answer_unsaved(UnsavedVerdict::SaveThenContinue);
    assert_eq!(next, Next::Dialog);
    assert!(matches!(effect, Some(Effect::SaveDialog { .. })));
    let _ = a.inject_portal_event(
        PendingDialog::Save,
        PortalEvent::Picked("/o.sgf".to_string()),
        0,
    );
    let (next, _) = a.saved("/o.sgf");
    assert!(matches!(next, Next::GameStarted { .. }));
    assert!(a.table.play.mode);
    assert!(matches!(post_save_of(UnsavedConfirm::Exit), PostSaveAction::Exit));
}

#[test]
fn a_dialog_that_cannot_be_shown() {
    let mut a = opened();
    a.docs.pass();
    assert!(a.open_file_dialog().is_none());
    let (_, effect) = a.answer_unsaved(UnsavedVerdict::Discard);
    assert!(matches!(effect, Some(Effect::OpenDialog { .. })));
    a.dialog_failed("no");
    a.ask_open_again();
    assert!(matches!(a.asking.unsaved, Some(UnsavedConfirm::OpenDialog)));
    let (_, effect) = a.answer_unsaved(UnsavedVerdict::SaveThenContinue);
    assert!(matches!(effect, Some(Effect::SaveDialog { .. })));
    a.dialog_failed("no");
    assert!(matches!(a.asking.unsaved, Some(UnsavedConfirm::OpenDialog)));
    assert!(matches!(a.asking.post_save, PostSaveAction::Nothing));
    a.request_exit();
    assert_eq!(a.handle_close_request(false), None);
    let (_, effect) = a.answer_unsaved(UnsavedVerdict::Cancel);
    assert!(effect.is_none());
    a.request_exit();
    assert!(matches!(a.asking.unsaved, Some(UnsavedConfirm::Exit)));
    assert!(!a.asking.exit_requested);
    let _ = a.answer_unsaved(UnsavedVerdict::Discard);
    assert_eq!(a.handle_close_request(false), Some(WindowCommand::Close));
}

#[test]
fn leaving_without_changes() {
    let mut a = opened();
    a.request_exit();
    assert!(a.asking.unsaved.is_none());
    assert_eq!(a.handle_close_request(false), Some(WindowCommand::Close));
    assert_eq!(a.handle_close_request(true), None);
}

#[test]
fn a_failed_save_goes_nowhere() {
    let mut a = opened();
    a.docs.pass();
    let _ = a.handle_close_request(true);
    let _ = a.answer_unsaved(UnsavedVerdict::SaveThenContinue);
    a.save_failed("/o.sgf", "full");
    assert!(matches!(a.asking.post_save, PostSaveAction::Nothing));
    let _ = a.saved("/o.sgf");
    assert!(!a.asking.exit_requested);
}

#[test]
fn a_cancelled_save_goes_nowhere() {
    let mut a = opened();
    a.docs.pass();
    let _ = a.handle_close_request(true);
    let _ = a.answer_unsaved(UnsavedVerdict::SaveThenContinue);
    assert!(a
        .inject_portal_event(PendingDialog::Save, PortalEvent::Cancelled, 0)
        .is_none());
    assert!(matches!(a.asking.post_save, PostSaveAction::Nothing));
    let _ = a.saved("/o.sgf");
    assert!(!a.asking.exit_requested);
}

#[test]
fn copies_leave_the_record_alone() {
    let mut a = opened();
    a.docs.go_to(1);
    a.create_copy();
    assert_eq!(
        last_notice(&a),
        "已创建研究副本 1（自第 1 手起），原谱保持不变；当前在研究副本 1 中。"
    );
    assert_eq!(a.docs.copy_count(), 1);
    assert!(a.human_move(at(4, 4)).is_ok());
    assert_eq!(a.docs.research_moves(), 1);
    assert_eq!(a.docs.doc_research(1), Some(1));
    let entries = a.docs.doc_entries();
    assert_eq!(entries.len(), 2);
    assert!(entries.iter().any(|e| e.number == 1 && e.active && e.research == 1));
    a.switch_to_original();
    assert_eq!(a.board().line_len(), 3);
    assert_eq!(a.docs.active.number, 0);
    a.switch_doc(1);
    assert_eq!(a.board().line_len(), 2);
    a.switch_doc(7);
    assert_eq!(a.docs.active.number, 1);
}

#[test]
fn tried_moves_are_asked_about() {
    let mut a = opened();
    a.docs.go_to(1);
    a.create_copy();
    assert!(a.human_move(at(4, 4)).is_ok());
    a.ask_drop_copy(1);
    assert!(matches!(a.asking.copies, PendingConfirm::DropCopy { number: 1 }));
    assert_eq!(
        a.copies_question(),
        Some("丢弃该研究副本后，1 份研究副本将被丢弃，其中 1 手研究成果无法恢复。继续吗？".to_string())
    );
    a.keep_copies();
    assert_eq!(a.docs.copy_count(), 1);
    a.ask_drop_copy(1);
    let _ = a.lose_copies();
    assert_eq!(a.docs.copy_count(), 0);
    assert_eq!(last_notice(&a), "研究副本 1 已丢弃。");
    assert_eq!(a.docs.active.number, 0);
}

#[test]
fn opening_loses_copies_only_when_agreed() {
    let mut a = opened();
    a.create_copy();
    a.docs.pass();
    assert!(a.open_file_dialog().is_none());
    assert!(matches!(a.asking.copies, PendingConfirm::LoadGame));
    a.docs.dirty = false;
    let (next, effect) = a.lose_copies();
    assert_eq!(next, Next::Dialog);
    assert!(matches!(effect, Some(Effect::OpenDialog { .. })));
    assert!(a.load_game_from_bytes("/b.sgf", GAME));
    assert_eq!(a.docs.copy_count(), 0);
    assert!(last_notice(&a).contains("（研究副本连同 1 手研究成果已丢弃。）"));
}

#[test]
fn a_copy_without_moves_is_dropped_at_once() {
    let mut a = opened();
    a.create_copy();
    a.ask_drop_copy(1);
    assert_eq!(a.docs.copy_count(), 0);
}

#[test]
fn a_game_against_the_engine() {
    let mut a = playing(Stone::Black, TimeSystem::Unlimited);
    assert_eq!(
        last_notice(&a),
        "新对局已开始：9路，你执黑，难度简单（100 visits），时限无限制。"
    );
    assert_eq!(a.engine_cfg.play_difficulty, Difficulty::Easy);
    assert_eq!(a.game_rules(), Some("korean".to_string()));
    assert_eq!(a.table.komi, "5.5");
    assert!(!a.run_clocks(0).want_move);
    assert!(a.human_move(at(4, 4)).is_ok());
    let plan = a.run_clocks(1);
    assert!(plan.want_move && plan.budget.is_none());
    assert_eq!(plan.komi, "5.5");
    let s = Snapshot { turn: 1, is_final: true, moves: vec![Some(at(2, 2))] };
    assert!(!a.engine_turn(Some(&s), SECOND, true));
    assert_eq!(a.board().move_count(), 2);
    assert_eq!(a.board().to_play(), Stone::Black);
    assert_eq!(a.table.play.clock.total(Stone::White), SECOND);
    assert_eq!(a.human_move(at(2, 2)), Err(IllegalReason::Occupied));
    assert_eq!(a.marks.notice, Some(IllegalReason::Occupied));
}

#[test]
fn resigning_ends_the_game() {
    let mut a = playing(Stone::Black, TimeSystem::Unlimited);
    assert!(a.human_move(at(4, 4)).is_ok());
    a.human_resign();
    assert!(a.finished());
    assert_eq!(
        a.docs.active.meta.as_ref().unwrap().info().result,
        Some("W+R".to_string())
    );
    assert!(last_notice(&a).contains("认输"));
    assert!(a.document_text(None).contains("RE[W+R]"));
    let mut b = playing(Stone::Black, TimeSystem::Unlimited);
    b.engine_resign();
    assert_eq!(
        b.docs.active.meta.as_ref().unwrap().info().result,
        Some("B+R".to_string())
    );
}

#[test]
fn time_runs_out() {
    let mut a = playing(Stone::Black, TimeSystem::Absolute { seconds: Seconds::whole(2) });
    let _ = a.run_clocks(0);
    assert_eq!(a.table.play.clock.side(Stone::Black).main, Some((2 * SECOND) as u128));
    let _ = a.run_clocks(SECOND);
    assert_eq!(a.table.play.clock.side(Stone::Black).main, Some(SECOND as u128));
    let _ = a.run_clocks(3 * SECOND);
    assert_eq!(a.table.play.timeout_loss, Some(Stone::Black));
    assert_eq!(
        a.docs.active.meta.as_ref().unwrap().info().result,
        Some("W+T".to_string())
    );
    assert!(last_notice(&a).contains("超时"));
}

#[test]
fn the_engine_has_a_budget() {
    let mut a = playing(Stone::White, TimeSystem::Absolute { seconds: Seconds::whole(10) });
    let plan = a.run_clocks(0);
    assert!(plan.want_move);
    let b = plan.budget.unwrap();
    assert_eq!((b.max_time, b.remaining), (9_200_000_000, Some((10 * SECOND) as u128)));
}

#[test]
fn two_passes_and_a_verdict() {
    let mut a = playing(Stone::Black, TimeSystem::Unlimited);
    assert!(!a.human_pass());
    let s = Snapshot { turn: 1, is_final: true, moves: vec![None] };
    assert!(a.engine_turn(Some(&s), 0, true));
    assert!(a.finish_two_passes(None));
    let result = |a: &GuanqiApp| a.docs.active.meta.as_ref().unwrap().info().result.clone();
    assert_eq!(result(&a), Some("?".to_string()));
    let eval = |visits| TerminalEval {
        visits,
        result: "B+3.5".to_string(),
        block: "block".to_string(),
    };
    a.refresh_terminal_result(Some(eval(1000)));
    assert_eq!(result(&a), Some("B+3.5".to_string()));
    assert!(a.document_text(None).contains("C[【观棋终局】block【/观棋终局】]"));
    assert!(a.document_text(Some("n")).contains(
        "C[【观棋终局】block【/观棋终局】\n【观棋统计】n【/观棋统计】]"
    ));
    let mut b = playing(Stone::Black, TimeSystem::Unlimited);
    b.docs.pass();
    b.docs.pass();
    assert!(!b.finish_two_passes(Some(eval(800))));
    assert_eq!(
        last_notice(&b),
        "对局结束：双方连续弃着。终局判定（引擎）：黑胜，B+3.5 · 按规则「韩国」评估（800 visits），非点目结果。"
    );
}

#[test]
fn leaving_a_game_gives_no_result() {
    let mut a = playing(Stone::Black, TimeSystem::Unlimited);
    a.create_copy();
    assert!(!a.table.play.mode);
    assert_eq!(a.docs.active.meta.as_ref().unwrap().info().result, None);
}

#[test]
fn following_the_engine() {
    let mut a = opened();
    a.docs.go_to(1);
    let line = vec![Some(at(6, 6)), Some(at(2, 6)), Some(at(8, 8))];
    a.handle_advance_pv(&line);
    assert_eq!(a.board().nodes().len(), 4);
    assert_eq!(a.board().cursor(), 3);
    assert!(!a.is_dirty());
}

#[test]
fn hidden_candidates() {
    let mut a = opened();
    a.reveal_candidates();
    assert!(!a.marks.revealed);
    assert!(a.candidates_visible(0));
    a.set_gating(CandidateGating::Delayed { secs: 3 });
    assert!(!a.candidates_visible(2) && a.candidates_visible(3));
    a.set_gating(CandidateGating::Manual);
    assert!(!a.candidates_visible(100));
    a.reveal_candidates();
    assert!(a.marks.revealed && a.candidates_visible(0));
    a.check_reveal();
    assert!(a.marks.revealed);
    a.docs.go_to(0);
    a.docs.go_to(2);
    a.check_reveal();
    assert!(!a.marks.revealed);
    assert_eq!(gating_hint(CandidateGating::Manual), "按 F 显示候选；局面一变需重新按键");
    assert_eq!(a.gating_choices().len(), 3);
}

#[test]
fn what_the_panel_asks_for() {
    let mut a = opened();
    assert!(matches!(a.on_panel_action(PanelAction::RetryEngine), PanelEffect::StartEngine));
    assert!(matches!(
        a.on_panel_action(PanelAction::SetRegion(true)),
        PanelEffect::Region(true)
    ));
    match a.on_panel_action(PanelAction::StartBatch) {
        PanelEffect::StartBatch { komi, rules } => {
            assert_eq!(komi, "6.5");
            assert_eq!(rules, Some("Japanese".to_string()));
        }
        _ => panic!("no scan"),
    }
    assert!(matches!(
        a.on_panel_action(PanelAction::SetDifficulty(Difficulty::Max)),
        PanelEffect::SaveSettings
    ));
    assert!(matches!(
        a.on_panel_action(PanelAction::SetDifficulty(Difficulty::Max)),
        PanelEffect::Nothing
    ));
    let _ = a.on_panel_action(PanelAction::Focus { at: at(1, 1) });
    assert_eq!(a.marks.focus, Some(at(1, 1)));
    let _ = a.on_panel_action(PanelAction::Focus { at: at(1, 1) });
    assert_eq!(a.marks.focus, None);
    let _ = a.on_panel_action(PanelAction::GotoTurn(2));
    assert_eq!(a.board().cursor(), 2);
    let _ = a.on_panel_action(PanelAction::CreateCopy);
    assert_eq!(a.docs.active.number, 1);
    let _ = a.on_panel_action(PanelAction::SwitchDoc(0));
    assert_eq!(a.docs.active.number, 0);
    let _ = a.on_panel_action(PanelAction::DropCopy(1));
    assert_eq!(a.docs.copy_count(), 0);
    let _ = a.on_panel_action(PanelAction::OpenNewGame);
    assert!(a.panels.new_game_open);
    assert!(matches!(a.on_panel_action(PanelAction::SaveGame), PanelEffect::Dialog(_)));
}

#[test]
fn menus() {
    let mut a = fresh();
    assert_eq!(a.file_menu().copy_reason, Some("未载入棋谱，无谱可复制"));
    assert!(!a.play_menu(true).playable);
    assert!(a.load_game_from_bytes("/a.sgf", GAME));
    assert_eq!(a.file_menu().copy_reason, None);
    assert_eq!(a.file_menu().drop_reason, Some("当前是原谱，没有副本可丢弃"));
    let mut g = playing(Stone::Black, TimeSystem::Unlimited);
    let m = g.play_menu(false);
    assert!(m.playable && m.in_game && m.idle_reason.is_none());
    assert_eq!(
        m.engine_reason,
        Some("引擎尚未认定自己无望（胜率 ≤ 5% 时才会出现该入口）")
    );
    assert_eq!(m.time, "无限制");
    assert_eq!(
        g.tell_hopeless(true, "4%"),
        Some("引擎认为白方已无望（胜率 4%）。可点「让引擎认输」判它中盘负，或继续对局。".to_string())
    );
    assert_eq!(g.tell_hopeless(true, "4%"), None);
    assert_eq!(limits_menu(false, 0).all_reason, Some("没有区域也没有排除项"));
    assert_eq!(limits_menu(true, 0).all_reason, None);
    assert_eq!(limits_menu(true, 0).avoid_reason, Some("排除列表是空的"));
}

#[test]
fn names_of_files() {
    assert_eq!(file_name("/a/b.sgf"), Some("b.sgf".to_string()));
    assert_eq!(file_name("/"), None);
    assert_eq!(dir_of("/a/b.sgf"), Some("/a".to_string()));
    assert_eq!(default_sgf_name("/a/b.sgf"), "b.sgf");
    assert_eq!(default_sgf_name("/"), "guanqi.sgf");
    assert_eq!(copy_name("b.sgf", 2), "b-副本2.sgf");
    assert_eq!(copy_name("b", 2), "研究副本2.sgf");
    assert_eq!(result_letter(Stone::White), "W");
    assert_eq!(
        time_meta_text(TimeSystem::Byoyomi {
            main_seconds: Seconds::whole(600),
            period_seconds: Seconds::whole(30),
            periods: 3
        }),
        (Some("10 分钟".to_string()), Some("3 次 × 30 秒读秒".to_string()))
    );
    assert_eq!(time_meta_text(TimeSystem::Unlimited), (None, None));
}

#[test]
fn the_feed_keeps_the_newest() {
    let mut f = NoticeFeed::new(2);
    for s in ["a", "b", "c"] {
        f.push(LoadNotice::Done(s.to_string()));
    }
    assert_eq!(f.texts(), vec!["b", "c"]);
    let n = with_warning(&LoadNotice::Done("a".to_string()), "b");
    assert!(matches!(&n, LoadNotice::Warn(_)));
    assert!(n.text().starts_with("a") && n.text().ends_with("b"));
}

#[test]
fn panels_survive() {
    let mut prefs = UiPrefs::default();
    let mut p = Panels::from_prefs(&prefs);
    p.overlay.show_heat = false;
    p.curve_open = false;
    p.gating = CandidateGating::Delayed { secs: 7 };
    assert!(p.sync_prefs(&mut prefs));
    assert!(!p.sync_prefs(&mut prefs));
    assert_eq!(Panels::from_prefs(&prefs), p);
    assert_eq!(prefs.gating_delay_secs, 7);
    assert!(!p.toggles().show_heat);
}

#[test]
fn when_preferences_are_written() {
    let s = prefs_step(None, 100, 700);
    assert!(!s.save && s.wait == 700);
    let s = prefs_step(Some(100), 600, 700);
    assert!(!s.save);
    assert_eq!(s.since, Some(100));
    let s = prefs_step(Some(100), 1600, 700);
    assert!(s.save);
    assert_eq!(s.since, None);
    assert_eq!(repaint_after(true, false), 500);
    assert_eq!(repaint_after(false, false), 700);
    let mut a = opened();
    a.panels.curve_open = !a.panels.curve_open;
    a.sync_prefs_and_track(10);
    assert_eq!(a.prefs_dirty_since, Some(10));
    assert!(!a.settle_prefs(20, false).0);
    assert!(a.settle_prefs(2000, false).0);
    assert!(!a.settle_prefs(4000, false).0);
}

#[test]
fn the_window_is_remembered() {
    let mut a = opened();
    let g = |w: &str| WindowGeometry {
        width: w.to_string(),
        height: "800".to_string(),
        position: Some(("1".to_string(), "2".to_string())),
    };
    a.track_geometry(g("1200"), 5);
    assert_eq!(a.prefs_dirty_since, Some(5));
    assert_eq!(a.engine_cfg.ui_prefs.window_geometry.as_ref().unwrap().width, "1200");
    a.prefs_dirty_since = None;
    a.track_geometry(g("1200"), 9);
    assert_eq!(a.prefs_dirty_since, None);
    a.track_geometry(g("1201"), 12);
    assert_eq!(a.prefs_dirty_since, Some(12));
}

#[test]
fn the_engine_starts_again() {
    let mut a = GuanqiApp::new_with_prefs(config(), Some("x".to_string()), vec![], None, 8);
    a.settings_saved(Some("no".to_string()));
    a.engine_restarting(None);
    assert_eq!(a.startup_notice, None);
    assert_eq!(a.persist_notice, Some("no".to_string()));
    a.engine_restarting(Some("cfg".to_string()));
    assert_eq!(a.persist_notice, Some("cfg".to_string()));
    a.settings_saved(None);
    assert_eq!(a.persist_notice, None);
}

#[test]
fn a_snapshot_of_everything() {
    let a = opened();
    let mut f = facts();
    f.reads = Some(EngineReads {
        turn: 3,
        is_final: true,
        visits: 50,
        winrate: "0.5".to_string(),
        score_lead: "-1.25".to_string(),
    });
    f.batch = Some(BatchProgress { deepening: false, done: 1, total: 4, elapsed: 2_500_000_000 });
    f.transient_error = Some("a\"b".to_string());
    let s = a.state_snapshot(f, vec!["Close".to_string()]);
    assert_eq!(s.size, 9);
    assert_eq!(s.line_len, 3);
    assert_eq!(s.human, "B");
    let j = s.to_json();
    assert!(j.starts_with("{\"batch_progress\":{\"deepening\":false,\"done\":1,\"elapsed_secs\":2.5,\"total\":4}"));
    assert!(j.contains("\"engine_reads\":{\"is_final\":true,\"score_lead\":-1.25,\"turn\":3,\"visits\":50,\"winrate\":0.5}"));
    assert!(j.contains("\"engine_status\":\"ready\""));
    assert!(j.contains("\"transient_error\":\"a\\\"b\""));
    assert!(j.contains("\"source\":\"/games/a.sgf\""));
    assert!(j.ends_with("\"viewport_commands\":[\"Close\"]}"));
    assert!(serde_json::from_str::<serde_json::Value>(&j).is_ok());
}
