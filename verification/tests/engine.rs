//! The analysis engine: settings, requests, replies, and what is known of a running one.

use guanqi::board::{Action, Coord, Size, Stone};
use guanqi::engine::analysis_cfg::{
    default_analysis_cfg_text, join_lines, split_lines, updated_cfg_text, COMMENT_FIRST,
    COMMENT_SECOND, COMMENT_THIRD, LEGACY_FIRST, LEGACY_SECOND,
};
use guanqi::engine::config::{resolve_rules, rules_in, Difficulty, Rules};
use guanqi::engine::files::{
    config_dir, default_analysis_cfg_path, default_weights_dir, effective_analysis_cfg,
    fallback_engine_path, join_path, katago_candidates, log_dir, network_steps,
    pick_newest_weights, scan_weights, settings_path,
};
use guanqi::engine::protocol::{AnalysisQuery, ControlRequest, MoveRules, QueryId};
use guanqi::engine::report::{parse_line, Incoming};
use guanqi::engine::session::{
    engine_args, is_ready_line, model_to_run, query_timeout_secs, Engine, EngineError,
    EngineEvent,
};
use guanqi::engine::settings::{
    load_settings, notice_text, read_seconds, unclear_text, unreadable_text, BatchSide, CandidateGating, DisplayView,
    EngineConfig, UiPrefs,
};
use guanqi::play::timer::{Seconds, TimeSystem};

fn nine() -> Size {
    Size::new(9).unwrap()
}

fn base() -> EngineConfig {
    EngineConfig::found("/usr/bin/katago".to_string(), None, "/w".to_string(), 6)
}

fn query() -> AnalysisQuery {
    let at = Coord::new(nine(), 2, 6).unwrap();
    AnalysisQuery::new(nine(), vec![(Stone::Black, Action::Place(at)), (Stone::White, Action::Pass)])
}

fn sent(e: &mut Engine, visits: Option<u32>, now: u64) -> (QueryId, String) {
    let mut q = query();
    q.max_visits = visits;
    e.analyze(&q, now)
}

#[test]
fn difficulties() {
    let all = Difficulty::all();
    assert_eq!(all.len(), 5);
    let visits: Vec<u32> = all.iter().map(|d| d.visits()).collect();
    assert_eq!(visits, vec![30, 100, 300, 800, 2000]);
    let secs: Vec<u32> = all.iter().map(|d| d.estimate_secs()).collect();
    assert_eq!(secs, vec![1, 2, 5, 14, 34]);
    assert_eq!(Difficulty::default(), Difficulty::Medium);
    assert_eq!(Difficulty::Strong.name(), "较强");
    assert_eq!(Difficulty::Strong.key(), "Strong");
}

#[test]
fn rules_by_name() {
    for r in Rules::all() {
        assert_eq!(Rules::from_wire(r.wire()), Some(r));
        assert_eq!(Rules::from_wire(r.key()), Some(r));
    }
    assert_eq!(Rules::from_wire(" New_Zealand "), Some(Rules::NewZealand));
    assert_eq!(Rules::from_wire("other"), None);
    assert_eq!(Rules::rules_name("japanese"), "日本");
    assert_eq!(Rules::rules_name("other"), "other");
    assert_eq!(rules_in("japanese rules"), Some(Rules::Japanese));
    assert_eq!(rules_in("中国规则"), Some(Rules::Chinese));
    assert_eq!(rules_in("?"), None);
}

#[test]
fn which_rules_apply() {
    assert_eq!(resolve_rules(Some("korean"), Some("Japanese")).rules, "korean");
    let r = resolve_rules(None, Some(" JAPANESE "));
    assert_eq!((r.rules.as_str(), r.notice), ("japanese", None));
    let r = resolve_rules(None, Some("XYZ"));
    assert_eq!(r.rules, "chinese");
    assert_eq!(r.notice, Some("未识别的规则串「XYZ」，已按 中国规则 分析。".to_string()));
    let r = resolve_rules(None, None);
    assert_eq!((r.rules.as_str(), r.notice), ("chinese", None));
}

#[test]
fn where_files_are() {
    assert_eq!(config_dir(Some("/c"), Some("/h")), "/c/guanqi");
    assert_eq!(config_dir(Some(""), Some("/h")), "/h/.config/guanqi");
    assert_eq!(config_dir(None, None), "./.config/guanqi");
    assert_eq!(settings_path("/c"), "/c/settings.json");
    assert_eq!(default_analysis_cfg_path("/c"), "/c/analysis.cfg");
    assert_eq!(effective_analysis_cfg(Some("/x.cfg"), "/c"), "/x.cfg");
    assert_eq!(effective_analysis_cfg(None, "/c"), "/c/analysis.cfg");
    assert_eq!(default_weights_dir(Some("/h")), "/h/.local/share/katago");
    assert_eq!(log_dir(Some("/h")), "/h/.local/state/guanqi/katago");
    assert_eq!(fallback_engine_path(), "/usr/bin/katago");
    assert_eq!(join_path("/a/", "b"), "/a/b");
    assert_eq!(join_path("/a", "b"), "/a/b");
    assert_eq!(katago_candidates("/a:/b"), vec!["/a/katago", "/b/katago"]);
}

#[test]
fn the_newest_network() {
    assert_eq!(network_steps("kata1-b18-s9996604416-d4.bin.gz"), Some(9996604416));
    assert_eq!(network_steps("plain.bin.gz"), None);
    let files: Vec<String> = ["a-s10-d1.bin.gz", "notes.txt", "b-s9-d1.bin.gz", "c.bin.gz"]
        .iter()
        .map(|s| s.to_string())
        .collect();
    let found = scan_weights(&files);
    assert_eq!(found.len(), 3);
    assert!(!found.contains(&"notes.txt".to_string()));
    assert_eq!(pick_newest_weights(&found), Some("a-s10-d1.bin.gz".to_string()));
    assert_eq!(pick_newest_weights(&vec![]), None);
}

#[test]
fn a_new_engine_config() {
    let t = default_analysis_cfg_text(300, 8, "/log");
    assert!(t.contains("maxVisits = 300\n"));
    assert!(t.contains("numSearchThreads = 8\n"));
    assert!(t.contains("nnMaxBatchSize = 16"));
    assert!(t.contains("logDir = /log\n"));
    assert!(default_analysis_cfg_text(1, 0, "x").contains("numSearchThreads = 1\n"));
    assert!(default_analysis_cfg_text(1, 100, "x").contains("nnMaxBatchSize = 64"));
    assert_eq!(updated_cfg_text(&t, 8), None);
}

#[test]
fn an_older_engine_config() {
    let old = format!("a = 1\n{}\n{}\nnumSearchThreads = 4\n", LEGACY_FIRST, LEGACY_SECOND);
    let new = updated_cfg_text(&old, 8).unwrap();
    assert_eq!(
        new,
        format!(
            "a = 1\n{}\n{}\n{}\nnumSearchThreads = 8\n",
            COMMENT_FIRST, COMMENT_SECOND, COMMENT_THIRD
        )
    );
    assert_eq!(updated_cfg_text(&new, 8), None);
    assert_eq!(split_lines("a\r\nb").len(), 2);
    assert_eq!(join_lines(&split_lines("a\nb\n")), "a\nb\n");
}

#[test]
fn a_query_is_written() {
    let mut q = query();
    q.rules = "a\"b".to_string();
    assert_eq!(
        q.debug_encode(),
        "{\"id\":\"0\",\"moves\":[[\"B\",\"C3\"],[\"W\",\"pass\"]],\"rules\":\"a\\\"b\",\
         \"komi\":7.5,\"boardXSize\":9,\"boardYSize\":9}"
    );
    q.rules = "\u{1}\n\u{1f}\u{7f}棋/\\".to_string();
    assert!(q.debug_encode().contains(
        "\"rules\":\"\\u0001\\n\\u001f\u{7f}棋/\\\\\","
    ));
    q.max_visits = Some(50);
    q.include_ownership = true;
    q.priority = -3;
    q.analyze_turns = Some(vec![0, 2]);
    q.move_rules = Some(MoveRules::avoid(Stone::Black, vec!["C3".to_string()]));
    let s = q.debug_encode();
    assert!(s.contains(",\"maxVisits\":50"));
    assert!(s.contains(",\"includeOwnership\":true"));
    assert!(s.contains(",\"priority\":-3"));
    assert!(s.contains(",\"analyzeTurns\":[0,2]"));
    assert!(s.contains(",\"avoidMoves\":[{"));
    q.move_rules = Some(MoveRules::allow(Stone::White, vec!["C3".to_string()]));
    assert!(q.debug_encode().contains(",\"allowMoves\":[{"));
}

#[test]
fn requests_without_a_position() {
    let mut e = Engine::new();
    let (a, line) = sent(&mut e, None, 0);
    assert!(line.starts_with("{\"id\":\"1\""));
    assert_eq!(a.display(), "#1");
    assert_eq!(
        ControlRequest::QueryVersion.encode(a),
        "{\"action\":\"query_version\",\"id\":\"1\"}"
    );
    assert_eq!(e.terminate(a), "{\"action\":\"terminate\",\"id\":\"2\",\"terminateId\":\"1\"}");
    assert_eq!(e.terminate_all(), "{\"action\":\"terminate_all\",\"id\":\"3\"}");
}

#[test]
fn a_report_is_read() {
    let line = "{\"id\":\"1\",\"turnNumber\":2,\"isDuringSearch\":false,\
                \"moveInfos\":[{\"move\":\"C3\",\"order\":0,\"visits\":10,\"winrate\":0.5,\
                \"pv\":[\"C3\",\"pass\"]}],\"rootInfo\":{\"currentPlayer\":\"W\",\"visits\":10,\
                \"winrate\":0.25,\"scoreLead\":-1.5}}";
    match parse_line(line).unwrap() {
        Incoming::Report { id, report } => {
            assert_eq!(id.unwrap().display(), "#1");
            assert!(report.is_final());
            let r = report.decode(nine());
            assert_eq!(r.turn_number, 2);
            assert_eq!(r.move_infos.len(), 1);
            let m = &r.move_infos[0];
            assert_eq!(m.mv, Some(Coord::new(nine(), 2, 6).unwrap()));
            assert_eq!(m.pv, vec![Some(Coord::new(nine(), 2, 6).unwrap()), None]);
            assert_eq!(m.winrate, "0.5");
            let root = r.root_info.unwrap();
            assert_eq!(root.current_player, Stone::White);
            assert_eq!(root.score_lead, "-1.5");
        }
        _ => panic!("no report"),
    }
}

#[test]
fn other_lines_are_read() {
    assert!(matches!(
        parse_line("{\"error\":\"bad\",\"id\":\"4\"}").unwrap(),
        Incoming::Error { id: Some(_), message, field: None } if message == "bad"
    ));
    assert!(matches!(
        parse_line("{\"warning\":\"w\",\"field\":\"f\"}").unwrap(),
        Incoming::Warning { id: None, field: Some(_), message } if message == "w"
    ));
    assert!(matches!(
        parse_line("{\"action\":\"terminate\",\"terminateId\":\"4\",\"id\":\"5\"}").unwrap(),
        Incoming::TerminateEcho { terminate_id: Some(t), .. } if t == "4"
    ));
    assert!(matches!(
        parse_line("{\"action\":\"query_version\",\"version\":\"1.15\",\"id\":\"5\"}").unwrap(),
        Incoming::Version { version, .. } if version == "1.15"
    ));
    let e = parse_line("not json").err().unwrap();
    assert!(e.starts_with("无法解析引擎输出行：") && e.ends_with("; 原文: not json"));
    let e = parse_line("{\"id\":5}").err().unwrap();
    assert_eq!(e, "无法解析引擎输出行：字段类型不符; 原文: {\"id\":5}");
}

#[test]
fn reports_find_their_query() {
    let mut e = Engine::new();
    let (id, _) = sent(&mut e, Some(100), 0);
    let part = "{\"id\":\"1\",\"turnNumber\":2,\"isDuringSearch\":true,\"moveInfos\":[]}";
    match e.handle_incoming(parse_line(part).unwrap()) {
        EngineEvent::Report { id: got, is_final, .. } => {
            assert_eq!(got, id);
            assert!(!is_final);
        }
        _ => panic!("no report"),
    }
    let end = "{\"id\":\"1\",\"turnNumber\":2,\"isDuringSearch\":false,\"moveInfos\":[]}";
    assert!(matches!(
        e.handle_incoming(parse_line(end).unwrap()),
        EngineEvent::Report { is_final: true, .. }
    ));
    assert!(e.poll(10_000_000).is_some());
    let mut f = Engine::new();
    let nobody = "{\"turnNumber\":2,\"isDuringSearch\":false,\"moveInfos\":[]}";
    assert!(matches!(
        f.handle_incoming(parse_line(nobody).unwrap()),
        EngineEvent::Log(s) if s == "收到无 id 的报告，已忽略"
    ));
}

#[test]
fn a_warning_fails_nothing() {
    let mut e = Engine::new();
    e.on_ready();
    let (first, _) = sent(&mut e, Some(100), 0);
    let (second, _) = sent(&mut e, Some(100), 0);
    let line = "{\"warning\":\"odd field\",\"field\":\"f\",\"id\":\"1\"}";
    assert!(matches!(
        e.handle_incoming(parse_line(line).unwrap()),
        EngineEvent::Warning { id: Some(_), field: Some(_), .. }
    ));
    let end = "{\"id\":\"2\",\"turnNumber\":2,\"isDuringSearch\":false,\"moveInfos\":[]}";
    assert!(matches!(
        e.handle_incoming(parse_line(end).unwrap()),
        EngineEvent::Report { id, is_final: true, .. } if id == second
    ));
    assert!(matches!(
        e.poll(31_000),
        Some((EngineError::QueryTimeout { id, elapsed: 31 }, _)) if id == first
    ));
    assert!(e.poll(u64::MAX).is_none());
    let (gone, _) = sent(&mut e, Some(100), 0);
    e.write_failed(gone);
    assert!(e.poll(u64::MAX).is_none());
}

#[test]
fn a_refused_query() {
    let mut e = Engine::new();
    let (id, _) = sent(&mut e, Some(100), 0);
    let line = "{\"error\":\"Could not parse rules\",\"id\":\"1\"}";
    match e.handle_incoming(parse_line(line).unwrap()) {
        EngineEvent::Failed(EngineError::QueryRejected { id: got, message }) => {
            assert_eq!(got, Some(id));
            assert_eq!(
                message,
                "查询被拒绝（规则串问题，请检查规则设置）：Could not parse rules"
            );
        }
        _ => panic!("no refusal"),
    }
    e.on_ready();
    assert!(e.poll(10_000_000).is_none());
}

#[test]
fn slow_queries_are_ended() {
    let mut e = Engine::new();
    assert!(matches!(e.poll(90_000), Some((EngineError::StartupTimeout(90), None))));
    assert!(e.poll(90_001).is_none());
    assert!(matches!(e.on_ready(), EngineEvent::Ready));
    let (id, _) = sent(&mut e, Some(3000), 1_000);
    assert!(e.poll(115_999).is_none());
    match e.poll(117_000) {
        Some((EngineError::QueryTimeout { id: got, elapsed }, Some(line))) => {
            assert_eq!(got, id);
            assert_eq!(elapsed, 116);
            assert!(line.contains("\"terminateId\":\"1\""));
        }
        _ => panic!("no timeout"),
    }
    assert!(e.poll(u64::MAX).is_none());
}

#[test]
fn how_long_a_query_may_take() {
    assert_eq!(query_timeout_secs(1), 30);
    assert_eq!(query_timeout_secs(450), 30);
    assert_eq!(query_timeout_secs(900), 45);
    assert_eq!(query_timeout_secs(1_000_000), 600);
    assert_eq!(query_timeout_secs(u32::MAX), 30);
}

#[test]
fn an_engine_that_ends() {
    let mut e = Engine::new();
    for i in 0..10u32 {
        assert!(matches!(e.on_stderr(format!("line {}", i)), EngineEvent::Log(_)));
    }
    let tail = e.on_exit().unwrap();
    assert_eq!(tail.len(), 8);
    assert_eq!(tail[0], "line 2");
    assert_eq!(tail[7], "line 9");
    assert!(e.on_exit().is_none());
    assert!(is_ready_line("x Started, ready to begin handling requests"));
    assert!(!is_ready_line("Started"));
}

#[test]
fn starting_an_engine() {
    assert!(matches!(model_to_run(None, true), Err(EngineError::ModelNotConfigured)));
    assert!(matches!(
        model_to_run(Some("/m"), false),
        Err(EngineError::ModelMissing(p)) if p == "/m"
    ));
    assert_eq!(model_to_run(Some("/m"), true).unwrap(), "/m");
    assert_eq!(engine_args("/c", "/m"), vec!["analysis", "-config", "/c", "-model", "/m"]);
}

#[test]
fn engine_errors_have_their_words() {
    let m = |s: &str| s.to_string();
    assert_eq!(EngineError::EngineNotFound(m("/e")).message(), "引擎可执行文件不存在：/e");
    assert_eq!(EngineError::SpawnFailed(m("e")).message(), "启动引擎进程失败：e");
    assert_eq!(EngineError::StdinWrite(m("e")).message(), "向引擎写入查询失败：e");
    assert_eq!(EngineError::ProcessGone.message(), "引擎进程已退出");
    assert_eq!(
        EngineError::ModelNotConfigured.message(),
        "尚未配置权重文件，请在设置中选择一个网络权重"
    );
    assert_eq!(
        EngineError::ModelMissing(m("/m")).message(),
        "权重文件不存在：/m（可能已被移动或删除，请到设置中重新选择）"
    );
    assert_eq!(EngineError::Config(m("c")).message(), "引擎配置问题：c");
    assert_eq!(
        EngineError::StartupTimeout(90).message(),
        "引擎在 90s 内未就绪，可能已卡死（如 OpenCL 调优异常）"
    );
    let mut e = Engine::new();
    let (id, _) = sent(&mut e, None, 0);
    assert_eq!(
        EngineError::QueryTimeout { id, elapsed: 31 }.message(),
        "查询 #1 超时（31s 无终态）"
    );
    assert_eq!(
        EngineError::QueryRejected { id: Some(id), message: m("no") }.message(),
        "查询 #1 被拒绝：no"
    );
    assert_eq!(
        EngineError::QueryRejected { id: None, message: m("no") }.message(),
        "请求被拒绝：no"
    );
    assert_eq!(EngineError::Protocol(m("p")).message(), "协议异常：p");
}

fn refused(line: &str) -> bool {
    match parse_line(line) {
        Ok(_) => false,
        Err(e) => e == format!("无法解析引擎输出行：字段类型不符; 原文: {line}"),
    }
}

#[test]
fn a_known_field_stands_in_a_line_once() {
    assert!(refused("{\"id\":\"1\",\"id\":\"1\"}"));
    assert!(refused("{\"id\":null,\"turnNumber\":2,\"\\u0069d\":\"1\"}"));
    assert!(refused("{\"id\":\"1\",\"policy\":[],\"policy\":null}"));
    assert!(refused("{\"id\":\"1\",\"rootInfo\":{\"visits\":1,\"visits\":1}}"));
    assert!(refused("{\"id\":\"1\",\"moveInfos\":[{},{\"move\":\"C3\",\"move\":\"C3\"}]}"));
    let twice = "{\"id\":\"1\",\"x\":1,\"x\":2,\"rootInfo\":{\"id\":1,\"id\":2},\
                 \"y\":{\"id\":1,\"id\":2}}";
    assert!(matches!(parse_line(twice), Ok(Incoming::Report { id: Some(_), .. })));
}

#[test]
fn an_unknown_field_may_hold_any_json() {
    let deep = format!("{{\"id\":\"7\",\"x\":{}{}}}", "[".repeat(300), "]".repeat(300));
    assert!(matches!(parse_line(&deep), Ok(Incoming::Report { id: Some(_), .. })));
    for value in ["1e999", "\"\\ud800\"", "\"],}\\\\\"", "{\"a\":[1,{\"b\":\"]\"}]}", "[ ]"] {
        let line = format!("{{ \"x\" : {value} , \"id\" : \"7\" }} ");
        match parse_line(&line) {
            Ok(Incoming::Report { id, .. }) => assert_eq!(id.unwrap().display(), "#7"),
            _ => panic!("{line}"),
        }
    }
    assert!(refused("{\"\\ud800\":1,\"id\":\"7\"}"));
    assert!(refused("{\"id\":\"7\",\"rootInfo\":{\"winrate\":1e999}}"));
    assert!(refused("{\"id\":\"7\",\"ownership\":[1,null]}"));
    assert!(!refused("{\"id\":\"7\",\"x\":[}") && parse_line("{\"id\":\"7\",\"x\":[}").is_err());
    assert!(!refused("{\"id\":\"7\"} x") && parse_line("{\"id\":\"7\"} x").is_err());
}

#[test]
fn numbers_of_a_line_are_kept() {
    let line = "{\"id\":\"1\",\"ownership\":[ 0.12345678901234567, -1,\n1e-3 ],\
                \"moveInfos\":[ {\"move\":\"C3\",\"winrate\": 0.50, \"visits\" : 18446744073709551615}]}";
    match parse_line(line).unwrap() {
        Incoming::Report { report, .. } => {
            let list = report.ownership.as_ref().unwrap();
            assert_eq!(list.trim(), "[ 0.12345678901234567, -1,\n1e-3 ]");
            assert_eq!(report.move_infos[0].winrate, "0.5");
            assert_eq!(report.move_infos[0].visits, u64::MAX);
        }
        _ => panic!("no report"),
    }
    assert!(refused("{\"id\":\"1\",\"moveInfos\":[{\"visits\":18446744073709551616}]}"));
    assert!(refused("{\"id\":\"1\",\"moveInfos\":[{\"visits\":1.0}]}"));
}

#[test]
fn a_line_may_be_a_list() {
    match parse_line(" [ \"3\" , null , null ] ").unwrap() {
        Incoming::Report { id, .. } => assert_eq!(id.unwrap().display(), "#3"),
        _ => panic!("no report"),
    }
    assert!(parse_line("[]").is_ok());
    assert!(refused("[null,null,null,null,null,null,null,null,null,null,null,null,null,null,null]"));
    assert!(refused("\"3\""));
}

#[test]
fn the_last_of_a_setting_counts() {
    let (c, n) = load_settings(
        "/s",
        "{\"visits\":1,\"visits\":2,\"time_system\":{\"Absolute\":1,\"Absolute\":{\"seconds\":9,\
         \"seconds\":7}},\"play_difficulty\":{\"Max\":1,\"Max\":null}}",
        base(),
    );
    assert_eq!((c.visits, n), (2, None));
    assert_eq!(c.time_system, TimeSystem::Absolute { seconds: Seconds::whole(7) });
    assert_eq!(c.play_difficulty, Difficulty::Max);
    let (c, n) = load_settings("/s", "{\"time_system\":{\"Absolute\":null,\"Unlimited\":null}}", base());
    assert_eq!(c.time_system, TimeSystem::Unlimited);
    assert!(n.is_some());
    let (_, n) = load_settings("/s", "{\"visits\": {\"b\" : [ 1.50 , 2 ], \"a\":0, \"a\":1} }", base());
    assert!(n.unwrap().contains("「visits」的值 {\"a\":1,\"b\":[1.5,2]} 无法识别"));
    let (_, n) = load_settings("/s", "{\"x\":1e999}", base());
    assert!(n.unwrap().starts_with("/s 无法解析（"));
}

#[test]
fn settings_are_read() {
    let (c, n) = load_settings(
        "/s",
        "{\"visits\":500,\"play_difficulty\":\"Max\",\"new_game_rules\":\"korean\",\
         \"time_system\":{\"Byoyomi\":{\"main_seconds\":1.5,\"period_seconds\":30.0,\"periods\":3}},\
         \"ui_prefs\":{\"show_heat\":false,\"candidate_gating\":\"delayed\",\"gating_delay_secs\":5}}",
        base(),
    );
    assert_eq!(n, None);
    assert_eq!(c.visits, 500);
    assert_eq!(c.search_threads, 6);
    assert_eq!(c.play_difficulty, Difficulty::Max);
    assert_eq!(c.new_game_rules, Rules::Korean);
    assert_eq!(
        c.time_system,
        TimeSystem::Byoyomi {
            main_seconds: Seconds { neg: false, digits: 15, power: -1 },
            period_seconds: Seconds::whole(30),
            periods: 3
        }
    );
    assert!(!c.ui_prefs.show_heat);
    assert!(c.ui_prefs.show_candidates);
    assert_eq!(c.ui_prefs.gating(), Some(CandidateGating::Delayed { secs: 5 }));
}

#[test]
fn settings_that_make_no_sense() {
    let (c, n) = load_settings("/s", "{\"visits\":\"many\",\"rules\":\"aga\"}", base());
    assert_eq!(c.visits, 300);
    assert_eq!(c.rules, Some("aga".to_string()));
    let n = n.unwrap();
    assert!(n.starts_with("settings.json 有 1 处设置值无法识别（其余设置已保留）："));
    assert!(n.contains("「visits」的值 \"many\" 无法识别，已按默认「300」处理"));
    let (c, n) = load_settings("/s", "{", base());
    assert_eq!(c.visits, 300);
    let n = n.unwrap();
    assert!(n.starts_with("/s 无法解析（") && n.ends_with("），已回退默认引擎配置。"));
    let (_, n) = load_settings("/s", "[]", base());
    assert!(n.unwrap().ends_with("文件内容不是设置对象"));
    let (c, n) = load_settings(
        "/s",
        "{\"ui_prefs\":{\"candidate_gating\":\"a\\\"b\"}}",
        base(),
    );
    assert_eq!(c.ui_prefs.candidate_gating, "immediate");
    assert!(n.unwrap().contains("「ui_prefs.candidate_gating」的值 \"a\\\"b\" 无法识别"));
    let (c, n) = load_settings("/s", "{\"visits\":0,\"search_threads\":0}", base());
    assert_eq!((c.visits, c.search_threads, n), (1, 1, None));
    assert_eq!(notice_text(&vec![]), None);
    assert_eq!(
        unclear_text("k", "1", "好"),
        "「k」的值 1 无法识别，好"
    );
    assert_eq!(unreadable_text("/s", "no"), "读取 /s 失败（no），已使用默认引擎配置。");
}

#[test]
fn seconds_in_settings() {
    let of = |s: &str| read_seconds(s).unwrap();
    assert_eq!(of("2"), Seconds::whole(2));
    assert_eq!(of("600.0"), Seconds::whole(600));
    assert_eq!(of("0.25"), Seconds { neg: false, digits: 25, power: -2 });
    assert_eq!(of("-1.5"), Seconds { neg: true, digits: 15, power: -1 });
    assert_eq!(of("1e300"), Seconds { neg: false, digits: 1, power: 300 });
    assert_eq!(of("18446744073709551615"), of("18446744073709552000"));
    assert!(read_seconds("x").is_none());
    assert_eq!(of("1e-5").clock_time(), 10_000);
    assert_eq!(of("1.5e2").clock_time(), 150_000_000_000);
    assert_eq!(of("1e-10").clock_time(), 1);
    assert_eq!(of("1e-10").whole_nanos(), 0);
    assert_eq!(of("1e-300").clock_time(), 1);
    assert_eq!(of("-3").clock_time(), 0);
    assert_eq!(of("1e20").clock_time(), 100_000_000_000_000_000_000_000_000_000);
    assert_eq!(of("1e300").clock_time(), u128::MAX);
}

#[test]
fn preferences() {
    let mut p = UiPrefs::default();
    assert_eq!(p.gating(), Some(CandidateGating::Immediate));
    assert_eq!(p.batch_side(), Some(BatchSide::All));
    assert_eq!(p.display_view(), Some(DisplayView::Black));
    p.batch_side = "white".to_string();
    assert_eq!(p.batch_side(), Some(BatchSide::WhiteOnly));
    p.candidate_gating = "x".to_string();
    assert_eq!(p.gating(), None);
}

#[test]
fn only_the_key_itself_is_kept_in_step() {
    let own = "numSearchThreads = 8\nnumSearchThreadsPerAnalysisThread = 4\n";
    assert_eq!(updated_cfg_text(own, 8), None);
    assert_eq!(
        updated_cfg_text(own, 6),
        Some("numSearchThreads = 6\nnumSearchThreadsPerAnalysisThread = 4\n".to_string())
    );
    assert_eq!(
        updated_cfg_text("numSearchThreadsPerAnalysisThread = 4\n", 6),
        Some("numSearchThreadsPerAnalysisThread = 4\nnumSearchThreads = 6\n".to_string())
    );
    assert_eq!(
        updated_cfg_text("  numSearchThreads=4\n# numSearchThreads = 2\n", 6),
        Some("numSearchThreads = 6\n# numSearchThreads = 2\n".to_string())
    );
}

#[test]
fn a_timeout_is_told_to_the_nearest_second() {
    let mut e = Engine::new();
    e.on_ready();
    let (id, _) = sent(&mut e, Some(100), 0);
    assert!(matches!(
        e.poll(30_600),
        Some((EngineError::QueryTimeout { id: got, elapsed: 31 }, _)) if got == id
    ));
    let (id, _) = sent(&mut e, Some(100), 0);
    assert!(matches!(
        e.poll(30_499),
        Some((EngineError::QueryTimeout { id: got, elapsed: 30 }, _)) if got == id
    ));
}

#[test]
fn a_komi_is_a_number_of_json() {
    let mut q = query();
    for (komi, said) in [
        ("+6.5", "6.5"),
        ("06.5", "6.5"),
        ("6", "6.0"),
        ("6.", "6.0"),
        (".5", "0.5"),
        ("-0.50", "-0.5"),
        ("-0", "-0.0"),
        ("1e16", "1e+16"),
        ("1234e-9", "1.234e-6"),
        ("0.000012", "0.000012"),
        ("9007199254740993", "9007199254740992.0"),
        ("1.8e308", "null"),
        ("nan", "null"),
        ("-inf", "null"),
    ] {
        q.komi = komi.to_string();
        assert!(q.debug_encode().contains(&format!(",\"komi\":{},", said)));
    }
}
