//! Game records: reading, what is kept of them, and writing them back.

use guanqi::board::{Action, Board, Coord, Size, Stone};
use guanqi::sgf::block::{merge_delimited_block, note_block};
use guanqi::sgf::save::SaveError;
use guanqi::sgf::{
    board_to_sgf, load_from_bytes, parse_bytes, parse_str, GameInfo, GameMeta, LoadError,
    LoadedGame, Position, SgfErrorKind,
};

fn load(s: &str) -> LoadedGame {
    load_from_bytes("game.sgf", s.as_bytes()).ok().unwrap()
}

fn kind(s: &str) -> SgfErrorKind {
    parse_str(s).err().unwrap().kind
}

fn info_kind(s: &str) -> SgfErrorKind {
    GameInfo::from_tree(&parse_str(s).ok().unwrap()).err().unwrap().kind
}

fn load_kind(s: &str) -> SgfErrorKind {
    match load_from_bytes("game.sgf", s.as_bytes()).err().unwrap() {
        LoadError::Parse(e) => e.kind,
        LoadError::Setup(_) => panic!("a setup error"),
    }
}

#[test]
fn a_tree_of_nodes() {
    let t = parse_str("(;GM[1]SZ[9];B[aa](;W[bb];B[cc])(;W[dd]))").unwrap();
    assert_eq!(t.nodes.len(), 2);
    assert_eq!(t.children.len(), 2);
    assert_eq!(t.root().unwrap().text("SZ"), Some("9"));
    let line = t.mainline();
    assert_eq!(line.len(), 4);
    assert_eq!(line[3].text("B"), Some("cc"));
}

#[test]
fn values_and_escapes() {
    let t = parse_str("(;C[a\\]b\\\\c\\\nd])").unwrap();
    assert_eq!(t.nodes[0].comment(), Some("a]b\\cd".to_string()));
    let t = parse_str("(;AB[aa][bb]N[ x ])").unwrap();
    assert_eq!(t.nodes[0].get("AB").unwrap().values, vec!["aa", "bb"]);
    assert_eq!(t.nodes[0].name(), Some("x".to_string()));
    assert_eq!(t.nodes[0].text("ZZ"), None);
}

#[test]
fn rectangles_are_filled() {
    let t = parse_str("(;SZ[9]AB[aa:bb])").unwrap();
    let c = t.nodes[0].coords("AB", Size::new(9).unwrap()).unwrap();
    assert_eq!(c.len(), 4);
}

#[test]
fn parse_errors() {
    assert_eq!(kind(""), SgfErrorKind::EmptyInput);
    assert_eq!(kind("  \n"), SgfErrorKind::EmptyInput);
    assert_eq!(kind("()"), SgfErrorKind::EmptyGameTree);
    assert_eq!(kind("(;B)"), SgfErrorKind::PropNeedsValue { ident: "B".to_string() });
    assert!(matches!(kind("x"), SgfErrorKind::UnexpectedByte { found: Some('x'), .. }));
    assert!(matches!(kind("(;B[aa]"), SgfErrorKind::UnexpectedByte { found: None, .. }));
    assert!(matches!(kind("(;B[aa])x"), SgfErrorKind::UnexpectedByte { found: Some('x'), .. }));
}

#[test]
fn an_error_says_where() {
    let e = parse_str("(;\n B[aa]!)").err().unwrap();
    assert_eq!(e.position, Some(Position { offset: 9, line: 2, col: 7 }));
    assert_eq!(
        e.message(),
        "应为节点“;”、子树“(”或树结尾“)”，但遇到意外内容 '!'（第 2 行第 7 列）"
    );
}

#[test]
fn an_unexpected_quote_is_escaped() {
    let e = parse_str("'").err().unwrap();
    assert_eq!(e.message(), "应为游戏树起始的“(”，但遇到意外内容 '\\''（第 1 行第 1 列）");
}

#[test]
fn every_error_has_its_words() {
    let say = |k: SgfErrorKind| k.message();
    assert_eq!(say(SgfErrorKind::EmptyInput), "输入为空：未找到任何 SGF 游戏树");
    assert_eq!(
        say(SgfErrorKind::EmptyGameTree),
        "空的 SGF 游戏树（一对括号内没有任何节点）"
    );
    assert_eq!(
        say(SgfErrorKind::PropNeedsValue { ident: "B".to_string() }),
        "属性 B 缺少属性值（[...]）"
    );
    assert_eq!(
        say(SgfErrorKind::UnexpectedByte { expected: "“)”", found: None }),
        "应为“)”，但输入在此提前结束"
    );
    assert_eq!(
        say(SgfErrorKind::NonSquareBoard { width: 9, height: 13 }),
        "不支持的矩形棋盘 9×13（本项目仅支持方形 9 / 13 / 19 路棋盘）"
    );
    assert_eq!(
        say(SgfErrorKind::UnsupportedBoardSize(7)),
        "不支持的棋盘尺寸：7（仅支持 9 / 13 / 19 路）"
    );
    assert_eq!(
        say(SgfErrorKind::BadGameType(3)),
        "不支持的 SGF 游戏类型 GM[3]（仅支持围棋 GM[1]）"
    );
    assert_eq!(
        say(SgfErrorKind::BadNumber { ident: "KM".to_string(), value: "x".to_string() }),
        "属性 KM 的值“x”不是合法数字"
    );
    assert_eq!(
        say(SgfErrorKind::BadCoord { ident: "B".to_string(), value: "zz".to_string() }),
        "属性 B 的坐标“zz”无法解析或超出棋盘范围"
    );
    assert_eq!(
        say(SgfErrorKind::UnsupportedCharset("GB2312".to_string())),
        "文件不是合法 UTF-8，且声明使用字符集 GB2312；请转存为 UTF-8 后再打开"
    );
    assert_eq!(
        say(SgfErrorKind::InvalidUtf8),
        "文件不是合法 UTF-8 编码，且未声明其它字符集；请转存为 UTF-8 后再打开"
    );
}

#[test]
fn bytes_that_are_not_utf8() {
    let mut bytes = b"(;GM[1]C[".to_vec();
    bytes.push(0xff);
    bytes.extend_from_slice(b"])");
    assert_eq!(parse_bytes(&bytes).err().unwrap().kind, SgfErrorKind::InvalidUtf8);
    let mut bytes = b"(;CA[GB2312]C[".to_vec();
    bytes.push(0xff);
    bytes.extend_from_slice(b"])");
    assert_eq!(
        parse_bytes(&bytes).err().unwrap().kind,
        SgfErrorKind::UnsupportedCharset("GB2312".to_string())
    );
    assert_eq!(
        parse_bytes(b"(;CA[a\xffb]C[\xff])").err().unwrap().kind,
        SgfErrorKind::UnsupportedCharset("a\u{fffd}b".to_string())
    );
    assert_eq!(
        parse_bytes(&[0xff, 0xfe, 0x28, 0x00]).err().unwrap().kind,
        SgfErrorKind::UnsupportedCharset("UTF-16".to_string())
    );
}

#[test]
fn bytes_with_a_mark_in_front() {
    let mut bytes = vec![0xefu8, 0xbb, 0xbf];
    bytes.extend_from_slice("(;C[围棋])".as_bytes());
    assert_eq!(parse_bytes(&bytes).unwrap().nodes[0].comment(), Some("围棋".to_string()));
}

#[test]
fn info_of_a_game() {
    let t = parse_str("(;GM[1]FF[4]SZ[13]KM[ 6.5 ]HA[2]PL[w]PB[甲]PW[乙]RE[B+R]C[ 开局 ])").unwrap();
    let i = GameInfo::from_tree(&t).unwrap();
    assert_eq!(i.size, Size::new(13).unwrap());
    assert_eq!(i.komi, Some("6.5".to_string()));
    assert_eq!(i.handicap, 2);
    assert_eq!(i.initial_player, Some(Stone::White));
    assert_eq!(i.player_black, Some("甲".to_string()));
    assert_eq!(i.player_white, Some("乙".to_string()));
    assert_eq!(i.result, Some("B+R".to_string()));
    assert_eq!(i.format, Some(4));
    assert_eq!(i.root_comment, Some("开局".to_string()));
    assert_eq!(i.event, None);
    assert_eq!(GameInfo::blank(Size::usual()).komi, None);
}

#[test]
fn info_errors() {
    assert_eq!(info_kind("(;GM[2])"), SgfErrorKind::BadGameType(2));
    assert_eq!(
        info_kind("(;GM[x])"),
        SgfErrorKind::BadNumber { ident: "GM".to_string(), value: "x".to_string() }
    );
    assert_eq!(info_kind("(;SZ[9:13])"), SgfErrorKind::NonSquareBoard { width: 9, height: 13 });
    assert_eq!(info_kind("(;SZ[7])"), SgfErrorKind::UnsupportedBoardSize(7));
    assert_eq!(
        info_kind("(;KM[abc])"),
        SgfErrorKind::BadNumber { ident: "KM".to_string(), value: "abc".to_string() }
    );
    assert_eq!(
        info_kind("(;HA[-1])"),
        SgfErrorKind::BadNumber { ident: "HA".to_string(), value: "-1".to_string() }
    );
}

#[test]
fn a_game_is_loaded_at_its_start() {
    let g = load("(;GM[1]SZ[9]C[开始];B[cc]C[好手];W[gg];B[])");
    assert!(g.warning.is_none());
    assert!(!g.partial);
    assert_eq!(g.board.size().n(), 9);
    assert_eq!(g.board.line_len(), 3);
    let mut b = g.board;
    assert!(b.go_to(0));
    assert_eq!(g.meta.comment_at(&b), Some("开始"));
    assert!(b.go_to(1));
    assert_eq!(g.meta.comment_at(&b), Some("好手"));
    assert!(b.go_to(3));
    assert_eq!(g.meta.comment_at(&b), None);
    assert!(b.records()[2].is_pass());
    assert_eq!(g.meta.source(), "game.sgf");
}

#[test]
fn variations_become_branches() {
    let g = load("(;SZ[9];B[cc](;W[gg];B[cg])(;W[ee]))");
    let mut b = g.board;
    assert!(b.go_to(1));
    assert_eq!(b.child_count(), 2);
    assert_eq!(b.selected_child(), 0);
    assert_eq!(b.nodes().len(), 5);
}

#[test]
fn handicap_games_start_with_white() {
    let g = load("(;SZ[9]HA[2]AB[cc][gg];W[ee])");
    assert!(g.warning.is_none());
    assert_eq!(g.board.line_len(), 1);
    let mut b = g.board;
    assert!(b.go_to(0));
    assert_eq!(b.to_play(), Stone::White);
    assert_eq!(b.get(Coord::from_sgf(b.size(), "cc").unwrap()), Some(Stone::Black));
}

#[test]
fn an_illegal_move_stops_the_line() {
    let g = load("(;SZ[9];B[cc];W[cc];B[dd])");
    assert!(g.partial);
    assert_eq!(g.warning, Some("第 2 手无法载入：该点已有棋子".to_string()));
    assert_eq!(g.board.line_len(), 1);
}

#[test]
fn a_wrong_turn_stops_the_line() {
    let g = load("(;SZ[9];B[cc];B[dd])");
    assert!(g.partial);
    assert_eq!(
        g.warning,
        Some("第 2 手无法载入：谱中行棋方为黑，实际轮到白".to_string())
    );
}

#[test]
fn an_illegal_variation_is_left_out() {
    let g = load("(;SZ[9];B[cc](;W[gg])(;W[cc]))");
    assert_eq!(
        g.warning,
        Some("第 2 手（第 2 手的第 1 个变着内）无法载入：该点已有棋子，该分支已舍弃".to_string())
    );
    assert_eq!(g.board.nodes().len(), 3);
}

#[test]
fn setup_in_the_middle_is_told() {
    let g = load("(;SZ[9];B[cc];AW[dd];W[gg])");
    assert!(g.warning.unwrap().contains("含中途摆子（AB/AW/AE），已忽略"));
    assert_eq!(g.board.line_len(), 2);
}

#[test]
fn load_errors() {
    assert_eq!(load_kind(""), SgfErrorKind::EmptyInput);
    assert_eq!(
        load_kind("(;SZ[9]AB[zz])"),
        SgfErrorKind::BadCoord { ident: "AB".to_string(), value: "zz".to_string() }
    );
    let e = load_from_bytes("g", b"(;SZ[9]AB[aa]AW[aa])").err().unwrap();
    assert!(matches!(e, LoadError::Setup(_)));
    assert_eq!(e.message(), "预设摆子非法：坐标 A(0,0) 被同时摆为黑子与白子");
}

#[test]
fn unknown_properties_are_kept() {
    let text = "(;SZ[9];B[cc]TR[aa][bb];W[gg])";
    let g = load(text);
    assert_eq!(g.meta.extras_count(), 1);
    let out = board_to_sgf(&g.board, Some(&g.meta));
    assert!(out.contains(";B[cc]TR[aa][bb]"));
}

#[test]
fn a_saved_board() {
    let s = Size::new(9).unwrap();
    let mut b = Board::new(s);
    assert!(b.play(Coord::from_sgf(s, "cc").unwrap()).is_ok());
    assert!(b.play(Coord::from_sgf(s, "gg").unwrap()).is_ok());
    b.pass();
    let out = board_to_sgf(&b, None);
    assert_eq!(out, "(;GM[1]FF[4]CA[UTF-8]AP[Guanqi:0.1.0]SZ[9];B[cc];W[gg];B[])");
}

#[test]
fn saving_then_loading_gives_the_game_back() {
    let g = load("(;SZ[9]KM[6.5]PB[a\\]b]C[开始];B[cc]C[好 手](;W[gg];B[cg])(;W[ee]C[变]))");
    let out = board_to_sgf(&g.board, Some(&g.meta));
    let h = load(&out);
    assert!(h.warning.is_none());
    assert_eq!(h.board.nodes().len(), g.board.nodes().len());
    assert_eq!(h.meta.info().komi, Some("6.5".to_string()));
    assert_eq!(h.meta.info().player_black, Some("a]b".to_string()));
    let mut b = h.board;
    assert!(b.go_to(1));
    assert_eq!(h.meta.comment_at(&b), Some("好 手"));
    assert!(b.select_child(1));
    assert_eq!(h.meta.comment_at(&b), Some("变"));
    assert_eq!(
        b.records()[1].action,
        Action::Place(Coord::from_sgf(b.size(), "ee").unwrap())
    );
}

#[test]
fn writing_then_reading_gives_the_tree_back() {
    let t = parse_str("(;C[x\\]\\\\y]AB[aa][bb](;B[cc])(;B[dd];W[ee]))").unwrap();
    assert_eq!(parse_str(&t.write()).unwrap(), t);
}

#[test]
fn meta_of_a_new_game() {
    let mut m = GameMeta::for_path("新对局", Size::usual());
    assert_eq!(m.source(), "新对局");
    m.set_source("a.sgf".to_string());
    assert_eq!(m.source(), "a.sgf");
    let mut i = GameInfo::blank(Size::usual());
    i.result = Some("W+R".to_string());
    m.set_info(i);
    assert_eq!(m.info().result, Some("W+R".to_string()));
    assert_eq!(m.comment_by_sig(1), None);
    assert!(m.extras_by_sig(1).is_empty());
}

#[test]
fn why_saving_failed() {
    let say = |code: Option<i32>| SaveError::Io { code, detail: "x".to_string() }.message();
    assert_eq!(say(Some(30)), "写入文件失败：目标位置所在磁盘为只读");
    assert_eq!(say(Some(2)), "写入文件失败：目标目录不存在");
    assert_eq!(say(Some(13)), "写入文件失败：没有写入权限");
    assert_eq!(say(Some(28)), "写入文件失败：磁盘空间不足");
    assert_eq!(say(None), "写入文件失败：x");
}

#[test]
fn a_block_replaces_the_one_before() {
    let put = |c: &str, b: &str| merge_delimited_block(c, "<<a>", "<</a>", b);
    assert_eq!(put("", "x"), "<<a>x<</a>");
    assert_eq!(put("mine", "x"), "mine\n<<a>x<</a>");
    assert_eq!(put("mine\n<<a>x<</a>\nmore", "y"), "mine\n<<a>y<</a>\nmore");
    assert_eq!(put("<<a> lost <<a>x<</a>", "y"), "<<a> lost <<a>y<</a>");
    assert_eq!(put(&put("mine", "x"), "y"), put("mine", "y"));
    assert_eq!(note_block(&None, "<", ">", None), None);
    assert_eq!(note_block(&None, "<", ">", Some("x")), Some("<x>".to_string()));
    assert_eq!(
        note_block(&Some("c".to_string()), "<", ">", None),
        Some("c".to_string())
    );
}

#[test]
fn loading_saving_and_loading_again() {
    for text in [
        "(;SZ[9]HA[2]AB[cc][gg]C[ a ];W[ee]N[x];B[dd](;W[aa])(;W[bb]TR[cc]))",
        "(;SZ[9]PL[W];W[ee])",
        "(;SZ[9]AB[cc])",
        "(;SZ[9]PL[W])",
        "(;SZ[9])",
    ] {
        let g = load(text);
        let out = board_to_sgf(&g.board, Some(&g.meta));
        let h = load(&out);
        assert!(h.warning.is_none());
        assert_eq!(h.board.nodes().len(), g.board.nodes().len());
        assert_eq!(h.board.to_play(), g.board.to_play());
        assert_eq!(h.board.grid(), g.board.grid());
        assert_eq!(h.meta.extras_count(), g.meta.extras_count());
        assert_eq!(board_to_sgf(&h.board, Some(&h.meta)), out);
    }
}

#[test]
fn stones_that_were_all_removed_are_not_told() {
    let g = load("(;SZ[9]AB[cc]AE[cc])");
    assert_eq!(g.board.to_play(), Stone::White);
    let h = load(&board_to_sgf(&g.board, Some(&g.meta)));
    assert_eq!(h.board.to_play(), Stone::Black);
}

#[test]
fn properties_behind_an_illegal_move_are_counted() {
    let g = load_from_bytes("g.sgf", b"(;SZ[9];B[aa];W[aa]TR[bb];B[cc]TR[dd])").ok().unwrap();
    assert!(g.partial);
    assert!(g.warning.is_some());
    assert_eq!(g.board.move_count(), 1);
    assert_eq!(g.board.cursor(), 0);
    assert_eq!(g.dropped_comments, 0);
    assert_eq!(g.unplaced_props, 2);
    let g = load("(;SZ[9];B[aa](;W[aa]TR[bb](;B[cc]TR[dd]SQ[ee])(;B[dd];W[ee]MA[ff]))(;W[cc]TR[aa]))");
    assert_eq!(g.unplaced_props, 4);
    assert_eq!(g.board.move_count(), 2);
    assert_eq!(g.meta.extras_count(), 1);
}

#[test]
fn a_komi_is_shown_in_one_way() {
    for (komi, said) in [
        ("+6.5", "6.5"),
        ("06.50", "6.5"),
        ("6.0", "6"),
        ("65e-1", "6.5"),
        ("1E2", "100"),
        (".5", "0.5"),
        ("-3.75", "-3.75"),
        ("0.0005", "0.0005"),
        ("6.500000000000000000000001", "6.5"),
        ("0.30000000000000004", "0.30000000000000004"),
        ("0.1000000000000000055511151231257827", "0.1"),
        ("9007199254740993", "9007199254740992"),
        ("123456789012345678", "123456789012345680"),
        ("0.3333333333333333333", "0.3333333333333333"),
        ("-Infinity", "-inf"),
        ("1.8e308", "inf"),
        ("Infinity", "inf"),
        ("NAN", "NaN"),
        ("1e999", "inf"),
        ("1e-99999999999999999999999999999999999999999", "0"),
    ] {
        let g = load(&format!("(;SZ[9]KM[ {} ])", komi));
        assert_eq!(g.meta.info.komi, Some(said.to_string()));
        assert!(board_to_sgf(&g.board, Some(&g.meta)).contains(&format!("KM[{}]", said)));
    }
    let g = load("(;SZ[9]KM[-0])");
    assert_eq!(g.meta.info.komi, Some("-0".to_string()));
    assert!(board_to_sgf(&g.board, Some(&g.meta)).contains("KM[0]"));
    for big in ["1.7976931348623157e308", "5e-324", "2.2250738585072014e-308"] {
        let n: f64 = big.parse().unwrap();
        let g = load(&format!("(;SZ[9]KM[{}])", big));
        assert_eq!(g.meta.info.komi, Some(format!("{}", n)));
    }
    let mut g = load("(;SZ[9])");
    g.meta.info.komi = Some("7.50".to_string());
    assert!(board_to_sgf(&g.board, Some(&g.meta)).contains("KM[7.5]"));
}

#[test]
fn the_starting_position_keeps_its_notes() {
    let g = load("(;SZ[9]C[开始]TR[aa]XX[1][2]KM[06.5];B[cc]C[好];W[dd]SQ[ee](;B[ee])(;B[ff]MA[aa]))");
    let out = board_to_sgf(&g.board, Some(&g.meta));
    let h = load(&out);
    assert_eq!(h.meta.comment_at(&h.board), Some("开始"));
    assert_eq!(h.meta.extras_count(), 4);
    assert_eq!(g.meta.extras_count(), 4);
    assert_eq!(h.meta.info.komi, Some("6.5".to_string()));
    assert_eq!(board_to_sgf(&h.board, Some(&h.meta)), out);
}
