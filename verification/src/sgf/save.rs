//! Writing a board as a record.
//!
//! A chain of nodes runs on as long as there is one way to go. Where there are several, the chain
//! ends and every one of them, the first included, becomes a variation. Variations keep their
//! order, so the main one is the first when the record is loaded again. Comments and the kept
//! properties are found by position signature.
//!
//! Points that were cleared in the starting position leave no trace in it and are not written; nor
//! is the selected variation, which the format has no place for.

use vstd::prelude::*;
use super::info::{self, written_komi, GameInfo, InfoView};
use super::load::{self, sig_with_record, GameMeta, MetaView, SIG_INIT};
use super::model::{self, NodeView, PropView, TreeView};
use super::tree::{self, single_prop, GameTree, Node, Property};
use crate::board::{self, coord, Action, Board, BoardView, Coord, MoveRecord, RecordView, Size, Stone};
use crate::text::{self, chars_of, decimal_text};

verus! {

/// Why a record cannot be saved: what the system said, and its error number where there is one.
#[derive(Debug)]
pub enum SaveError {
    /// Writing the file failed.
    Io { code: Option<i32>, detail: String },
}

impl SaveError {
    /// The cause in words, for the error numbers that come up; what the system said otherwise.
    pub open spec fn cause(self) -> Seq<char> {
        match self {
            SaveError::Io { code, detail } => match code {
                Some(30) => "目标位置所在磁盘为只读"@,
                Some(2) => "目标目录不存在"@,
                Some(13) => "没有写入权限"@,
                Some(28) => "磁盘空间不足"@,
                _ => detail@,
            },
        }
    }

    /// The message shown to the user.
    pub fn message(&self) -> (r: String)
        ensures
            r@ == "写入文件失败："@ + self.cause(),
    {
        let mut out = "写入文件失败：".to_owned();
        match self {
            SaveError::Io { code, detail } => match *code {
                Some(30) => out.append("目标位置所在磁盘为只读"),
                Some(2) => out.append("目标目录不存在"),
                Some(13) => out.append("没有写入权限"),
                Some(28) => out.append("磁盘空间不足"),
                _ => out.append(detail.as_str()),
            },
        }
        out
    }
}

// ---- the model ----

/// A property with one value.
pub open spec fn one_prop(ident: Seq<char>, value: Seq<char>) -> PropView {
    PropView { ident, values: seq![value] }
}

/// A text property, if there is a text.
pub open spec fn text_prop(ident: Seq<char>, value: Option<Seq<char>>) -> Seq<PropView> {
    match value {
        Some(v) if v.len() > 0 => seq![one_prop(ident, v)],
        _ => Seq::empty(),
    }
}

/// The name of a side's move property.
pub open spec fn side_ident(s: Stone) -> Seq<char> {
    match s {
        Stone::Black => "B"@,
        Stone::White => "W"@,
    }
}

/// The value of a move property.
pub open spec fn action_text(a: Action) -> Seq<char> {
    match a {
        Action::Place(c) => coord::sgf_text(c),
        Action::Pass => Seq::empty(),
    }
}

/// The comment kept for a position.
pub open spec fn comment_for(meta: Option<MetaView>, sig: u64) -> Option<Seq<char>> {
    match meta {
        Some(m) if m.comments.contains_key(sig) => Some(m.comments[sig]),
        _ => None,
    }
}

/// The properties kept for a position.
pub open spec fn extras_for(meta: Option<MetaView>, sig: u64) -> Seq<PropView> {
    match meta {
        Some(m) if m.extras.contains_key(sig) => m.extras[sig],
        _ => Seq::empty(),
    }
}

/// A move as a node: the move, the comment and the kept properties of the position after it.
pub open spec fn move_node(r: RecordView, sig: u64, meta: Option<MetaView>) -> NodeView {
    NodeView {
        props: seq![one_prop(side_ident(r.player), action_text(r.action))] + text_prop(
            "C"@,
            comment_for(meta, sig),
        ) + extras_for(meta, sig),
    }
}

/// Whether node `c` lies deeper than node `id`.
pub open spec fn deeper(nodes: Seq<board::NodeView>, id: usize, c: usize) -> bool {
    nodes[id as int].depth < nodes[c as int].depth <= nodes.len()
}

/// The tree that is written for everything below node `id`, whose position has signature `sig`:
/// the chain that follows it, and the variations at the end of the chain.
pub open spec fn below(
    nodes: Seq<board::NodeView>,
    id: usize,
    sig: u64,
    meta: Option<MetaView>,
) -> TreeView
    decreases nodes.len() - nodes[id as int].depth, 0int,
{
    let kids = nodes[id as int].children;
    if kids.len() == 1 && deeper(nodes, id, kids[0]) {
        branch(nodes, kids[0], sig, meta)
    } else {
        TreeView {
            nodes: Seq::empty(),
            children: Seq::new(
                kids.len(),
                |i: int|
                    if 0 <= i < kids.len() && deeper(nodes, id, kids[i]) {
                        branch(nodes, kids[i], sig, meta)
                    } else {
                        arbitrary()
                    },
            ),
        }
    }
}

/// The tree that is written for node `c` and everything below it; `sig` is the signature of the
/// position before it.
pub open spec fn branch(
    nodes: Seq<board::NodeView>,
    c: usize,
    sig: u64,
    meta: Option<MetaView>,
) -> TreeView
    decreases nodes.len() - nodes[c as int].depth, 1int,
{
    let r = nodes[c as int].record->0;
    let h = load::mixed_move(sig, r);
    let rest = below(nodes, c, h, meta);
    TreeView { nodes: seq![move_node(r, h, meta)] + rest.nodes, children: rest.children }
}

/// The points of the first `i` positions that hold a stone of `color`.
pub open spec fn stones_of(size: Size, grid: Seq<Option<Stone>>, color: Stone, i: int) -> Seq<Coord>
    decreases i,
{
    if i <= 0 {
        Seq::empty()
    } else if grid[i - 1] == Some(color) {
        stones_of(size, grid, color, i - 1).push(coord::point_at(size, i - 1))
    } else {
        stones_of(size, grid, color, i - 1)
    }
}

/// A property that lists points, if there are any.
pub open spec fn points_prop(ident: Seq<char>, points: Seq<Coord>) -> Seq<PropView> {
    if points.len() > 0 {
        seq![PropView { ident, values: points.map_values(|c: Coord| coord::sgf_text(c)) }]
    } else {
        Seq::empty()
    }
}

/// The points of the starting position that hold a stone of `color`.
pub open spec fn setup_stones(b: BoardView, color: Stone) -> Seq<Coord> {
    stones_of(b.size, b.nodes[0].grid, color, b.size.points() as int)
}

/// Whether the starting position holds stones.
pub open spec fn has_setup(b: BoardView) -> bool {
    setup_stones(b, Stone::Black).len() > 0 || setup_stones(b, Stone::White).len() > 0
}

/// Who moves first where nothing says so.
pub open spec fn usual_first(b: BoardView) -> Stone {
    if has_setup(b) {
        Stone::White
    } else {
        Stone::Black
    }
}

/// Who moves first: as in the main variation if there is a move, else as the information says.
pub open spec fn first_player(b: BoardView, meta: Option<MetaView>) -> Stone {
    let kids = b.nodes[0].children;
    if kids.len() > 0 {
        b.nodes[kids[0] as int].record->0.player
    } else {
        match meta {
            Some(m) if m.info.initial_player is Some => m.info.initial_player->0,
            _ => usual_first(b),
        }
    }
}

/// What is written of the players.
pub open spec fn people_props(what: InfoView) -> Seq<PropView> {
    text_prop("PB"@, what.player_black) + text_prop("PW"@, what.player_white)
        + text_prop("BR"@, what.rank_black) + text_prop("WR"@, what.rank_white)
        + text_prop("BT"@, what.team_black) + text_prop("WT"@, what.team_white)
}

/// What is written of the event.
pub open spec fn event_props(what: InfoView) -> Seq<PropView> {
    text_prop("RE"@, what.result) + text_prop("DT"@, what.date) + text_prop("EV"@, what.event)
        + text_prop("RO"@, what.round) + text_prop("PC"@, what.place)
        + text_prop("GN"@, what.game_name)
}

/// What is written of the terms of play, and the root comment.
pub open spec fn terms_props(what: InfoView) -> Seq<PropView> {
    text_prop("RU"@, what.rules) + text_prop("TM"@, what.time_limit)
        + text_prop("OT"@, what.overtime) + text_prop("C"@, what.root_comment)
}

/// What is written of komi, handicap and the side that moves first.
pub open spec fn start_props(what: InfoView, first: Stone, usual: Stone) -> Seq<PropView> {
    (match what.komi {
        Some(k) => seq![one_prop("KM"@, info::komi_text(k))],
        None => Seq::empty(),
    }) + (if what.handicap > 1 {
        seq![one_prop("HA"@, text::decimal(what.handicap as nat))]
    } else {
        Seq::empty()
    }) + (if first != usual {
        seq![one_prop("PL"@, side_ident(first))]
    } else {
        Seq::empty()
    })
}

/// What is written of the information on the game.
pub open spec fn info_props(b: BoardView, meta: MetaView) -> Seq<PropView> {
    start_props(meta.info, first_player(b, Some(meta)), usual_first(b)) + people_props(meta.info)
        + event_props(meta.info) + terms_props(meta.info)
}

/// What every record says.
pub open spec fn general_props(size: Size) -> Seq<PropView> {
    seq![
        one_prop("GM"@, "1"@),
        one_prop("FF"@, "4"@),
        one_prop("CA"@, "UTF-8"@),
        one_prop("AP"@, "Guanqi:0.1.0"@),
        one_prop("SZ"@, text::decimal(size.side())),
    ]
}

/// The root node: what every record says, the information on the game, the starting position, and
/// the kept properties.
pub open spec fn root_node(b: BoardView, meta: Option<MetaView>) -> NodeView {
    NodeView {
        props: general_props(b.size) + (match meta {
            Some(m) => info_props(b, m),
            None => Seq::empty(),
        }) + points_prop("AB"@, setup_stones(b, Stone::Black)) + points_prop(
            "AW"@,
            setup_stones(b, Stone::White),
        ) + extras_for(meta, SIG_INIT),
    }
}

/// The game tree that is written for a board.
pub open spec fn saved_tree(b: BoardView, meta: Option<MetaView>) -> TreeView {
    let rest = below(b.nodes, 0, SIG_INIT, meta);
    TreeView { nodes: seq![root_node(b, meta)] + rest.nodes, children: rest.children }
}

/// The view of an optional reference.
pub open spec fn meta_view(meta: Option<&GameMeta>) -> Option<MetaView> {
    match meta {
        Some(m) => Some(m@),
        None => None,
    }
}

// ---- the code ----

/// Appends a property.
fn push_prop(props: &mut Vec<Property>, p: Property)
    ensures
        tree::prop_views(final(props)@) == tree::prop_views(old(props)@).push(p@),
{
    let ghost before = props@;
    props.push(p);
    assert(tree::prop_views(props@) =~= tree::prop_views(before).push(p@));
}

/// Appends a text property, if there is a text.
fn push_text(props: &mut Vec<Property>, ident: &str, value: &Option<String>)
    ensures
        tree::prop_views(final(props)@) == tree::prop_views(old(props)@) + text_prop(
            ident@,
            super::info::opt_text(*value),
        ),
{
    let ghost before = tree::prop_views(props@);
    assert(before + Seq::empty() =~= before);
    if let Some(v) = value {
        if chars_of(v.as_str()).len() > 0 {
            push_prop(props, single_prop(ident, v.as_str()));
            assert(tree::prop_views(props@) =~= before + seq![one_prop(ident@, v@)]);
        }
    }
}

/// Appends copies of properties.
fn push_copies(props: &mut Vec<Property>, more: &[Property])
    ensures
        tree::prop_views(final(props)@) == tree::prop_views(old(props)@) + tree::prop_views(more@),
{
    let ghost before = tree::prop_views(props@);
    let ghost all = tree::prop_views(more@);
    let mut i: usize = 0;
    assert(before + all.take(0) =~= before);
    while i < more.len()
        invariant
            i <= more@.len(),
            all == tree::prop_views(more@),
            tree::prop_views(props@) == before + all.take(i as int),
        decreases more@.len() - i,
    {
        push_prop(props, more[i].copy());
        assert(before + all.take(i + 1) =~= (before + all.take(i as int)).push(all[i as int]));
        i += 1;
    }
    assert(all.take(i as int) =~= all);
}

/// Appends a property that lists points, if there are any.
fn push_points(props: &mut Vec<Property>, ident: &str, points: &Vec<Coord>)
    ensures
        tree::prop_views(final(props)@) == tree::prop_views(old(props)@) + points_prop(
            ident@,
            points@,
        ),
{
    let ghost before = tree::prop_views(props@);
    assert(before + Seq::empty() =~= before);
    if points.len() == 0 {
        return;
    }
    let ghost want = points@.map_values(|c: Coord| coord::sgf_text(c));
    let mut values: Vec<String> = Vec::new();
    let mut i: usize = 0;
    while i < points.len()
        invariant
            i <= points@.len(),
            want == points@.map_values(|c: Coord| coord::sgf_text(c)),
            tree::texts(values@) == want.take(i as int),
        decreases points@.len() - i,
    {
        let ghost old_values = values@;
        let s = points[i].to_sgf();
        values.push(s);
        proof {
            assert(tree::texts(values@) =~= tree::texts(old_values).push(s@));
            assert(want.take(i + 1) =~= want.take(i as int).push(want[i as int]));
        }
        i += 1;
    }
    assert(want.take(i as int) =~= want);
    push_prop(props, Property { ident: ident.to_owned(), values });
    assert(tree::prop_views(props@) =~= before + points_prop(ident@, points@));
}

/// A move as a node.
fn record_node(record: &MoveRecord, sig: u64, meta: Option<&GameMeta>) -> (r: Node)
    ensures
        r@ == move_node(record@, sig, meta_view(meta)),
{
    let mut props: Vec<Property> = Vec::new();
    let ident = match record.player {
        Stone::Black => "B",
        Stone::White => "W",
    };
    let value = match record.action {
        Action::Place(at) => at.to_sgf(),
        Action::Pass => String::new(),
    };
    assert(value@ =~= action_text(record.action));
    push_prop(&mut props, single_prop(ident, value.as_str()));
    let ghost p1 = tree::prop_views(props@);
    assert(p1 =~= seq![one_prop(side_ident(record.player), action_text(record.action))]);
    let ghost mv = meta_view(meta);
    if let Some(m) = meta {
        let comment: Option<String> = match m.comment_by_sig(sig) {
            Some(c) => Some(c.to_owned()),
            None => None,
        };
        push_text(&mut props, "C", &comment);
        push_copies(&mut props, m.extras_by_sig(sig));
        assert(super::info::opt_text(comment) == comment_for(mv, sig));
    } else {
        assert(p1 + text_prop("C"@, comment_for(mv, sig)) + extras_for(mv, sig) =~= p1);
    }
    Node { props }
}

/// The stones of the starting position, black ones and white ones.
fn root_setup(board: &Board) -> (r: (Vec<Coord>, Vec<Coord>))
    requires
        board.wf(),
    ensures
        r.0@ == setup_stones(board@, Stone::Black),
        r.1@ == setup_stones(board@, Stone::White),
{
    let size = board.size();
    let mut black: Vec<Coord> = Vec::new();
    let mut white: Vec<Coord> = Vec::new();
    proof {
        board::lemma_board_wf(*board);
        assert(board@.nodes[0].grid.len() == board@.size.points());
    }
    if let Some(grid) = board.position_at(0) {
        let ghost g = board@.nodes[0].grid;
        let mut i: usize = 0;
        while i < grid.len()
            invariant
                i <= grid@.len(),
                g == grid@,
                size == board@.size,
                g.len() == size.points(),
                black@ == stones_of(size, g, Stone::Black, i as int),
                white@ == stones_of(size, g, Stone::White, i as int),
            decreases grid@.len() - i,
        {
            if let Some(stone) = grid[i] {
                if let Some(at) = Coord::from_index(size, i) {
                    match stone {
                        Stone::Black => black.push(at),
                        Stone::White => white.push(at),
                    }
                }
            }
            i += 1;
        }
    }
    (black, white)
}

fn push_people_props(props: &mut Vec<Property>, what: &GameInfo)
    ensures
        tree::prop_views(final(props)@) == tree::prop_views(old(props)@) + people_props(what@),
{
    let ghost before = tree::prop_views(props@);
    push_text(props, "PB", &what.player_black);
    push_text(props, "PW", &what.player_white);
    push_text(props, "BR", &what.rank_black);
    push_text(props, "WR", &what.rank_white);
    push_text(props, "BT", &what.team_black);
    push_text(props, "WT", &what.team_white);
    assert(tree::prop_views(props@) =~= before + people_props(what@));
}

fn push_event_props(props: &mut Vec<Property>, what: &GameInfo)
    ensures
        tree::prop_views(final(props)@) == tree::prop_views(old(props)@) + event_props(what@),
{
    let ghost before = tree::prop_views(props@);
    push_text(props, "RE", &what.result);
    push_text(props, "DT", &what.date);
    push_text(props, "EV", &what.event);
    push_text(props, "RO", &what.round);
    push_text(props, "PC", &what.place);
    push_text(props, "GN", &what.game_name);
    assert(tree::prop_views(props@) =~= before + event_props(what@));
}

fn push_terms_props(props: &mut Vec<Property>, what: &GameInfo)
    ensures
        tree::prop_views(final(props)@) == tree::prop_views(old(props)@) + terms_props(what@),
{
    let ghost before = tree::prop_views(props@);
    push_text(props, "RU", &what.rules);
    push_text(props, "TM", &what.time_limit);
    push_text(props, "OT", &what.overtime);
    push_text(props, "C", &what.root_comment);
    assert(tree::prop_views(props@) =~= before + terms_props(what@));
}

fn general(size: Size) -> (r: Vec<Property>)
    ensures
        tree::prop_views(r@) == general_props(size),
{
    let mut props: Vec<Property> = Vec::new();
    push_prop(&mut props, single_prop("GM", "1"));
    push_prop(&mut props, single_prop("FF", "4"));
    push_prop(&mut props, single_prop("CA", "UTF-8"));
    push_prop(&mut props, single_prop("AP", "Guanqi:0.1.0"));
    push_prop(&mut props, single_prop("SZ", decimal_text(size.n() as u64).as_str()));
    assert(tree::prop_views(props@) =~= general_props(size));
    props
}

fn push_start_props(props: &mut Vec<Property>, what: &GameInfo, first: Stone, usual: Stone)
    ensures
        tree::prop_views(final(props)@) == tree::prop_views(old(props)@) + start_props(
            what@,
            first,
            usual,
        ),
{
    let ghost before = tree::prop_views(props@);
    if let Some(k) = &what.komi {
        push_prop(props, single_prop("KM", written_komi(k.as_str()).as_str()));
    }
    if what.handicap > 1 {
        push_prop(props, single_prop("HA", decimal_text(what.handicap as u64).as_str()));
    }
    if first != usual {
        let letter = match first {
            Stone::Black => "B",
            Stone::White => "W",
        };
        push_prop(props, single_prop("PL", letter));
    }
    assert(tree::prop_views(props@) =~= before + start_props(what@, first, usual));
}

/// Appends what is written of the information on the game.
fn push_info_props(props: &mut Vec<Property>, what: &GameInfo, first: Stone, usual: Stone)
    ensures
        tree::prop_views(final(props)@) == tree::prop_views(old(props)@) + (start_props(
            what@,
            first,
            usual,
        ) + people_props(what@) + event_props(what@) + terms_props(what@)),
{
    let ghost before = tree::prop_views(props@);
    push_start_props(props, what, first, usual);
    push_people_props(props, what);
    push_event_props(props, what);
    push_terms_props(props, what);
    proof {
        let st = start_props(what@, first, usual);
        let (a, e, t) = (people_props(what@), event_props(what@), terms_props(what@));
        lemma_four(before, st, a, e, t);
    }
}

proof fn lemma_four(
    p: Seq<PropView>,
    a: Seq<PropView>,
    b: Seq<PropView>,
    c: Seq<PropView>,
    d: Seq<PropView>,
)
    ensures
        p + a + b + c + d == p + (a + b + c + d),
{
    assert(p + a + b + c + d =~= p + (a + b + c + d));
}

/// Who moves first: as in the main variation if there is a move, else as the information says.
fn first_side(board: &Board, meta: Option<&GameMeta>, usual: Stone) -> (r: Stone)
    requires
        board.wf(),
        usual == usual_first(board@),
    ensures
        r == first_player(board@, meta_view(meta)),
{
    match first_record_player(board) {
        Some(p) => p,
        None => {
            match meta {
                Some(m) => match m.info().initial_player {
                    Some(p) => p,
                    None => usual,
                },
                None => usual,
            }
        },
    }
}

/// The root node.
fn build_root(board: &Board, meta: Option<&GameMeta>) -> (r: Node)
    requires
        board.wf(),
    ensures
        r@ == root_node(board@, meta_view(meta)),
{
    let (black, white) = root_setup(board);
    let usual = if black.len() > 0 || white.len() > 0 {
        Stone::White
    } else {
        Stone::Black
    };
    let first = first_side(board, meta, usual);
    let mut props = general(board.size());
    let ghost p0 = tree::prop_views(props@);
    if let Some(m) = meta {
        push_info_props(&mut props, m.info(), first, usual);
    } else {
        assert(p0 + Seq::empty() =~= p0);
    }
    push_points(&mut props, "AB", &black);
    push_points(&mut props, "AW", &white);
    let ghost p1 = tree::prop_views(props@);
    if let Some(m) = meta {
        push_copies(&mut props, m.extras_by_sig(SIG_INIT));
    } else {
        assert(p1 + Seq::empty() =~= p1);
    }
    Node { props }
}

/// Who makes the first move of the main variation.
fn first_record_player(board: &Board) -> (r: Option<Stone>)
    requires
        board.wf(),
    ensures
        r is Some == (board@.nodes[0].children.len() > 0),
        r matches Some(p) ==> p == board@.nodes[board@.nodes[0].children[0] as int].record->0.player,
{
    let list = board.nodes();
    let ghost nodes = board@.nodes;
    proof {
        board::lemma_board_wf(*board);
        assert(nodes[0] == list@[0]@);
    }
    let kids = list[0].children();
    if kids.len() == 0 {
        return None;
    }
    let c = kids[0];
    proof {
        assert(board::model::child_of(nodes, nodes[0].children[0], 0));
        assert(nodes[c as int] == list@[c as int]@);
        assert(board::model::hung(nodes, c as int));
    }
    match list[c].record() {
        Some(m) => Some(m.player),
        None => None,
    }
}

/// Writes everything below node `start` into `out`, which holds nothing but a chain of nodes.
fn extend_tree(board: &Board, start: usize, incoming: u64, meta: Option<&GameMeta>, out: &mut GameTree)
    requires
        board.wf(),
        start < board@.nodes.len(),
        old(out).children@.len() == 0,
    ensures
        final(out)@ == (TreeView {
            nodes: old(out)@.nodes + below(board@.nodes, start, incoming, meta_view(meta)).nodes,
            children: below(board@.nodes, start, incoming, meta_view(meta)).children,
        }),
    decreases board@.nodes.len() - board@.nodes[start as int].depth,
{
    let ghost nodes = board@.nodes;
    let ghost mv = meta_view(meta);
    let ghost b = board@;
    proof {
        board::lemma_board_wf(*board);
    }
    let list = board.nodes();
    let ghost start_nodes = out@.nodes;
    let mut id = start;
    let mut sig = incoming;
    let mut more = true;
    while more
        invariant
            board.wf(),
            b == board@,
            b.wf(),
            nodes == b.nodes,
            board::node_views(list@) == nodes,
            mv == meta_view(meta),
            id < nodes.len(),
            start < nodes.len(),
            nodes[start as int].depth <= nodes[id as int].depth,
            out.children@.len() == 0,
            tree::node_views(out.nodes@) + below(nodes, id, sig, mv).nodes == start_nodes + below(
                nodes,
                start,
                incoming,
                mv,
            ).nodes,
            below(nodes, id, sig, mv).children == below(nodes, start, incoming, mv).children,
            !more ==> nodes[id as int].children.len() != 1,
        decreases nodes.len() - nodes[id as int].depth, if more { 1int } else { 0int },
    {
        proof {
            assert(nodes[id as int] == list@[id as int]@);
            board::tree::lemma_depth_bound(b.size, b.root_to_play, nodes, id);
        }
        let kids = list[id].children();
        if kids.len() == 1 {
            let c = kids[0];
            proof {
                lemma_child(b, id, 0);
                assert(nodes[c as int] == list@[c as int]@);
            }
            let ghost before = out.nodes@;
            if let Some(record) = list[c].record() {
                let h = sig_with_record(sig, record);
                let n = record_node(record, h, meta);
                out.nodes.push(n);
                proof {
                    let rest = below(nodes, c, h, mv);
                    assert(below(nodes, id, sig, mv) == branch(nodes, c, sig, mv));
                    assert(tree::node_views(out.nodes@) =~= tree::node_views(before).push(n@));
                    assert(tree::node_views(out.nodes@) + rest.nodes =~= tree::node_views(before)
                        + (seq![n@] + rest.nodes));
                }
                sig = h;
                id = c;
            } else {
                assert(false);
                more = false;
            }
        } else {
            more = false;
        }
    }
    proof {
        assert(nodes[id as int] == list@[id as int]@);
        board::tree::lemma_depth_bound(b.size, b.root_to_play, nodes, id);
    }
    let kids = list[id].children();
    let ghost all = below(nodes, id, sig, mv).children;
    assert(all.len() == kids@.len());
    let mut i: usize = 0;
    assert(tree::tree_views(out.children@) =~= all.take(0));
    while i < kids.len()
        invariant
            board.wf(),
            b == board@,
            b.wf(),
            nodes == b.nodes,
            board::node_views(list@) == nodes,
            mv == meta_view(meta),
            id < nodes.len(),
            start < nodes.len(),
            nodes[start as int].depth <= nodes[id as int].depth < nodes.len(),
            kids@ == nodes[id as int].children,
            kids@.len() != 1,
            all == below(nodes, id, sig, mv).children,
            all.len() == kids@.len(),
            i <= kids@.len(),
            tree::tree_views(out.children@) == all.take(i as int),
            tree::node_views(out.nodes@) + below(nodes, id, sig, mv).nodes == start_nodes + below(
                nodes,
                start,
                incoming,
                mv,
            ).nodes,
            all == below(nodes, start, incoming, mv).children,
        decreases kids@.len() - i,
    {
        let c = kids[i];
        proof {
            lemma_child(b, id, i as int);
            assert(nodes[c as int] == list@[c as int]@);
            assert(deeper(nodes, id, c));
        }
        if let Some(record) = list[c].record() {
            let h = sig_with_record(sig, record);
            let mut first: Vec<Node> = Vec::new();
            let n = record_node(record, h, meta);
            first.push(n);
            let mut child = GameTree { nodes: first, children: Vec::new() };
            assert(child@.nodes =~= seq![n@]);
            extend_tree(board, c, h, meta, &mut child);
            let ghost before = out.children@;
            out.children.push(child);
            proof {
                assert(child@ =~= branch(nodes, c, sig, mv));
                assert(all[i as int] == branch(nodes, c, sig, mv));
                assert(tree::tree_views(out.children@) =~= tree::tree_views(before).push(child@));
                assert(all.take(i + 1) =~= all.take(i as int).push(all[i as int]));
            }
        } else {
            assert(false);
        }
        i += 1;
    }
    proof {
        assert(all.take(i as int) =~= all);
        assert(below(nodes, id, sig, mv).nodes =~= Seq::<NodeView>::empty());
        assert(tree::node_views(out.nodes@) + Seq::<NodeView>::empty() =~= tree::node_views(
            out.nodes@,
        ));
        assert(out@.children =~= tree::tree_views(out.children@));
        assert(out@.nodes =~= start_nodes + below(nodes, start, incoming, mv).nodes);
    }
}

/// What holds of a child of a node.
proof fn lemma_child(b: BoardView, id: usize, i: int)
    requires
        b.wf(),
        id < b.nodes.len(),
        0 <= i < b.nodes[id as int].children.len(),
    ensures
        ({
            let c = b.nodes[id as int].children[i];
            &&& 0 < c < b.nodes.len()
            &&& b.nodes[c as int].record is Some
            &&& b.nodes[c as int].parent == Some(id)
            &&& b.nodes[c as int].depth == b.nodes[id as int].depth + 1
            &&& deeper(b.nodes, id, c)
        }),
{
    let c = b.nodes[id as int].children[i];
    assert(board::model::child_of(b.nodes, b.nodes[id as int].children[i], id as int));
    assert(board::model::hung(b.nodes, c as int));
    board::tree::lemma_depth_bound(b.size, b.root_to_play, b.nodes, c);
}

/// Makes the game tree that is written for a board.
pub fn board_to_tree(board: &Board, meta: Option<&GameMeta>) -> (r: GameTree)
    requires
        board.wf(),
    ensures
        r@ == saved_tree(board@, meta_view(meta)),
{
    proof {
        board::lemma_board_wf(*board);
    }
    let mut nodes: Vec<Node> = Vec::new();
    let root = build_root(board, meta);
    nodes.push(root);
    let mut out = GameTree { nodes, children: Vec::new() };
    assert(out@.nodes =~= seq![root@]);
    extend_tree(board, 0, SIG_INIT, meta, &mut out);
    out
}

/// Writes a board, with all its variations, as SGF text. `meta` is what is kept beside the board,
/// if anything.
pub fn board_to_sgf(board: &Board, meta: Option<&GameMeta>) -> (r: String)
    requires
        board.wf(),
    ensures
        r@ == model::written(saved_tree(board@, meta_view(meta))),
{
    board_to_tree(board, meta).write()
}

} // verus!
