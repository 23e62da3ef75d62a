//! The board: coordinates, rules, and a position with its history (9, 13 or 19 lines).
//!
//! History is a tree of positions. Node 0 is the starting position; every other node holds one
//! move and the full position after it. The cursor is at one node. Each node selects one of its
//! children (the first is the main variation), and following the selections from the root gives
//! the *current line*, on which the cursor always stands.
//!
//! - Playing where the cursor is not at a leaf starts a variation; a move that is already there
//!   is entered instead of being added twice.
//! - Only a leaf can be taken back ([`Board::undo`]).
//! - The ko rule is the simple one: a move may not bring back the position before the last move.
//! - Stones of the starting position are no moves; chains without liberties may stand in it.

use vstd::prelude::*;

pub mod coord;
pub mod copies;
pub mod laws;
pub mod model;
pub mod rules;
pub mod tree;

pub use coord::{Coord, CoordError, Size};
pub use model::{BoardView, NodeView, RecordView};
pub use rules::{apply_move, chain_info, ChainInfo, IllegalReason, Stone};

verus! {

/// A position: one entry per point, row by row, `None` where the point is empty.
pub type Grid = Vec<Option<Stone>>;

/// What a move does.
#[derive(Clone, Copy, PartialEq, Eq, Structural, Debug)]
pub enum Action {
    /// A stone on a point.
    Place(Coord),
    /// A pass: the move counts, the position stays.
    Pass,
}

/// One move.
#[derive(PartialEq, Eq, Debug)]
pub struct MoveRecord {
    /// Who moved.
    pub player: Stone,
    /// What the move was.
    pub action: Action,
    /// The stones that the move took.
    pub captured: Vec<Coord>,
}

impl View for MoveRecord {
    type V = RecordView;

    open spec fn view(&self) -> RecordView {
        RecordView {
            player: self.player,
            action: self.action,
            captured: self.captured@.to_set(),
        }
    }
}

impl Clone for MoveRecord {
    fn clone(&self) -> (r: Self)
        ensures
            r.player == self.player,
            r.action == self.action,
            r.captured@ == self.captured@,
    {
        MoveRecord {
            player: self.player,
            action: self.action,
            captured: self.captured.clone(),
        }
    }
}

impl MoveRecord {
    /// Every stone taken is listed once.
    pub open spec fn wf(self) -> bool {
        self.captured@.no_duplicates()
    }

    /// Whether the move is a pass.
    pub fn is_pass(&self) -> (r: bool)
        ensures
            r == (self.action == Action::Pass),
    {
        matches!(self.action, Action::Pass)
    }

    /// Whether two moves are the same, with the same stones taken.
    pub fn same(&self, other: &MoveRecord) -> (r: bool)
        ensures
            r == (self@ == other@),
    {
        if self.player != other.player || self.action != other.action {
            return false;
        }
        let (a, b) = (all_among(&self.captured, &other.captured), all_among(
            &other.captured,
            &self.captured,
        ));
        proof {
            let (x, y) = (self.captured@.to_set(), other.captured@.to_set());
            if a && b {
                assert(x =~= y);
            } else if !a {
                let i = choose|i: int|
                    0 <= i < self.captured@.len() && !other.captured@.contains(
                        #[trigger] self.captured@[i],
                    );
                assert(x.contains(self.captured@[i]) && !y.contains(self.captured@[i]));
            } else {
                let i = choose|i: int|
                    0 <= i < other.captured@.len() && !self.captured@.contains(
                        #[trigger] other.captured@[i],
                    );
                assert(y.contains(other.captured@[i]) && !x.contains(other.captured@[i]));
            }
        }
        a && b
    }
}

fn is_among(c: Coord, list: &Vec<Coord>) -> (r: bool)
    ensures
        r == list@.contains(c),
{
    let mut i: usize = 0;
    while i < list.len()
        invariant
            i <= list@.len(),
            forall|k: int| 0 <= k < i ==> #[trigger] list@[k] != c,
        decreases list@.len() - i,
    {
        if list[i] == c {
            return true;
        }
        i += 1;
    }
    false
}

fn all_among(a: &Vec<Coord>, b: &Vec<Coord>) -> (r: bool)
    ensures
        r == forall|i: int| 0 <= i < a@.len() ==> b@.contains(#[trigger] a@[i]),
{
    let mut i: usize = 0;
    while i < a.len()
        invariant
            i <= a@.len(),
            forall|k: int| 0 <= k < i ==> b@.contains(#[trigger] a@[k]),
        decreases a@.len() - i,
    {
        if !is_among(a[i], b) {
            return false;
        }
        i += 1;
    }
    true
}

/// Whether two rows of moves are the same.
pub fn same_records(a: &[MoveRecord], b: &[MoveRecord]) -> (r: bool)
    ensures
        r == (record_views(a@) == record_views(b@)),
{
    if a.len() != b.len() {
        assert(record_views(a@).len() != record_views(b@).len());
        return false;
    }
    let mut i: usize = 0;
    while i < a.len()
        invariant
            i <= a@.len(),
            a@.len() == b@.len(),
            forall|k: int| 0 <= k < i ==> (#[trigger] a@[k])@ == b@[k]@,
        decreases a@.len() - i,
    {
        if !a[i].same(&b[i]) {
            assert(record_views(a@)[i as int] != record_views(b@)[i as int]);
            return false;
        }
        i += 1;
    }
    assert(record_views(a@) =~= record_views(b@));
    true
}

/// A copy of a row of moves.
pub fn copy_records(a: &[MoveRecord]) -> (r: Vec<MoveRecord>)
    ensures
        record_views(r@) == record_views(a@),
        r@.len() == a@.len(),
        forall|i: int| 0 <= i < r@.len() ==> (#[trigger] r@[i]).captured@ == a@[i].captured@,
        (forall|i: int| 0 <= i < a@.len() ==> (#[trigger] a@[i]).wf()) ==> forall|i: int|
            0 <= i < r@.len() ==> (#[trigger] r@[i]).wf(),
{
    let mut out: Vec<MoveRecord> = Vec::new();
    let mut i: usize = 0;
    while i < a.len()
        invariant
            i <= a@.len(),
            out@.len() == i,
            forall|k: int|
                0 <= k < i ==> (#[trigger] out@[k])@ == a@[k]@ && out@[k].captured@
                    == a@[k].captured@,
        decreases a@.len() - i,
    {
        out.push(a[i].clone());
        i += 1;
    }
    assert(record_views(out@) =~= record_views(a@));
    assert forall|k: int|
        0 <= k < out@.len() && (forall|j: int|
            0 <= j < a@.len() ==> (#[trigger] a@[j]).wf()) implies (#[trigger] out@[k]).wf() by {
        assert(a@[k].wf());
    }
    out
}

/// Why a starting position cannot be set up.
#[derive(Clone, Copy, PartialEq, Eq, Structural, Debug)]
pub enum SetupError {
    /// A point off the board.
    OffBoard(Coord),
    /// A point given to both colours.
    Conflicting(Coord),
}

impl SetupError {
    /// The message shown to the user.
    pub open spec fn message_spec(self) -> Seq<char> {
        match self {
            SetupError::OffBoard(c) => "摆子坐标 "@ + coord::coord_display(c) + " 超出棋盘范围"@,
            SetupError::Conflicting(c) => "坐标 "@ + coord::coord_display(c)
                + " 被同时摆为黑子与白子"@,
        }
    }

    /// The message shown to the user.
    pub fn message(self) -> (r: String)
        ensures
            r@ == self.message_spec(),
    {
        match self {
            SetupError::OffBoard(c) => {
                let mut out = "摆子坐标 ".to_owned();
                out.append(c.display().as_str());
                out.append(" 超出棋盘范围");
                out
            },
            SetupError::Conflicting(c) => {
                let mut out = "坐标 ".to_owned();
                out.append(c.display().as_str());
                out.append(" 被同时摆为黑子与白子");
                out
            },
        }
    }
}

/// A node of the game tree: a move and the position after it.
#[derive(Clone, Debug)]
pub struct Node {
    record: Option<MoveRecord>,
    parent: Option<usize>,
    children: Vec<usize>,
    grid: Grid,
    depth: usize,
    selected: usize,
    last_depth: usize,
}

impl View for Node {
    type V = NodeView;

    closed spec fn view(&self) -> NodeView {
        NodeView {
            record: match self.record {
                Some(r) => Some(r@),
                None => None,
            },
            parent: self.parent,
            children: self.children@,
            grid: self.grid@,
            depth: self.depth,
            selected: self.selected,
            last_depth: self.last_depth,
        }
    }
}

impl Node {
    /// The node's move lists every stone it took once.
    pub closed spec fn wf(self) -> bool {
        self.record matches Some(r) ==> r.wf()
    }

    /// The move that leads here; `None` for the root.
    pub fn record(&self) -> (r: Option<&MoveRecord>)
        ensures
            r is Some == self@.record is Some,
            r matches Some(m) ==> self@.record == Some(m@) && (self.wf() ==> m.wf()),
    {
        self.record.as_ref()
    }

    /// The parent; `None` for the root.
    pub fn parent(&self) -> (r: Option<usize>)
        ensures
            r == self@.parent,
    {
        self.parent
    }

    /// The children; the first is the main variation.
    pub fn children(&self) -> (r: &[usize])
        ensures
            r@ == self@.children,
    {
        &self.children
    }

    /// The number of moves from the root.
    pub fn depth(&self) -> (r: usize)
        ensures
            r == self@.depth,
    {
        self.depth
    }
}

/// The views of a list of nodes.
pub open spec fn node_views(nodes: Seq<Node>) -> Seq<NodeView> {
    nodes.map_values(|n: Node| n@)
}

/// The views of a list of moves.
pub open spec fn record_views(records: Seq<MoveRecord>) -> Seq<RecordView> {
    records.map_values(|m: MoveRecord| m@)
}

/// A board: the game tree and the cursor.
pub struct Board {
    size: Size,
    root_to_play: Stone,
    nodes: Vec<Node>,
    current: usize,
    /// The moves of the current line.
    line_records: Vec<MoveRecord>,
    captured_by_black: u32,
    captured_by_white: u32,
}

impl View for Board {
    type V = BoardView;

    closed spec fn view(&self) -> BoardView {
        BoardView {
            size: self.size,
            root_to_play: self.root_to_play,
            nodes: node_views(self.nodes@),
            current: self.current,
        }
    }
}

// ---- setting up ----

/// The first point of a list that is off the board.
pub open spec fn first_off(size: Size, s: Seq<Coord>) -> Option<Coord>
    decreases s.len(),
{
    if s.len() == 0 {
        None
    } else if !s[0].on(size) {
        Some(s[0])
    } else {
        first_off(size, s.skip(1))
    }
}

/// The first point of `a` that is also in `b`.
pub open spec fn first_shared(a: Seq<Coord>, b: Seq<Coord>) -> Option<Coord>
    decreases a.len(),
{
    if a.len() == 0 {
        None
    } else if b.contains(a[0]) {
        Some(a[0])
    } else {
        first_shared(a.skip(1), b)
    }
}

/// Whether a point of the list has position `i`.
pub open spec fn at_index(size: Size, s: Seq<Coord>, i: int) -> bool {
    exists|k: int| 0 <= k < s.len() && (#[trigger] s[k]).idx(size) == i
}

/// The starting position: black stones, then white stones, then the points cleared.
pub open spec fn setup_grid(
    size: Size,
    black: Seq<Coord>,
    white: Seq<Coord>,
    removed: Seq<Coord>,
) -> Seq<Option<Stone>> {
    Seq::new(
        size.points(),
        |i: int|
            if at_index(size, removed, i) {
                None
            } else if at_index(size, white, i) {
                Some(Stone::White)
            } else if at_index(size, black, i) {
                Some(Stone::Black)
            } else {
                None
            },
    )
}

/// A board that holds nothing but its starting position.
pub open spec fn fresh_board(size: Size, to_play: Stone, grid: Seq<Option<Stone>>) -> BoardView {
    BoardView {
        size,
        root_to_play: to_play,
        nodes: seq![
            NodeView {
                record: None,
                parent: None,
                children: Seq::empty(),
                grid,
                depth: 0,
                selected: 0,
                last_depth: 0,
            },
        ],
        current: 0,
    }
}

/// What setting up a starting position gives.
pub open spec fn setup_result(
    size: Size,
    black: Seq<Coord>,
    white: Seq<Coord>,
    removed: Seq<Coord>,
    to_play: Stone,
) -> Result<BoardView, SetupError> {
    match first_off(size, black + white + removed) {
        Some(c) => Err(SetupError::OffBoard(c)),
        None => match first_shared(black, white) {
            Some(c) => Err(SetupError::Conflicting(c)),
            None => Ok(fresh_board(size, to_play, setup_grid(size, black, white, removed))),
        },
    }
}

proof fn lemma_first_off_concat(size: Size, a: Seq<Coord>, b: Seq<Coord>)
    ensures
        first_off(size, a + b) == match first_off(size, a) {
            Some(c) => Some(c),
            None => first_off(size, b),
        },
    decreases a.len(),
{
    if a.len() == 0 {
        assert(a + b =~= b);
    } else {
        assert((a + b).skip(1) =~= a.skip(1) + b);
        if a[0].on(size) {
            lemma_first_off_concat(size, a.skip(1), b);
        }
    }
}

fn find_off(size: Size, s: &[Coord]) -> (r: Option<Coord>)
    ensures
        r == first_off(size, s@),
        r is None ==> forall|i: int| 0 <= i < s@.len() ==> (#[trigger] s@[i]).on(size),
{
    let mut i: usize = 0;
    assert(s@.skip(0) =~= s@);
    while i < s.len()
        invariant
            i <= s@.len(),
            first_off(size, s@) == first_off(size, s@.skip(i as int)),
            forall|k: int| 0 <= k < i ==> (#[trigger] s@[k]).on(size),
        decreases s@.len() - i,
    {
        assert(s@.skip(i as int).skip(1) =~= s@.skip(i + 1));
        if !s[i].on_board(size) {
            return Some(s[i]);
        }
        i += 1;
    }
    None
}

fn contains_point(s: &[Coord], c: Coord) -> (r: bool)
    ensures
        r == s@.contains(c),
{
    let mut i: usize = 0;
    while i < s.len()
        invariant
            i <= s@.len(),
            forall|k: int| 0 <= k < i ==> s@[k] != c,
        decreases s@.len() - i,
    {
        if s[i] == c {
            assert(s@[i as int] == c);
            return true;
        }
        i += 1;
    }
    false
}

fn find_shared(a: &[Coord], b: &[Coord]) -> (r: Option<Coord>)
    ensures
        r == first_shared(a@, b@),
{
    let mut i: usize = 0;
    assert(a@.skip(0) =~= a@);
    while i < a.len()
        invariant
            i <= a@.len(),
            first_shared(a@, b@) == first_shared(a@.skip(i as int), b@),
        decreases a@.len() - i,
    {
        assert(a@.skip(i as int).skip(1) =~= a@.skip(i + 1));
        if contains_point(b, a[i]) {
            return Some(a[i]);
        }
        i += 1;
    }
    None
}

/// Puts `value` on every point of `s`.
fn put_all(size: Size, grid: &mut Grid, s: &[Coord], value: Option<Stone>)
    requires
        old(grid)@.len() == size.points(),
        forall|i: int| 0 <= i < s@.len() ==> (#[trigger] s@[i]).on(size),
    ensures
        final(grid)@ == Seq::new(
            old(grid)@.len(),
            |i: int|
                if at_index(size, s@, i) {
                    value
                } else {
                    old(grid)@[i]
                },
        ),
{
    let ghost grid0 = grid@;
    let mut k: usize = 0;
    while k < s.len()
        invariant
            k <= s@.len(),
            grid0.len() == size.points(),
            grid@.len() == grid0.len(),
            forall|i: int| 0 <= i < s@.len() ==> (#[trigger] s@[i]).on(size),
            forall|i: int|
                0 <= i < grid0.len() ==> #[trigger] grid@[i] == if at_index(
                    size,
                    s@.take(k as int),
                    i,
                ) {
                    value
                } else {
                    grid0[i]
                },
        decreases s@.len() - k,
    {
        let c = s[k];
        let ghost grid1 = grid@;
        proof {
            coord::lemma_idx_range(c, size);
        }
        let at = c.index(size);
        grid[at] = value;
        proof {
            let (a, b) = (s@.take(k as int), s@.take(k + 1));
            assert forall|i: int| 0 <= i < grid0.len() implies #[trigger] grid@[i] == if at_index(
                size,
                b,
                i,
            ) {
                value
            } else {
                grid0[i]
            } by {
                if i == c.idx(size) {
                    assert(b[k as int].idx(size) == i);
                } else {
                    assert(grid@[i] == grid1[i]);
                    if at_index(size, a, i) {
                        let m = choose|m: int|
                            0 <= m < a.len() && (#[trigger] a[m]).idx(size) == i;
                        assert(b[m].idx(size) == i);
                    }
                    if at_index(size, b, i) {
                        let m = choose|m: int|
                            0 <= m < b.len() && (#[trigger] b[m]).idx(size) == i;
                        assert(a[m].idx(size) == i);
                    }
                }
            }
        }
        k += 1;
    }
    assert(s@.take(s@.len() as int) =~= s@);
}

fn same_grid(a: &Grid, b: &Grid) -> (r: bool)
    ensures
        r == (a@ == b@),
{
    if a.len() != b.len() {
        return false;
    }
    let mut i: usize = 0;
    while i < a.len()
        invariant
            i <= a@.len(),
            a@.len() == b@.len(),
            forall|k: int| 0 <= k < i ==> a@[k] == b@[k],
        decreases a@.len() - i,
    {
        if a[i] != b[i] {
            assert(a@[i as int] != b@[i as int]);
            return false;
        }
        i += 1;
    }
    assert(a@ =~= b@);
    true
}

/// Where `x` first stands in the list.
fn position_of(list: &Vec<usize>, x: usize) -> (r: Option<usize>)
    ensures
        r is Some == list@.contains(x),
        r matches Some(i) ==> i < list@.len() && list@[i as int] == x && forall|k: int|
            0 <= k < i ==> list@[k] != x,
{
    let mut i: usize = 0;
    while i < list.len()
        invariant
            i <= list@.len(),
            forall|k: int| 0 <= k < i ==> list@[k] != x,
        decreases list@.len() - i,
    {
        if list[i] == x {
            return Some(i);
        }
        i += 1;
    }
    None
}

impl Board {
    /// The tree is well-formed, the cursor is on the current line, and the stored line and counts
    /// of stones taken are those of the tree.
    pub closed spec fn wf(self) -> bool {
        &&& self@.wf()
        &&& self.caches_ok()
    }

    spec fn records_ok(self) -> bool {
        &&& forall|i: int| 0 <= i < self.nodes@.len() ==> (#[trigger] self.nodes@[i]).wf()
    }

    spec fn line_ok(self) -> bool {
        &&& model::is_line(self@.nodes, record_views(self.line_records@))
        &&& forall|i: int|
            0 <= i < self.line_records@.len() ==> (#[trigger] self.line_records@[i]).wf()
    }

    spec fn caches_ok(self) -> bool {
        &&& self.records_ok()
        &&& self.line_ok()
        &&& self.captured_by_black == count_u32(self@, Stone::Black)
        &&& self.captured_by_white == count_u32(self@, Stone::White)
    }
}

/// How the count of stones taken goes on with one more move of the line.
proof fn lemma_taken_step(v: BoardView, records: Seq<MoveRecord>, i: int, color: Stone)
    requires
        v.wf(),
        model::is_line(v.nodes, record_views(records)),
        0 <= i < records.len(),
        records[i].wf(),
    ensures
        records[i].captured@.len() <= 361,
        model::taken_count(record_views(records).take(i + 1), color) == model::taken_count(
            record_views(records).take(i),
            color,
        ) + if records[i].player == color {
            records[i].captured@.len()
        } else {
            0
        },
{
    let nodes = v.nodes;
    let views = record_views(records);
    let r = records[i];
    assert(views[i] == r@);
    r.captured@.unique_seq_to_set();
    let id = model::line_at(nodes, (i + 1) as nat)->0;
    assert(model::line_move(nodes, i, views[i]));
    tree::lemma_line(v.size, v.root_to_play, nodes, (i + 1) as nat);
    assert forall|k: int| 0 <= k < r.captured@.len() implies (#[trigger] r.captured@[k]).on(
        v.size,
    ) by {
        assert(r.captured@.to_set().contains(r.captured@[k]));
        tree::lemma_captured_on_board(
            v.size,
            v.root_to_play,
            nodes,
            id as int,
            r.captured@[k],
        );
    }
    rules::lemma_distinct_points(v.size, r.captured@);
    coord::lemma_points_range(v.size);
    assert(views.take(i + 1).drop_last() =~= views.take(i));
    assert(views.take(i + 1).last() == r@);
}

/// A well-formed board has a well-formed model.
pub proof fn lemma_board_wf(b: Board)
    requires
        b.wf(),
    ensures
        b@.wf(),
{
}

/// The number of stones that `color` has taken up to the cursor, as far as 32 bits hold it.
pub open spec fn count_u32(b: BoardView, color: Stone) -> int {
    (model::taken_count(model::path_records(b.nodes, b.current), color) as int) % 0x1_0000_0000
}

impl Board {
    /// An empty board, Black to move.
    pub fn new(size: Size) -> (r: Self)
        ensures
            r.wf(),
            r@ == fresh_board(size, Stone::Black, Seq::new(size.points(), |i: int| None)),
    {
        let points = size.point_count();
        let grid: Grid = vec![None; points];
        assert(grid@ =~= Seq::new(size.points(), |i: int| None::<Stone>));
        Self::with_root(size, Stone::Black, grid)
    }

    /// A board whose starting position is `grid`.
    fn with_root(size: Size, to_play: Stone, grid: Grid) -> (b: Self)
        requires
            size.wf(),
            grid@.len() == size.points(),
        ensures
            b.wf(),
            b@ == fresh_board(size, to_play, grid@),
    {
        let root = Node {
            record: None,
            parent: None,
            children: Vec::new(),
            grid,
            depth: 0,
            selected: 0,
            last_depth: 0,
        };
        let mut nodes: Vec<Node> = Vec::new();
        nodes.push(root);
        let b = Self {
            size,
            root_to_play: to_play,
            nodes,
            current: 0,
            line_records: Vec::new(),
            captured_by_black: 0,
            captured_by_white: 0,
        };
        proof {
            let v = fresh_board(size, to_play, grid@);
            assert(b@.nodes =~= v.nodes);
            assert(model::line_at(b@.nodes, 0) == Some(0usize));
            assert(model::line_at(b@.nodes, 1) is None);
            assert(model::path_records(b@.nodes, 0).len() == 0);
        }
        b
    }

    /// A board with a starting position. Black stones are put down first, then white ones, then
    /// the points of `removed` are cleared; chains without liberties stay.
    pub fn from_setup(
        size: Size,
        black: &[Coord],
        white: &[Coord],
        removed: &[Coord],
        to_play: Stone,
    ) -> (r: Result<Self, SetupError>)
        ensures
            match setup_result(size, black@, white@, removed@, to_play) {
                Ok(v) => r matches Ok(b) && b.wf() && b@ == v,
                Err(e) => r matches Err(x) && x == e,
            },
    {
        proof {
            use_type_invariant(size);
            lemma_first_off_concat(size, black@, white@);
            lemma_first_off_concat(size, black@ + white@, removed@);
        }
        if let Some(c) = find_off(size, black) {
            return Err(SetupError::OffBoard(c));
        }
        if let Some(c) = find_off(size, white) {
            return Err(SetupError::OffBoard(c));
        }
        if let Some(c) = find_off(size, removed) {
            return Err(SetupError::OffBoard(c));
        }
        if let Some(c) = find_shared(black, white) {
            return Err(SetupError::Conflicting(c));
        }
        let points = size.point_count();
        let mut grid: Grid = vec![None; points];
        put_all(size, &mut grid, black, Some(Stone::Black));
        put_all(size, &mut grid, white, Some(Stone::White));
        put_all(size, &mut grid, removed, None);
        assert(grid@ =~= setup_grid(size, black@, white@, removed@));
        Ok(Self::with_root(size, to_play, grid))
    }

    // ---- moving the cursor ----

    /// The first half of moving the cursor: the nodes from the root to `id` remember the visit.
    fn touch(&mut self, id: usize)
        requires
            model::tree_ok(old(self)@.size, old(self)@.root_to_play, old(self)@.nodes),
            id < old(self)@.nodes.len(),
            old(self).records_ok(),
        ensures
            final(self)@ == (BoardView {
                nodes: model::touched(old(self)@.nodes, id),
                ..old(self)@
            }),
            final(self).records_ok(),
    {
        let ghost v = self@;
        let ghost nodes = v.nodes;
        let depth = self.nodes[id].depth;
        let ghost mut k: nat = 0;
        let mut now: usize = id;
        let mut more = true;
        proof {
            assert(nodes[id as int] == self.nodes@[id as int]@);
        }
        while more
            invariant
                v.nodes == nodes,
                model::tree_ok(v.size, v.root_to_play, nodes),
                id < nodes.len(),
                depth == nodes[id as int].depth,
                self@.size == v.size,
                self@.root_to_play == v.root_to_play,
                self@.current == v.current,
                self.nodes@.len() == nodes.len(),
                self.records_ok(),
                more ==> k <= depth && now == model::up(nodes, id, k) && now < nodes.len(),
                !more ==> k == depth + 1,
                forall|i: int|
                    #![trigger self.nodes@[i]]
                    0 <= i < nodes.len() ==> self.nodes@[i]@ == if nodes[i].last_depth < depth && (
                    exists|j: nat| j < k && #[trigger] model::up(nodes, id, j) == i as usize) {
                        NodeView { last_depth: depth, ..nodes[i] }
                    } else {
                        nodes[i]
                    },
            decreases depth + 1 - k,
        {
            let ghost before = self.nodes@;
            if self.nodes[now].last_depth < depth {
                self.nodes[now].last_depth = depth;
            }
            proof {
                tree::lemma_up_depth(v.size, v.root_to_play, nodes, id, k);
                assert forall|i: int|
                    #![trigger self.nodes@[i]]
                    0 <= i < nodes.len() implies self.nodes@[i]@ == if nodes[i].last_depth < depth
                    && (exists|j: nat| j < k + 1 && #[trigger] model::up(nodes, id, j)
                    == i as usize) {
                    NodeView { last_depth: depth, ..nodes[i] }
                } else {
                    nodes[i]
                } by {
                    if exists|j: nat| j < k && #[trigger] model::up(nodes, id, j) == i as usize {
                        let j = choose|j: nat|
                            j < k && #[trigger] model::up(nodes, id, j) == i as usize;
                        assert(j < k + 1);
                    }
                    assert(before[i]@.last_depth == before[i].last_depth);
                    if i == now {
                        assert(model::up(nodes, id, k) == i as usize);
                    } else {
                        assert(self.nodes@[i] == before[i]);
                    }
                }
                assert(self.nodes@[now as int]@.parent == nodes[now as int].parent);
            }
            match self.nodes[now].parent {
                Some(p) => {
                    proof {
                        if k == depth {
                            tree::lemma_up_root(v.size, v.root_to_play, nodes, id);
                        }
                        tree::lemma_up_depth(v.size, v.root_to_play, nodes, id, k + 1);
                    }
                    now = p;
                },
                None => {
                    more = false;
                },
            }
            proof {
                k = k + 1;
            }
        }
        proof {
            let b = model::touched(nodes, id);
            assert forall|i: int| 0 <= i < nodes.len() implies self@.nodes[i] == b[i] by {
                assert(self.nodes@[i]@ == self@.nodes[i]);
                if model::is_ancestor(nodes, i as usize, id) {
                    let j = choose|j: nat|
                        j <= nodes[id as int].depth && #[trigger] model::up(nodes, id, j)
                            == i as usize;
                    assert(j < k);
                }
            }
            assert(self@.nodes =~= b);
        }
    }

    /// Finds the moves of the current line again.
    fn refresh_line(&mut self)
        requires
            model::tree_ok(old(self)@.size, old(self)@.root_to_play, old(self)@.nodes),
            old(self).records_ok(),
        ensures
            final(self)@ == old(self)@,
            final(self).nodes@ == old(self).nodes@,
            final(self).line_ok(),
    {
        let ghost v = self@;
        let ghost nodes = v.nodes;
        let ghost list = self.nodes@;
        self.line_records.clear();
        let mut cur: usize = 0;
        let mut more = true;
        let ghost mut n: nat = 0;
        assert(nodes.len() == list.len());
        while more
            invariant
                self@ == v,
                v.nodes == nodes,
                self.nodes@ == list,
                nodes == node_views(list),
                forall|i: int| 0 <= i < list.len() ==> (#[trigger] list[i]).wf(),
                model::tree_ok(v.size, v.root_to_play, nodes),
                cur < nodes.len(),
                n == self.line_records@.len(),
                n < nodes.len(),
                model::line_at(nodes, n) == Some(cur),
                !more ==> model::next_of(nodes, cur) is None,
                forall|k: int|
                    0 <= k < n ==> model::line_move(nodes, k, (#[trigger] self.line_records@[k])@)
                        && self.line_records@[k].wf(),
            decreases nodes.len() - n, if more { 1int } else { 0int },
        {
            proof {
                assert(nodes[cur as int] == list[cur as int]@);
                tree::lemma_next(v.size, v.root_to_play, nodes, cur);
            }
            let sel = self.nodes[cur].selected;
            if sel < self.nodes[cur].children.len() {
                let child = self.nodes[cur].children[sel];
                proof {
                    assert(model::next_of(nodes, cur) == Some(child));
                    assert(model::hung(nodes, child as int));
                    assert(nodes[child as int] == list[child as int]@);
                    assert(model::line_at(nodes, n + 1) == Some(child));
                    tree::lemma_line(v.size, v.root_to_play, nodes, n + 1);
                    tree::lemma_depth_bound(v.size, v.root_to_play, nodes, child);
                }
                let ghost lines0 = self.line_records@;
                match &self.nodes[child].record {
                    Some(record) => {
                        let copy = record.clone();
                        proof {
                            assert(copy@ =~= record@);
                            assert(list[child as int].wf());
                            assert(nodes[child as int].record == Some(copy@));
                        }
                        self.line_records.push(copy);
                    },
                    None => {
                        assert(false);
                    },
                }
                proof {
                    n = n + 1;
                    assert forall|k: int| 0 <= k < n implies model::line_move(
                        nodes,
                        k,
                        (#[trigger] self.line_records@[k])@,
                    ) && self.line_records@[k].wf() by {
                        if k < n - 1 {
                            assert(self.line_records@[k] == lines0[k]);
                        } else {
                            assert(model::line_at(nodes, (k + 1) as nat) == Some(child));
                        }
                    }
                }
                cur = child;
            } else {
                more = false;
            }
        }
        proof {
            let views = record_views(self.line_records@);
            assert forall|k: int| 0 <= k < views.len() implies model::line_move(
                nodes,
                k,
                #[trigger] views[k],
            ) by {
                assert(self.line_records@[k]@ == views[k]);
            }
            assert(model::line_at(nodes, n + 1) is None);
        }
    }

    /// Counts the stones taken up to the cursor again.
    fn recount_captures(&mut self)
        requires
            old(self)@.wf(),
            old(self).records_ok(),
            old(self).line_ok(),
        ensures
            final(self)@ == old(self)@,
            final(self).wf(),
    {
        let ghost v = self@;
        let ghost nodes = v.nodes;
        proof {
            assert(nodes[v.current as int] == self.nodes@[v.current as int]@);
        }
        let end = self.nodes[self.current].depth;
        let mut by_black: u32 = 0;
        let mut by_white: u32 = 0;
        let mut i: usize = 0;
        let ghost views = record_views(self.line_records@);
        proof {
            tree::lemma_path_is_line(v.size, v.root_to_play, nodes, v.current, views);
            assert(views.take(0).len() == 0);
        }
        while i < end
            invariant
                self@ == v,
                v.nodes == nodes,
                v.wf(),
                self.records_ok(),
                self.line_ok(),
                views == record_views(self.line_records@),
                i <= end <= self.line_records@.len(),
                end == nodes[v.current as int].depth,
                by_black == (model::taken_count(views.take(i as int), Stone::Black) as int)
                    % 0x1_0000_0000,
                by_white == (model::taken_count(views.take(i as int), Stone::White) as int)
                    % 0x1_0000_0000,
            decreases end - i,
        {
            let count = self.line_records[i].captured.len();
            proof {
                assert(self.line_records@[i as int].wf());
                lemma_taken_step(v, self.line_records@, i as int, Stone::Black);
                lemma_taken_step(v, self.line_records@, i as int, Stone::White);
            }
            match self.line_records[i].player {
                Stone::Black => {
                    by_black = by_black.wrapping_add(count as u32);
                },
                Stone::White => {
                    by_white = by_white.wrapping_add(count as u32);
                },
            }
            i += 1;
        }
        self.captured_by_black = by_black;
        self.captured_by_white = by_white;
    }

    /// Moves the cursor to the node `id` of the current line.
    fn set_current(&mut self, id: usize)
        requires
            model::tree_ok(old(self)@.size, old(self)@.root_to_play, old(self)@.nodes),
            id < old(self)@.nodes.len(),
            model::line_at(old(self)@.nodes, old(self)@.nodes[id as int].depth as nat) == Some(id),
            old(self).records_ok(),
        ensures
            final(self)@ == old(self)@.moved(id),
            final(self).wf(),
    {
        proof {
            tree::lemma_moved(self@, id);
        }
        self.current = id;
        self.touch(id);
        self.refresh_line();
        self.recount_captures();
    }

    // ---- playing ----

    /// The position after playing on `at` and the stones taken, or why the move is illegal.
    fn trial(&self, at: Coord) -> (r: Result<(Grid, Vec<Coord>), IllegalReason>)
        requires
            self.wf(),
        ensures
            match self@.tried(at) {
                Ok((grid, gone)) => r matches Ok((g, c)) && g@ == grid && c@.no_duplicates()
                    && c@.to_set() == gone && g@.len() == self@.size.points(),
                Err(e) => r == Err::<(Grid, Vec<Coord>), IllegalReason>(e),
            },
    {
        let cur = self.current;
        proof {
            assert(self@.here() == self.nodes@[cur as int]@);
            assert(self@.here().grid.len() == self@.size.points());
            if cur != 0 {
                assert(model::hung(self@.nodes, cur as int));
            }
        }
        let mut grid: Grid = self.nodes[cur].grid.clone();
        assert(grid@ =~= self@.here().grid);
        let player = self.to_play();
        let captured = match apply_move(self.size, &mut grid, player, at) {
            Ok(v) => v,
            Err(e) => {
                return Err(e);
            },
        };
        if let Some(parent) = self.nodes[cur].parent {
            proof {
                assert(self@.nodes[parent as int] == self.nodes@[parent as int]@);
            }
            if same_grid(&grid, &self.nodes[parent].grid) {
                return Err(IllegalReason::Ko);
            }
        }
        Ok((grid, captured))
    }

    /// Which child of the cursor's node holds the move `action`.
    fn find_child(&self, action: Action) -> (r: Option<usize>)
        requires
            self.wf(),
        ensures
            r is Some == model::has_child_with(self@.nodes, self@.current, action),
            r matches Some(i) ==> i < self@.here().children.len() && i == model::child_with(
                self@.nodes,
                self@.current,
                action,
            ),
    {
        let cur = self.current;
        let ghost nodes = self@.nodes;
        proof {
            assert(nodes[cur as int] == self.nodes@[cur as int]@);
        }
        let mut i: usize = 0;
        while i < self.nodes[cur].children.len()
            invariant
                self.wf(),
                nodes == self@.nodes,
                cur == self@.current,
                nodes[cur as int] == self.nodes@[cur as int]@,
                i <= nodes[cur as int].children.len(),
                forall|k: int| 0 <= k < i ==> !#[trigger] model::child_is(nodes, cur, action, k),
            decreases nodes[cur as int].children.len() - i,
        {
            let c = self.nodes[cur].children[i];
            proof {
                assert(model::child_of(nodes, nodes[cur as int].children[i as int], cur as int));
                assert(nodes[c as int] == self.nodes@[c as int]@);
                assert(model::hung(nodes, c as int));
            }
            if let Some(record) = &self.nodes[c].record {
                if record.action == action {
                    proof {
                        assert(model::child_is(nodes, cur, action, i as int));
                        let k = choose|k: int| #[trigger] model::child_is(nodes, cur, action, k);
                        assert(model::children_differ(nodes, cur as int));
                        let kids = nodes[cur as int].children;
                        if k < i {
                            assert(!model::child_is(nodes, cur, action, k));
                        } else if k > i {
                            assert(nodes[kids[i as int] as int].record->0.action
                                != nodes[kids[k] as int].record->0.action);
                        }
                    }
                    return Some(i);
                }
            }
            i += 1;
        }
        None
    }

    /// Enters child `i` of the cursor's node.
    fn enter_child(&mut self, i: usize)
        requires
            old(self).wf(),
            i < old(self)@.here().children.len(),
        ensures
            final(self).wf(),
            final(self)@ == old(self)@.choosing(i).moved(old(self)@.here().children[i as int]),
    {
        let cur = self.current;
        let ghost v = self@;
        let ghost list = self.nodes@;
        proof {
            assert(v.here() == list[cur as int]@);
            tree::lemma_select(v.size, v.root_to_play, v.nodes, cur, i);
        }
        self.nodes[cur].selected = i;
        proof {
            assert(self@.nodes =~= v.choosing(i).nodes);
            assert forall|k: int| 0 <= k < self.nodes@.len() implies (
            #[trigger] self.nodes@[k]).wf() by {
                assert(list[k].wf());
            }
        }
        let child = self.nodes[cur].children[i];
        self.set_current(child);
    }

    /// Adds a move below the cursor's node and goes there.
    fn push_node(&mut self, record: MoveRecord, grid: Grid)
        requires
            old(self).wf(),
            record.wf(),
            grid@.len() == old(self)@.size.points(),
            record.player == old(self)@.to_play(),
            !model::has_child_with(old(self)@.nodes, old(self)@.current, record.action),
            match record.action {
                Action::Pass => grid@ == old(self)@.here().grid && record@.captured == Set::<
                    Coord,
                >::empty(),
                Action::Place(at) => old(self)@.tried(at) == Ok::<
                    (Seq<Option<Stone>>, Set<Coord>),
                    IllegalReason,
                >((grid@, record@.captured)),
            },
        ensures
            final(self).wf(),
            final(self)@ == old(self)@.entered(record@, grid@),
    {
        let parent = self.current;
        let id = self.nodes.len();
        let ghost v = self@;
        let ghost list = self.nodes@;
        proof {
            assert(v.here() == list[parent as int]@);
            tree::lemma_depth_bound(v.size, v.root_to_play, v.nodes, parent);
        }
        let depth = self.nodes[parent].depth + 1;
        let ghost rv = record@;
        let ghost gv = grid@;
        self.nodes.push(
            Node {
                record: Some(record),
                parent: Some(parent),
                children: Vec::new(),
                grid,
                depth,
                selected: 0,
                last_depth: depth,
            },
        );
        assert(self.nodes.len() <= usize::MAX);
        proof {
            tree::lemma_grown(v, rv, gv);
            tree::lemma_children_bound(v.size, v.root_to_play, v.nodes, parent);
        }
        self.nodes[parent].selected = self.nodes[parent].children.len();
        self.nodes[parent].children.push(id);
        proof {
            let b = model::grown(v.nodes, parent, rv, gv);
            assert(self.nodes@.len() == list.len() + 1);
            assert(self.nodes@[parent as int]@.children =~= b[parent as int].children);
            assert(self.nodes@[id as int]@.children =~= b[id as int].children);
            assert forall|k: int| 0 <= k < self.nodes@.len() implies self@.nodes[k] == b[k] by {
                assert(self@.nodes[k] == self.nodes@[k]@);
                if k < list.len() && k != parent {
                    assert(self.nodes@[k] == list[k]);
                }
            }
            assert(self@.nodes =~= b);
            assert forall|k: int| 0 <= k < self.nodes@.len() implies (
            #[trigger] self.nodes@[k]).wf() by {
                if k < list.len() {
                    assert(list[k].wf());
                }
            }
        }
        self.set_current(id);
    }

    /// Whether the side to move may play on `at`, and if not, why.
    pub fn is_legal(&self, at: Coord) -> (r: Result<(), IllegalReason>)
        requires
            self.wf(),
        ensures
            match self@.tried(at) {
                Ok(_) => r is Ok,
                Err(e) => r == Err::<(), IllegalReason>(e),
            },
    {
        match self.trial(at) {
            Ok(_) => Ok(()),
            Err(e) => Err(e),
        }
    }

    /// Plays a stone on `at` for the side to move. A variation that starts with that move is
    /// entered if there is one; otherwise a new one is added.
    pub fn play(&mut self, at: Coord) -> (r: Result<(), IllegalReason>)
        requires
            old(self).wf(),
        ensures
            final(self).wf(),
            match old(self)@.played(at) {
                Ok(v) => r is Ok && final(self)@ == v,
                Err(e) => r == Err::<(), IllegalReason>(e) && final(self)@ == old(self)@,
            },
    {
        let (grid, captured) = match self.trial(at) {
            Ok(t) => t,
            Err(e) => {
                return Err(e);
            },
        };
        if let Some(i) = self.find_child(Action::Place(at)) {
            self.enter_child(i);
            return Ok(());
        }
        let player = self.to_play();
        let record = MoveRecord { player, action: Action::Place(at), captured };
        self.push_node(record, grid);
        Ok(())
    }

    /// Passes for the side to move. A variation that starts with a pass is entered if there is
    /// one; otherwise a new one is added.
    pub fn pass(&mut self)
        requires
            old(self).wf(),
        ensures
            final(self).wf(),
            final(self)@ == old(self)@.passed(),
    {
        if let Some(i) = self.find_child(Action::Pass) {
            self.enter_child(i);
            return;
        }
        let cur = self.current;
        proof {
            assert(self@.here() == self.nodes@[cur as int]@);
            assert(self@.here().grid.len() == self@.size.points());
        }
        let player = self.to_play();
        let grid: Grid = self.nodes[cur].grid.clone();
        assert(grid@ =~= self@.here().grid);
        let record = MoveRecord { player, action: Action::Pass, captured: Vec::new() };
        assert(record@.captured =~= Set::<Coord>::empty());
        self.push_node(record, grid);
    }

    // ---- navigation ----

    /// Enters child `i` of the cursor's node and goes on along the selected children as deep as
    /// the cursor has been below that node. `false`, with nothing changed, where there is no such
    /// child.
    pub fn select_child(&mut self, i: usize) -> (r: bool)
        requires
            old(self).wf(),
        ensures
            final(self).wf(),
            r == (i < old(self)@.here().children.len()),
            r ==> final(self)@ == old(self)@.branched(i),
            !r ==> final(self)@ == old(self)@,
    {
        let cur = self.current;
        let ghost v = self@;
        let ghost list = self.nodes@;
        proof {
            assert(v.here() == list[cur as int]@);
        }
        if i >= self.nodes[cur].children.len() {
            return false;
        }
        proof {
            tree::lemma_select(v.size, v.root_to_play, v.nodes, cur, i);
        }
        let child = self.nodes[cur].children[i];
        self.nodes[cur].selected = i;
        let want = self.nodes[cur].last_depth;
        let ghost b = v.choosing(i);
        proof {
            assert(self@.nodes =~= b.nodes);
            assert forall|k: int| 0 <= k < self.nodes@.len() implies (
            #[trigger] self.nodes@[k]).wf() by {
                assert(list[k].wf());
            }
            tree::lemma_descend(b.size, b.root_to_play, b.nodes, child, want as nat);
        }
        let mut node = child;
        let mut more = true;
        while more
            invariant
                self@ == b,
                model::tree_ok(b.size, b.root_to_play, b.nodes),
                node < b.nodes.len(),
                self.records_ok(),
                model::descend(b.nodes, child, want as nat) == model::descend(
                    b.nodes,
                    node,
                    want as nat,
                ),
                !more ==> model::descend(b.nodes, node, want as nat) == node,
            decreases want - b.nodes[node as int].depth, if more { 1int } else { 0int },
        {
            proof {
                assert(b.nodes[node as int] == self.nodes@[node as int]@);
                tree::lemma_next(b.size, b.root_to_play, b.nodes, node);
            }
            let sel = self.nodes[node].selected;
            if self.nodes[node].depth < want && sel < self.nodes[node].children.len() {
                node = self.nodes[node].children[sel];
            } else {
                more = false;
            }
        }
        self.set_current(node);
        true
    }

    /// Enters the next child after the selected one, going round.
    pub fn next_branch(&mut self) -> (r: bool)
        requires
            old(self).wf(),
        ensures
            final(self).wf(),
            r == (old(self)@.here().children.len() > 0),
            r ==> final(self)@ == old(self)@.branched(
                ((old(self)@.here().selected + 1) % (old(self)@.here().children.len() as int)) as usize,
            ),
            !r ==> final(self)@ == old(self)@,
    {
        let cur = self.current;
        proof {
            assert(self@.here() == self.nodes@[cur as int]@);
            assert(model::counters_ok(self@.here()));
        }
        let count = self.nodes[cur].children.len();
        if count == 0 {
            return false;
        }
        let sel = self.nodes[cur].selected;
        let target = if sel + 1 == count {
            0
        } else {
            sel + 1
        };
        proof {
            if sel + 1 == count {
                assert((sel + 1) % (count as int) == 0) by (nonlinear_arith)
                    requires
                        sel + 1 == count,
                        count > 0,
                ;
            } else {
                assert((sel + 1) % (count as int) == sel + 1) by (nonlinear_arith)
                    requires
                        0 <= sel + 1 < count,
                ;
            }
        }
        self.select_child(target)
    }

    /// Enters the child before the selected one, going round.
    pub fn prev_branch(&mut self) -> (r: bool)
        requires
            old(self).wf(),
        ensures
            final(self).wf(),
            r == (old(self)@.here().children.len() > 0),
            r ==> final(self)@ == old(self)@.branched(
                ((old(self)@.here().selected - 1) % (old(self)@.here().children.len() as int)) as usize,
            ),
            !r ==> final(self)@ == old(self)@,
    {
        let cur = self.current;
        proof {
            assert(self@.here() == self.nodes@[cur as int]@);
            assert(model::counters_ok(self@.here()));
        }
        let count = self.nodes[cur].children.len();
        if count == 0 {
            return false;
        }
        let sel = self.nodes[cur].selected;
        let target = if sel == 0 {
            count - 1
        } else {
            sel - 1
        };
        proof {
            if sel == 0 {
                assert((sel - 1) % (count as int) == count - 1) by (nonlinear_arith)
                    requires
                        sel == 0,
                        count > 0,
                ;
            } else {
                assert((sel - 1) % (count as int) == sel - 1) by (nonlinear_arith)
                    requires
                        0 <= sel - 1 < count,
                ;
            }
        }
        self.select_child(target)
    }

    /// Goes to any node; the nodes above it select the way to it. `false`, with nothing changed,
    /// where there is no such node.
    pub fn go_to_node(&mut self, id: usize) -> (r: bool)
        requires
            old(self).wf(),
        ensures
            final(self).wf(),
            r == (id < old(self)@.nodes.len()),
            r ==> final(self)@ == old(self)@.jumped(id),
            !r ==> final(self)@ == old(self)@,
    {
        if id >= self.nodes.len() {
            return false;
        }
        let ghost v = self@;
        let ghost nodes = v.nodes;
        let mut cur = id;
        let mut more = true;
        let ghost mut k: nat = 0;
        while more
            invariant
                v.nodes == nodes,
                v.wf(),
                id < nodes.len(),
                self@.size == v.size,
                self@.root_to_play == v.root_to_play,
                self@.current == v.current,
                self.nodes@.len() == nodes.len(),
                self.records_ok(),
                k <= nodes[id as int].depth,
                cur == model::up(nodes, id, k),
                cur < nodes.len(),
                !more ==> k == nodes[id as int].depth,
                forall|i: int|
                    #![trigger self.nodes@[i]]
                    0 <= i < nodes.len() ==> self.nodes@[i]@ == if exists|j: nat, s: usize|
                        j < k && #[trigger] model::up(nodes, id, j + 1) == i as usize
                            && #[trigger] model::leads_to(nodes, i, s, id) {
                        model::select_path(nodes, id)[i]
                    } else {
                        nodes[i]
                    },
            decreases nodes[id as int].depth - k, if more { 1int } else { 0int },
        {
            let ghost before = self.nodes@;
            proof {
                tree::lemma_up_depth(v.size, v.root_to_play, nodes, id, k);
                assert(self.nodes@[cur as int]@.parent == nodes[cur as int].parent);
            }
            match self.nodes[cur].parent {
                Some(p) => {
                    proof {
                        assert(cur != 0);
                        assert(model::hung(nodes, cur as int));
                        assert(self.nodes@[p as int]@.children == nodes[p as int].children);
                        if k == nodes[id as int].depth {
                            tree::lemma_up_root(v.size, v.root_to_play, nodes, id);
                        }
                    }
                    match position_of(&self.nodes[p].children, cur) {
                        Some(i) => {
                            self.nodes[p].selected = i;
                            proof {
                                assert(model::up(nodes, id, k + 1) == p);
                                assert(model::leads_to(nodes, p as int, i, id));
                                let t = choose|t: usize| #[trigger]
                                    model::leads_to(nodes, p as int, t, id);
                                tree::lemma_one_way_down(
                                    v.size,
                                    v.root_to_play,
                                    nodes,
                                    p as int,
                                    i,
                                    t,
                                    id,
                                );
                                assert forall|x: int|
                                    #![trigger self.nodes@[x]]
                                    0 <= x < nodes.len() implies self.nodes@[x]@ == if exists|
                                    j: nat,
                                    s: usize,
                                |
                                    j < k + 1 && #[trigger] model::up(nodes, id, j + 1)
                                        == x as usize && #[trigger] model::leads_to(
                                        nodes,
                                        x,
                                        s,
                                        id,
                                    ) {
                                    model::select_path(nodes, id)[x]
                                } else {
                                    nodes[x]
                                } by {
                                    assert(before[x]@ == self.nodes@[x]@ || x == p);
                                    if x == p {
                                        assert(model::up(nodes, id, k + 1) == x as usize
                                            && model::leads_to(nodes, x, i, id));
                                        assert(self.nodes@[x]@ =~= model::select_path(
                                            nodes,
                                            id,
                                        )[x]);
                                    } else {
                                        if exists|j: nat, s: usize|
                                            j < k && #[trigger] model::up(nodes, id, j + 1)
                                                == x as usize && #[trigger] model::leads_to(
                                                nodes,
                                                x,
                                                s,
                                                id,
                                            ) {
                                            let (j, s) = choose|j: nat, s: usize|
                                                j < k && #[trigger] model::up(nodes, id, j + 1)
                                                    == x as usize && #[trigger] model::leads_to(
                                                    nodes,
                                                    x,
                                                    s,
                                                    id,
                                                );
                                            assert(j < k + 1 && model::up(nodes, id, j + 1)
                                                == x as usize && model::leads_to(
                                                nodes,
                                                x,
                                                s,
                                                id,
                                            ));
                                        }
                                    }
                                }
                            }
                        },
                        None => {
                            assert(false);
                        },
                    }
                    cur = p;
                    proof {
                        k = k + 1;
                    }
                },
                None => {
                    proof {
                        if k < nodes[id as int].depth {
                            assert(false);
                        }
                    }
                    more = false;
                },
            }
        }
        proof {
            let b = model::select_path(nodes, id);
            assert forall|i: int| 0 <= i < nodes.len() implies self@.nodes[i] == b[i] by {
                assert(self@.nodes[i] == self.nodes@[i]@);
                if exists|s: usize| #[trigger] model::leads_to(nodes, i, s, id) {
                    let s = choose|s: usize| #[trigger] model::leads_to(nodes, i, s, id);
                    let c = nodes[i].children[s as int];
                    assert(model::child_of(nodes, c, i));
                    let j = choose|j: nat|
                        j <= nodes[id as int].depth && #[trigger] model::up(nodes, id, j) == c;
                    tree::lemma_up_depth(v.size, v.root_to_play, nodes, id, j);
                    assert(c != 0);
                    assert(model::hung(nodes, c as int));
                    assert(model::up(nodes, id, j + 1) == i as usize);
                    assert(j < k);
                }
            }
            assert(self@.nodes =~= b);
            tree::lemma_select_path(v.size, v.root_to_play, nodes, id);
        }
        self.set_current(id);
        true
    }

    /// Goes back one move. `false`, with nothing changed, at the root.
    pub fn step_back(&mut self) -> (r: bool)
        requires
            old(self).wf(),
        ensures
            final(self).wf(),
            r == old(self)@.here().parent is Some,
            r ==> final(self)@ == old(self)@.moved(old(self)@.here().parent->0),
            !r ==> final(self)@ == old(self)@,
    {
        let cur = self.current;
        proof {
            assert(self@.here() == self.nodes@[cur as int]@);
            tree::lemma_line(
                self@.size,
                self@.root_to_play,
                self@.nodes,
                self@.here().depth as nat,
            );
        }
        match self.nodes[cur].parent {
            None => false,
            Some(parent) => {
                proof {
                    assert(cur != 0);
                    assert(model::hung(self@.nodes, cur as int));
                }
                self.set_current(parent);
                true
            },
        }
    }

    /// Goes on to the selected child. `false`, with nothing changed, at a leaf.
    pub fn step_forward(&mut self) -> (r: bool)
        requires
            old(self).wf(),
        ensures
            final(self).wf(),
            r == (old(self)@.here().children.len() > 0),
            r ==> final(self)@ == old(self)@.moved(
                old(self)@.here().children[old(self)@.here().selected as int],
            ),
            !r ==> final(self)@ == old(self)@,
    {
        let cur = self.current;
        proof {
            assert(self@.here() == self.nodes@[cur as int]@);
            tree::lemma_next(self@.size, self@.root_to_play, self@.nodes, cur);
        }
        let sel = self.nodes[cur].selected;
        if sel < self.nodes[cur].children.len() {
            let child = self.nodes[cur].children[sel];
            self.set_current(child);
            true
        } else {
            false
        }
    }

    /// The node after `n` moves of the current line.
    fn line_node(&self, n: usize) -> (r: Option<usize>)
        requires
            self.wf(),
        ensures
            r == model::line_at(self@.nodes, n as nat),
            r matches Some(id) ==> id < self@.nodes.len(),
    {
        let mut cur: usize = 0;
        let mut i: usize = 0;
        let ghost nodes = self@.nodes;
        while i < n
            invariant
                self.wf(),
                nodes == self@.nodes,
                i <= n,
                cur < nodes.len(),
                model::line_at(nodes, i as nat) == Some(cur),
            decreases n - i,
        {
            proof {
                assert(nodes[cur as int] == self.nodes@[cur as int]@);
                tree::lemma_next(self@.size, self@.root_to_play, nodes, cur);
            }
            let sel = self.nodes[cur].selected;
            if sel >= self.nodes[cur].children.len() {
                proof {
                    assert(model::line_at(nodes, (i + 1) as nat) is None);
                    tree::lemma_line_short(nodes, (i + 1) as nat, n as nat);
                }
                return None;
            }
            cur = self.nodes[cur].children[sel];
            i += 1;
        }
        Some(cur)
    }

    /// Goes to move `n` of the current line. `false`, with nothing changed, where the line is
    /// shorter.
    pub fn go_to(&mut self, n: usize) -> (r: bool)
        requires
            old(self).wf(),
        ensures
            final(self).wf(),
            r == model::line_at(old(self)@.nodes, n as nat) is Some,
            r ==> final(self)@ == old(self)@.moved(model::line_at(old(self)@.nodes, n as nat)->0),
            !r ==> final(self)@ == old(self)@,
    {
        match self.line_node(n) {
            Some(node) => {
                proof {
                    tree::lemma_line(self@.size, self@.root_to_play, self@.nodes, n as nat);
                }
                self.set_current(node);
                true
            },
            None => false,
        }
    }

    // ---- taking back ----

    /// In the children of node `q`, writes `to` for `from`.
    fn rename_child(&mut self, q: usize, from: usize, to: usize)
        requires
            q < old(self).nodes@.len(),
            old(self).records_ok(),
        ensures
            final(self).records_ok(),
            final(self)@ == (BoardView {
                nodes: old(self)@.nodes.update(
                    q as int,
                    NodeView {
                        children: old(self)@.nodes[q as int].children.map_values(
                            |c: usize|
                                if c == from {
                                    to
                                } else {
                                    c
                                },
                        ),
                        ..old(self)@.nodes[q as int]
                    },
                ),
                ..old(self)@
            }),
    {
        let ghost v = self@;
        let ghost list = self.nodes@;
        let ghost kids = v.nodes[q as int].children;
        let ghost swap = |c: usize|
            if c == from {
                to
            } else {
                c
            };
        let mut i: usize = 0;
        assert(v.nodes[q as int] == list[q as int]@);
        while i < self.nodes[q].children.len()
            invariant
                q < self.nodes@.len(),
                self.nodes@.len() == list.len(),
                v.nodes == node_views(list),
                kids == list[q as int].children@,
                swap == (|c: usize|
                    if c == from {
                        to
                    } else {
                        c
                    }),
                self.size == v.size,
                self.root_to_play == v.root_to_play,
                self.current == v.current,
                self.records_ok(),
                self.nodes@[q as int].children@.len() == kids.len(),
                i <= kids.len(),
                self.nodes@[q as int]@ == (NodeView {
                    children: self.nodes@[q as int].children@,
                    ..list[q as int]@
                }),
                forall|k: int| 0 <= k < list.len() && k != q ==> self.nodes@[k] == list[k],
                forall|k: int|
                    0 <= k < kids.len() ==> #[trigger] self.nodes@[q as int].children@[k] == if k < i {
                        swap(kids[k])
                    } else {
                        kids[k]
                    },
            decreases kids.len() - i,
        {
            if self.nodes[q].children[i] == from {
                self.nodes[q].children[i] = to;
            }
            i += 1;
        }
        proof {
            assert(self.nodes@[q as int].children@ =~= kids.map_values(swap));
            let b = v.nodes.update(
                q as int,
                NodeView { children: kids.map_values(swap), ..v.nodes[q as int] },
            );
            assert(self@.nodes =~= b);
        }
    }

    /// Makes node `to` the parent of all its children.
    fn adopt_children(&mut self, to: usize)
        requires
            to < old(self).nodes@.len(),
            old(self).records_ok(),
            forall|k: int|
                0 <= k < old(self)@.nodes[to as int].children.len() ==> {
                    let c = #[trigger] old(self)@.nodes[to as int].children[k];
                    c < old(self).nodes@.len() && c != to
                },
        ensures
            final(self).records_ok(),
            final(self)@ == (BoardView {
                nodes: Seq::new(
                    old(self)@.nodes.len(),
                    |i: int|
                        if old(self)@.nodes[to as int].children.contains(i as usize) {
                            NodeView { parent: Some(to), ..old(self)@.nodes[i] }
                        } else {
                            old(self)@.nodes[i]
                        },
                ),
                ..old(self)@
            }),
    {
        let ghost v = self@;
        let ghost list = self.nodes@;
        let ghost kids = v.nodes[to as int].children;
        assert(v.nodes[to as int] == list[to as int]@);
        assert(self.nodes.len() <= usize::MAX);
        let mut i: usize = 0;
        while i < self.nodes[to].children.len()
            invariant
                to < list.len() <= usize::MAX,
                self.nodes@.len() == list.len(),
                v.nodes == node_views(list),
                kids == list[to as int].children@,
                self.size == v.size,
                self.root_to_play == v.root_to_play,
                self.current == v.current,
                self.records_ok(),
                self.nodes@[to as int] == list[to as int],
                forall|k: int|
                    0 <= k < kids.len() ==> (#[trigger] kids[k]) < list.len() && kids[k] != to,
                i <= kids.len(),
                forall|k: int|
                    #![trigger self.nodes@[k]]
                    0 <= k < list.len() ==> self.nodes@[k]@ == if kids.take(i as int).contains(
                        k as usize,
                    ) {
                        NodeView { parent: Some(to), ..list[k]@ }
                    } else {
                        list[k]@
                    },
            decreases kids.len() - i,
        {
            let c = self.nodes[to].children[i];
            let ghost before = self.nodes@;
            proof {
                assert(kids[i as int] == c);
            }
            self.nodes[c].parent = Some(to);
            proof {
                let (a, b) = (kids.take(i as int), kids.take(i + 1));
                assert forall|k: int|
                    #![trigger self.nodes@[k]]
                    0 <= k < list.len() implies self.nodes@[k]@ == if b.contains(k as usize) {
                    NodeView { parent: Some(to), ..list[k]@ }
                } else {
                    list[k]@
                } by {
                    assert(before[k]@ == if a.contains(k as usize) {
                        NodeView { parent: Some(to), ..list[k]@ }
                    } else {
                        list[k]@
                    });
                    if k == c {
                        assert(b[i as int] == k as usize);
                    } else {
                        assert(self.nodes@[k] == before[k]);
                        if a.contains(k as usize) {
                            let m = choose|m: int| 0 <= m < a.len() && a[m] == k as usize;
                            assert(b[m] == k as usize);
                        }
                        if b.contains(k as usize) {
                            let m = choose|m: int| 0 <= m < b.len() && b[m] == k as usize;
                            assert(a[m] == k as usize);
                        }
                    }
                }
            }
            i += 1;
        }
        proof {
            assert(kids.take(kids.len() as int) =~= kids);
            let b = Seq::new(
                v.nodes.len(),
                |i: int|
                    if kids.contains(i as usize) {
                        NodeView { parent: Some(to), ..v.nodes[i] }
                    } else {
                        v.nodes[i]
                    },
            );
            assert(self@.nodes =~= b);
        }
    }

    /// Takes back the move at the cursor, which must be at a leaf, and returns it. `None`, with
    /// nothing changed, at the root and where moves follow.
    #[verifier::rlimit(40)]
    pub fn undo(&mut self) -> (r: Option<MoveRecord>)
        requires
            old(self).wf(),
        ensures
            final(self).wf(),
            r is Some == old(self)@.can_undo(),
            r matches Some(m) ==> final(self)@ == old(self)@.undone() && old(self)@.here().record
                == Some(m@) && m.wf(),
            r is None ==> final(self)@ == old(self)@,
    {
        let cur = self.current;
        let ghost v = self@;
        let ghost nodes = v.nodes;
        let ghost list = self.nodes@;
        proof {
            assert(v.here() == list[cur as int]@);
        }
        let parent = match self.nodes[cur].parent {
            None => {
                return None;
            },
            Some(p) => p,
        };
        if self.nodes[cur].children.len() != 0 {
            return None;
        }
        proof {
            assert(cur != 0);
            assert(model::hung(nodes, cur as int));
            assert(nodes[parent as int] == list[parent as int]@);
            assert(list[cur as int].wf());
            tree::lemma_pruned(v);
        }
        let record = match &self.nodes[cur].record {
            None => {
                assert(false);
                return None;
            },
            Some(m) => m.clone(),
        };
        assert(record@ =~= v.here().record->0);
        let last = self.nodes.len() - 1;
        let pos = match position_of(&self.nodes[parent].children, cur) {
            None => {
                assert(false);
                return None;
            },
            Some(i) => i,
        };
        proof {
            let kids = nodes[parent as int].children;
            assert(kids.no_duplicates());
            assert(kids.contains(cur));
            assert(kids[model::place_of(nodes, cur)] == cur);
            assert(pos == model::place_of(nodes, cur));
        }
        self.nodes[parent].children.remove(pos);
        let count = self.nodes[parent].children.len();
        let sel = self.nodes[parent].selected;
        let reselected = if count == 0 {
            0
        } else if sel > pos {
            sel - 1
        } else if sel == pos {
            if pos <= count - 1 {
                pos
            } else {
                count - 1
            }
        } else {
            sel
        };
        self.nodes[parent].selected = reselected;
        proof {
            let cut = tree::cut_off(v);
            assert(self.nodes@[parent as int]@ =~= cut[parent as int]);
            assert(self@.nodes =~= cut);
            assert forall|k: int| 0 <= k < self.nodes@.len() implies (
            #[trigger] self.nodes@[k]).wf() by {
                assert(list[k].wf());
            }
        }
        let ghost list1 = self.nodes@;
        self.nodes.swap_remove(cur);
        proof {
            tree::lemma_swapped(v);
            assert forall|k: int| 0 <= k < self.nodes@.len() implies (
            #[trigger] self.nodes@[k]).wf() by {
                assert(list1[k].wf() && list1[last as int].wf());
            }
            let m = tree::swapped(v);
            assert forall|j: int| 0 <= j < m.len() implies #[trigger] self@.nodes[j] == m[j] by {
                let x = if j == cur {
                    last as int
                } else {
                    j
                };
                assert(self.nodes@[j] == list1[x]);
                assert(tree::cut_off(v)[x] == list1[x]@);
            }
            assert(self@.nodes =~= m);
        }
        if cur != last {
            assert(self@.nodes[cur as int] == self.nodes@[cur as int]@);
            match self.nodes[cur].parent {
                Some(q) => {
                    self.rename_child(q, last, cur);
                },
                None => {
                    assert(false);
                },
            }
            proof {
                assert(self@.nodes =~= tree::reparented(v));
                assert(self@.nodes[cur as int] == tree::swapped(v)[cur as int]);
            }
            self.adopt_children(cur);
            proof {
                tree::lemma_adopted(v);
            }
        }
        assert(self@.nodes == model::pruned(nodes, cur));
        let target = if parent == last {
            cur
        } else {
            parent
        };
        self.set_current(target);
        Some(record)
    }

    // ---- queries ----

    /// The size of the board.
    pub fn size(&self) -> (r: Size)
        ensures
            r == self@.size,
    {
        self.size
    }

    /// Who moves at the cursor.
    pub fn to_play(&self) -> (r: Stone)
        requires
            self.wf(),
        ensures
            r == self@.to_play(),
    {
        proof {
            assert(self@.here() == self.nodes@[self.current as int]@);
        }
        match &self.nodes[self.current].record {
            Some(record) => record.player.opposite(),
            None => self.root_to_play,
        }
    }

    /// The position at the cursor.
    pub fn grid(&self) -> (r: &[Option<Stone>])
        requires
            self.wf(),
        ensures
            r@ == self@.here().grid,
    {
        proof {
            assert(self@.here() == self.nodes@[self.current as int]@);
        }
        &self.nodes[self.current].grid
    }

    /// The stone on a point; `None` where the point is empty or off the board.
    pub fn get(&self, at: Coord) -> (r: Option<Stone>)
        requires
            self.wf(),
        ensures
            r == if at.on(self@.size) {
                self@.here().grid[at.idx(self@.size)]
            } else {
                None
            },
    {
        if at.on_board(self.size) {
            proof {
                assert(self@.here() == self.nodes@[self.current as int]@);
                assert(self@.here().grid.len() == self@.size.points());
                coord::lemma_idx_range(at, self.size);
            }
            self.nodes[self.current].grid[at.index(self.size)]
        } else {
            None
        }
    }

    /// The number of moves in the whole tree.
    pub fn move_count(&self) -> (r: usize)
        requires
            self.wf(),
        ensures
            r == self@.nodes.len() - 1,
    {
        self.nodes.len() - 1
    }

    /// The number of moves from the root to the cursor.
    pub fn cursor(&self) -> (r: usize)
        requires
            self.wf(),
        ensures
            r == self@.here().depth,
            r < usize::MAX,
    {
        proof {
            assert(self@.here() == self.nodes@[self.current as int]@);
            tree::lemma_depth_bound(self@.size, self@.root_to_play, self@.nodes, self@.current);
        }
        self.nodes[self.current].depth
    }

    /// The moves from the root to the cursor.
    pub fn records(&self) -> (r: &[MoveRecord])
        requires
            self.wf(),
        ensures
            r@.len() == self@.here().depth,
            record_views(r@) == model::path_records(self@.nodes, self@.current),
            forall|i: int| 0 <= i < r@.len() ==> (#[trigger] r@[i]).wf(),
    {
        let end = self.cursor();
        proof {
            tree::lemma_path_is_line(
                self@.size,
                self@.root_to_play,
                self@.nodes,
                self@.current,
                record_views(self.line_records@),
            );
        }
        let r = vstd::slice::slice_subrange(self.line_records.as_slice(), 0, end);
        assert(record_views(r@) =~= record_views(self.line_records@).take(end as int));
        r
    }

    /// The moves of the whole current line.
    pub fn line_records(&self) -> (r: &[MoveRecord])
        requires
            self.wf(),
        ensures
            model::is_line(self@.nodes, record_views(r@)),
            forall|i: int| 0 <= i < r@.len() ==> (#[trigger] r@[i]).wf(),
    {
        self.line_records.as_slice()
    }

    /// The number of moves of the current line.
    pub fn line_len(&self) -> (r: usize)
        requires
            self.wf(),
        ensures
            model::line_at(self@.nodes, r as nat) is Some,
            model::line_at(self@.nodes, r as nat + 1) is None,
    {
        assert(record_views(self.line_records@).len() == self.line_records@.len());
        self.line_records.len()
    }

    /// Move `i` (from 0) of the current line.
    pub fn record_at(&self, i: usize) -> (r: Option<&MoveRecord>)
        requires
            self.wf(),
        ensures
            r is Some == model::line_at(self@.nodes, i as nat + 1) is Some,
            r matches Some(m) ==> model::line_move(self@.nodes, i as int, m@) && m.wf(),
    {
        if i < self.line_records.len() {
            proof {
                let views = record_views(self.line_records@);
                assert(model::line_move(self@.nodes, i as int, views[i as int]));
            }
            Some(&self.line_records[i])
        } else {
            proof {
                let n = record_views(self.line_records@).len();
                tree::lemma_line_short(self@.nodes, n + 1, i as nat + 1);
            }
            None
        }
    }

    /// A board that holds the first `n` moves of the current line and nothing else.
    pub fn linear_prefix(&self, n: usize) -> (r: Board)
        requires
            self.wf(),
            model::line_at(self@.nodes, n as nat) is Some,
        ensures
            r.wf(),
            copies::is_prefix(r@, self@, n as nat),
    {
        proof {
            lemma_board_wf(*self);
            assert(self@.nodes[0] == self.nodes@[0]@);
        }
        let grid: Grid = self.nodes[0].grid.clone();
        assert(grid@ =~= self@.nodes[0].grid);
        let mut out = Self::with_root(self.size, self.root_to_play, grid);
        proof {
            copies::lemma_prefix_start(self@);
        }
        let mut i: usize = 0;
        while i < n
            invariant
                i <= n,
                self.wf(),
                self@.wf(),
                model::line_at(self@.nodes, n as nat) is Some,
                out.wf(),
                copies::is_prefix(out@, self@, i as nat),
            decreases n - i,
        {
            proof {
                lemma_board_wf(out);
                if model::line_at(self@.nodes, i as nat + 1) is None {
                    tree::lemma_line_short(self@.nodes, i as nat + 1, n as nat);
                }
                copies::lemma_prefix_next(out@, self@, i as nat);
            }
            if let Some(m) = self.record_at(i) {
                match m.action {
                    Action::Place(at) => {
                        let _ = out.play(at);
                    },
                    Action::Pass => {
                        out.pass();
                    },
                }
            }
            i += 1;
        }
        out
    }

    /// The position after `n` moves of the current line.
    pub fn position_at(&self, n: usize) -> (r: Option<&Grid>)
        requires
            self.wf(),
        ensures
            r is Some == model::line_at(self@.nodes, n as nat) is Some,
            r matches Some(g) ==> g@ == self@.nodes[model::line_at(
                self@.nodes,
                n as nat,
            )->0 as int].grid,
    {
        match self.line_node(n) {
            Some(id) => {
                proof {
                    assert(self@.nodes[id as int] == self.nodes@[id as int]@);
                }
                Some(&self.nodes[id].grid)
            },
            None => None,
        }
    }

    /// How many stones `color` has taken up to the cursor (modulo 2^32).
    pub fn captured_by(&self, color: Stone) -> (r: u32)
        requires
            self.wf(),
        ensures
            r == count_u32(self@, color),
    {
        match color {
            Stone::Black => self.captured_by_black,
            Stone::White => self.captured_by_white,
        }
    }

    /// How many stones `color` has lost up to the cursor (modulo 2^32).
    pub fn lost_by(&self, color: Stone) -> (r: u32)
        requires
            self.wf(),
        ensures
            r == count_u32(self@, color.other()),
    {
        self.captured_by(color.opposite())
    }

    /// The node where the cursor is.
    pub fn current_node(&self) -> (r: usize)
        ensures
            r == self@.current,
    {
        self.current
    }

    /// All nodes of the tree.
    pub fn nodes(&self) -> (r: &[Node])
        ensures
            node_views(r@) == self@.nodes,
            self.wf() ==> forall|i: int| 0 <= i < r@.len() ==> (#[trigger] r@[i]).wf(),
    {
        self.nodes.as_slice()
    }

    /// The number of children of the cursor's node.
    pub fn child_count(&self) -> (r: usize)
        requires
            self.wf(),
        ensures
            r == self@.here().children.len(),
    {
        proof {
            assert(self@.here() == self.nodes@[self.current as int]@);
        }
        self.nodes[self.current].children.len()
    }

    /// The move of child `i` of the cursor's node.
    pub fn child_move(&self, i: usize) -> (r: Option<&MoveRecord>)
        requires
            self.wf(),
        ensures
            r is Some == (i < self@.here().children.len()),
            r matches Some(m) ==> self@.nodes[self@.here().children[i as int] as int].record
                == Some(m@) && m.wf(),
    {
        let ghost nodes = self@.nodes;
        proof {
            assert(self@.here() == self.nodes@[self.current as int]@);
        }
        if i >= self.nodes[self.current].children.len() {
            return None;
        }
        let child = self.nodes[self.current].children[i];
        proof {
            assert(model::child_of(nodes, self@.here().children[i as int], self.current as int));
            assert(nodes[child as int] == self.nodes@[child as int]@);
            assert(child != 0);
            assert(model::hung(nodes, child as int));
        }
        self.nodes[child].record.as_ref()
    }

    /// Which child of the cursor's node is selected (0 where there is none).
    pub fn selected_child(&self) -> (r: usize)
        requires
            self.wf(),
        ensures
            r == self@.here().selected,
    {
        proof {
            assert(self@.here() == self.nodes@[self.current as int]@);
        }
        self.nodes[self.current].selected
    }

    /// Whether the cursor's node has more than one child.
    pub fn is_branch_point(&self) -> (r: bool)
        requires
            self.wf(),
        ensures
            r == (self@.here().children.len() >= 2),
    {
        self.child_count() >= 2
    }

    /// Where the cursor's node stands among the children of its parent; `None` at the root.
    pub fn branch_index(&self) -> (r: Option<usize>)
        requires
            self.wf(),
        ensures
            r is Some == self@.here().parent is Some,
            r matches Some(i) ==> {
                let kids = self@.nodes[self@.here().parent->0 as int].children;
                i < kids.len() && kids[i as int] == self@.current
            },
    {
        let ghost nodes = self@.nodes;
        proof {
            assert(self@.here() == self.nodes@[self.current as int]@);
        }
        match self.nodes[self.current].parent {
            None => None,
            Some(p) => {
                proof {
                    assert(self.current != 0);
                    assert(model::hung(nodes, self.current as int));
                    assert(nodes[p as int] == self.nodes@[p as int]@);
                }
                position_of(&self.nodes[p].children, self.current)
            },
        }
    }

    /// Whether the cursor can go back.
    pub fn can_step_back(&self) -> (r: bool)
        requires
            self.wf(),
        ensures
            r == self@.here().parent is Some,
    {
        proof {
            assert(self@.here() == self.nodes@[self.current as int]@);
        }
        self.nodes[self.current].parent.is_some()
    }

    /// Whether the cursor can go forward.
    pub fn can_step_forward(&self) -> (r: bool)
        requires
            self.wf(),
        ensures
            r == (self@.here().children.len() > 0),
    {
        proof {
            assert(self@.here() == self.nodes@[self.current as int]@);
            assert(model::counters_ok(self@.here()));
        }
        self.nodes[self.current].selected < self.nodes[self.current].children.len()
    }
}

} // verus!
