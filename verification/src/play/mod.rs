//! Playing against the engine: the state of a game, when the engine moves, and when a game is over.
//!
//! The engine moves only on a full search of the position at the end of the current line, never
//! while the user looks at an earlier one.

use vstd::prelude::*;

pub mod laws;
pub mod timer;

use crate::board::{self, coord, model, tree, Action, Board, BoardView, Coord, Size, Stone};
use crate::engine::config::{Difficulty, Rules};
use timer::{Clock, TimeSystem};

verus! {

// ---- handicap ----

/// The line of the corner stars.
pub open spec fn corner_line(size: Size) -> nat {
    if size.side() == 9 {
        2
    } else {
        3
    }
}

/// The points of a handicap: the corners first, then points on the sides, the centre for odd
/// numbers from five on.
pub open spec fn handicap_points(size: Size, handicap: nat) -> Seq<Coord> {
    let c = corner_line(size);
    let f = (size.side() - 1 - c) as nat;
    let m = size.side() / 2;
    let two = seq![Coord::at(c, c), Coord::at(f, f)];
    let three = two.push(Coord::at(c, f));
    let four = three.push(Coord::at(f, c));
    let six = four.push(Coord::at(c, m)).push(Coord::at(f, m));
    let eight = six.push(Coord::at(m, c)).push(Coord::at(m, f));
    let centre = Coord::at(m, m);
    if handicap == 2 {
        two
    } else if handicap == 3 {
        three
    } else if handicap == 4 {
        four
    } else if handicap == 5 {
        four.push(centre)
    } else if handicap == 6 {
        six
    } else if handicap == 7 {
        six.push(centre)
    } else if handicap == 8 {
        eight
    } else if handicap == 9 {
        eight.push(centre)
    } else {
        Seq::empty()
    }
}

fn push_point(out: &mut Vec<Coord>, size: Size, x: u8, y: u8)
    requires
        x < size.side(),
        y < size.side(),
    ensures
        final(out)@ == old(out)@.push(Coord::at(x as nat, y as nat)),
{
    if let Some(c) = Coord::new(size, x, y) {
        proof {
            coord::lemma_coord_at_self(c);
        }
        out.push(c);
    }
}

/// The points of a handicap; none for numbers other than 2 to 9.
pub fn handicap_stones(size: Size, handicap: usize) -> (r: Vec<Coord>)
    ensures
        r@ == handicap_points(size, handicap as nat),
{
    let mut out: Vec<Coord> = Vec::new();
    if handicap < 2 || handicap > 9 {
        assert(out@ =~= handicap_points(size, handicap as nat));
        return out;
    }
    let n = size.n();
    let c: u8 = if n == 9 {
        2
    } else {
        3
    };
    let f = n - 1 - c;
    let m = n / 2;
    push_point(&mut out, size, c, c);
    push_point(&mut out, size, f, f);
    if handicap >= 3 {
        push_point(&mut out, size, c, f);
    }
    if handicap >= 4 {
        push_point(&mut out, size, f, c);
    }
    if handicap >= 6 {
        push_point(&mut out, size, c, m);
        push_point(&mut out, size, f, m);
    }
    if handicap >= 8 {
        push_point(&mut out, size, m, c);
        push_point(&mut out, size, m, f);
    }
    if handicap == 5 || handicap == 7 || handicap == 9 {
        push_point(&mut out, size, m, m);
    }
    assert(out@ =~= handicap_points(size, handicap as nat));
    out
}

/// The points of a handicap are on the board.
pub proof fn lemma_handicap_on(size: Size, handicap: nat)
    requires
        size.wf(),
    ensures
        forall|i: int|
            0 <= i < handicap_points(size, handicap).len() ==> (#[trigger] handicap_points(
                size,
                handicap,
            )[i]).on(size),
{
    let c = corner_line(size);
    let f = (size.side() - 1 - c) as nat;
    let m = size.side() / 2;
    coord::lemma_coord_at(c, c);
    coord::lemma_coord_at(f, f);
    coord::lemma_coord_at(c, f);
    coord::lemma_coord_at(f, c);
    coord::lemma_coord_at(c, m);
    coord::lemma_coord_at(f, m);
    coord::lemma_coord_at(m, c);
    coord::lemma_coord_at(m, f);
    coord::lemma_coord_at(m, m);
}

// ---- games ----

/// How a new game is set up.
#[derive(Debug)]
pub struct GameSetup {
    pub size: Size,
    /// The number as it is written.
    pub komi: String,
    pub handicap: usize,
    /// The human's side.
    pub human: Stone,
    pub difficulty: Difficulty,
    pub time_system: TimeSystem,
    pub rules: Rules,
}

impl Default for GameSetup {
    fn default() -> (r: Self)
        ensures
            r.size == Size::of(19),
            r.komi@ == "7.5"@,
            r.handicap == 0,
            r.human == Stone::Black,
            r.difficulty == Difficulty::Medium,
            r.time_system == TimeSystem::Unlimited,
            r.rules == Rules::Chinese,
    {
        GameSetup {
            size: Size::usual(),
            komi: "7.5".to_owned(),
            handicap: 0,
            human: Stone::Black,
            difficulty: Difficulty::Medium,
            time_system: TimeSystem::Unlimited,
            rules: Rules::Chinese,
        }
    }
}

/// The handicap that a number means: one stone is none, and there are no more than nine.
pub open spec fn handicap_meant(n: usize) -> usize {
    if n < 2 {
        0
    } else if n > 9 {
        9
    } else {
        n
    }
}

impl GameSetup {
    /// The handicap that the number means.
    pub fn effective_handicap(&self) -> (r: usize)
        ensures
            r == handicap_meant(self.handicap),
    {
        if self.handicap < 2 {
            0
        } else if self.handicap > 9 {
            9
        } else {
            self.handicap
        }
    }
}

/// The state of a game.
#[derive(Debug)]
pub struct PlayState {
    /// Whether a game against the engine is on.
    pub mode: bool,
    /// The human's side.
    pub human: Stone,
    /// Who resigned.
    pub resigned: Option<Stone>,
    /// Who lost on time.
    pub timeout_loss: Option<Stone>,
    pub clock: Clock,
    /// Whether the user was told that the engine has no hope.
    pub hopeless_shown: bool,
}

/// The clocks at the start of a game.
pub open spec fn full_clock(system: TimeSystem) -> Clock {
    Clock {
        system,
        black: system.initial_spec(),
        white: system.initial_spec(),
        black_total: 0,
        white_total: 0,
        last_engine_think: None,
    }
}

/// The state of a game that has just begun.
pub open spec fn begun(human: Stone, system: TimeSystem) -> PlayState {
    PlayState {
        mode: true,
        human,
        resigned: None,
        timeout_loss: None,
        clock: full_clock(system),
        hopeless_shown: false,
    }
}

/// The state while there is no game.
pub open spec fn reviewing() -> PlayState {
    PlayState {
        mode: false,
        human: Stone::Black,
        resigned: None,
        timeout_loss: None,
        clock: full_clock(TimeSystem::Unlimited),
        hopeless_shown: true,
    }
}

impl PlayState {
    /// No game: a record is looked at.
    pub fn review() -> (r: Self)
        ensures
            r == reviewing(),
            !r.mode,
            r.human == Stone::Black,
            r.resigned is None,
            r.timeout_loss is None,
            r.clock.system == TimeSystem::Unlimited,
            r.clock.black == TimeSystem::Unlimited.initial_spec(),
            r.clock.white == TimeSystem::Unlimited.initial_spec(),
            r.clock.black_total == 0,
            r.clock.white_total == 0,
            r.hopeless_shown,
    {
        PlayState {
            mode: false,
            human: Stone::Black,
            resigned: None,
            timeout_loss: None,
            clock: Clock::new(TimeSystem::Unlimited),
            hopeless_shown: true,
        }
    }

    /// A new game.
    pub fn new_game(setup: &GameSetup) -> (r: Self)
        ensures
            r == begun(setup.human, setup.time_system),
            r.mode,
            r.human == setup.human,
            r.resigned is None,
            r.timeout_loss is None,
            r.clock.system == setup.time_system,
            r.clock.black == setup.time_system.initial_spec(),
            r.clock.white == setup.time_system.initial_spec(),
            r.clock.black_total == 0,
            r.clock.white_total == 0,
            !r.hopeless_shown,
    {
        PlayState {
            mode: true,
            human: setup.human,
            resigned: None,
            timeout_loss: None,
            clock: Clock::new(setup.time_system),
            hopeless_shown: false,
        }
    }

    /// Whether the game is over: someone resigned, lost on time, or both sides passed.
    pub fn finished(&self, board: &Board) -> (r: bool)
        requires
            board.wf(),
        ensures
            r == (self.resigned is Some || self.timeout_loss is Some || both_passed(board@)),
    {
        self.resigned.is_some() || self.timeout_loss.is_some() || two_passes(board)
    }
}

/// Whether the last two moves up to the cursor are passes of both sides.
pub open spec fn both_passed(b: BoardView) -> bool {
    let rs = model::path_records(b.nodes, b.current);
    let n = rs.len() as int;
    &&& n >= 2
    &&& rs[n - 2].action == Action::Pass
    &&& rs[n - 1].action == Action::Pass
    &&& rs[n - 2].player != rs[n - 1].player
}

/// Whether the last two moves up to the cursor are passes of both sides.
pub fn two_passes(board: &Board) -> (r: bool)
    requires
        board.wf(),
    ensures
        r == both_passed(board@),
{
    let records = board.records();
    let n = records.len();
    let ghost rs = model::path_records(board@.nodes, board@.current);
    assert(rs.len() == n);
    if n < 2 {
        return false;
    }
    proof {
        assert(rs[n - 2] == records@[n - 2]@);
        assert(rs[n - 1] == records@[n - 1]@);
    }
    records[n - 2].is_pass() && records[n - 1].is_pass() && records[n - 2].player != records[n
        - 1].player
}

// ---- the engine's move ----

/// What the engine found: how many moves were played, whether the search is over, and the moves it
/// would play, the best first; `None` is a pass.
#[derive(Debug)]
pub struct Snapshot {
    pub turn: usize,
    pub is_final: bool,
    pub moves: Vec<Option<Coord>>,
}

/// Whether the cursor is at the end of the current line.
pub open spec fn at_end(b: BoardView) -> bool {
    model::line_at(b.nodes, b.here().depth as nat + 1) is None
}

/// Whether the engine may move.
pub open spec fn may_move(mode: bool, human: Stone, b: BoardView, ready: bool) -> bool {
    mode && ready && b.to_play() != human && at_end(b) && !both_passed(b)
}

/// The move that the engine makes, if it moves: the best one of a finished search of this very
/// position.
pub open spec fn engine_action(
    mode: bool,
    human: Stone,
    b: BoardView,
    snapshot: Option<Snapshot>,
    ready: bool,
) -> Option<Action> {
    match snapshot {
        Some(s) => if may_move(mode, human, b, ready) && s.turn == b.here().depth && s.is_final
            && s.moves@.len() > 0 {
            Some(
                match s.moves@[0] {
                    Some(at) => Action::Place(at),
                    None => Action::Pass,
                },
            )
        } else {
            None
        },
        None => None,
    }
}

pub(crate) fn cursor_at_end(b: &Board) -> (r: bool)
    requires
        b.wf(),
    ensures
        r == at_end(b@),
{
    let (d, l) = (b.cursor(), b.line_len());
    proof {
        board::lemma_board_wf(*b);
        let nodes = b@.nodes;
        if d < l {
            if model::line_at(nodes, d as nat + 1) is None {
                tree::lemma_line_short(nodes, d as nat + 1, l as nat);
            }
        } else if l < d {
            tree::lemma_line_short(nodes, l as nat + 1, d as nat);
        }
    }
    d == l
}

/// The move that the engine makes, if it moves.
pub fn engine_move_decision(
    mode: bool,
    human: Stone,
    board: &Board,
    play_snapshot: Option<&Snapshot>,
    engine_ready: bool,
) -> (r: Option<Action>)
    requires
        board.wf(),
    ensures
        r == engine_action(
            mode,
            human,
            board@,
            match play_snapshot {
                Some(s) => Some(*s),
                None => None,
            },
            engine_ready,
        ),
{
    if !mode || !engine_ready || board.to_play() == human || !cursor_at_end(board) || two_passes(
        board,
    ) {
        return None;
    }
    match play_snapshot {
        None => None,
        Some(s) => {
            if s.turn != board.cursor() || !s.is_final || s.moves.len() == 0 {
                return None;
            }
            Some(
                match s.moves[0] {
                    Some(at) => Action::Place(at),
                    None => Action::Pass,
                },
            )
        },
    }
}

// ---- taking back ----

/// The board after taking back to the human's last decision, and whether it is the human's turn
/// then: one move, and one more if that was the engine's.
pub open spec fn back_to_human(b: BoardView, human: Stone) -> (BoardView, bool) {
    if !b.can_undo() {
        (b, false)
    } else if b.undone().to_play() == human {
        (b.undone(), true)
    } else if !b.undone().can_undo() {
        (b.undone(), false)
    } else {
        (b.undone().undone(), b.undone().undone().to_play() == human)
    }
}

/// Takes back to the human's last decision.
pub fn undo_to_human(board: &mut Board, human: Stone) -> (r: bool)
    requires
        old(board).wf(),
    ensures
        final(board).wf(),
        (final(board)@, r) == back_to_human(old(board)@, human),
{
    if board.undo().is_none() {
        return false;
    }
    if board.to_play() == human {
        return true;
    }
    if board.undo().is_none() {
        return false;
    }
    board.to_play() == human
}

// ---- endings ----

/// Whether to tell the user that the engine has no hope: in a game that goes on, once, where a
/// finished search gives the engine no chance (`low`).
pub fn should_show_hopeless(state: &PlayState, low: bool) -> (r: bool)
    ensures
        r == (state.mode && state.resigned is None && !state.hopeless_shown && low),
{
    state.mode && state.resigned.is_none() && !state.hopeless_shown && low
}

/// Takes in that the user was told.
pub fn mark_hopeless_shown(state: &mut PlayState)
    ensures
        final(state).hopeless_shown,
        final(state).mode == old(state).mode,
        final(state).human == old(state).human,
        final(state).resigned == old(state).resigned,
        final(state).timeout_loss == old(state).timeout_loss,
        final(state).clock == old(state).clock,
{
    state.hopeless_shown = true;
}

/// What is said of a game that `side` resigned.
pub fn resign_text(side: Stone) -> (r: String)
    ensures
        r@ == side.other().name_spec() + "方中盘胜"@,
{
    let mut out = side.opposite().name().to_owned();
    out.append("方中盘胜");
    out
}

} // verus!
