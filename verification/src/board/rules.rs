//! The rules on a bare position: chains, liberties, captures and suicide.
//!
//! A position is a row-by-row list of points (see [`Coord::index`]), `None` where a point is
//! empty. History plays no part here; the ko rule needs it and stands with the board.
//!
//! A move first takes every opposing chain that it leaves without a liberty, all of them at once,
//! and only then is checked for suicide. Liberties belong to the whole chain.

use vstd::prelude::*;
use super::coord::{self, Coord, Size};

verus! {

/// A stone, which also names the side that plays it.
#[derive(Clone, Copy, PartialEq, Eq, Structural, Hash, Debug)]
pub enum Stone {
    /// Black.
    Black,
    /// White.
    White,
}

impl Stone {
    /// The other colour.
    pub open spec fn other(self) -> Stone {
        match self {
            Stone::Black => Stone::White,
            Stone::White => Stone::Black,
        }
    }

    /// The other colour.
    pub fn opposite(self) -> (r: Self)
        ensures
            r == self.other(),
    {
        match self {
            Self::Black => Self::White,
            Self::White => Self::Black,
        }
    }

    /// The name shown to the user.
    pub open spec fn name_spec(self) -> Seq<char> {
        match self {
            Stone::Black => "黑"@,
            Stone::White => "白"@,
        }
    }

    /// The name shown to the user.
    pub fn name(self) -> (r: &'static str)
        ensures
            r@ == self.name_spec(),
    {
        match self {
            Self::Black => "黑",
            Self::White => "白",
        }
    }
}

/// Swapping colours twice changes nothing, and swapping once always changes the colour.
pub proof fn law_other_involutive(s: Stone)
    ensures
        s.other().other() == s,
        s.other() != s,
{
}

/// A chain and its liberties, each point listed once.
#[derive(Clone, PartialEq, Eq, Debug)]
pub struct ChainInfo {
    /// The stones of the chain.
    pub stones: Vec<Coord>,
    /// The empty points next to the chain.
    pub liberties: Vec<Coord>,
}

impl ChainInfo {
    /// The number of liberties.
    pub fn liberty_count(&self) -> (r: usize)
        ensures
            r == self.liberties@.len(),
    {
        self.liberties.len()
    }
}

/// Why a move is illegal.
#[derive(Clone, Copy, PartialEq, Eq, Structural, Debug)]
pub enum IllegalReason {
    /// There is a stone on the point.
    Occupied,
    /// The move takes nothing and leaves its own chain without a liberty.
    Suicide,
    /// The move brings back the position before the last move.
    Ko,
    /// The point is off the board.
    OffBoard,
    /// The cursor is not at the last move.
    NotAtLatestMove,
}

impl IllegalReason {
    /// The message shown to the user.
    pub open spec fn message_spec(self) -> Seq<char> {
        match self {
            IllegalReason::Occupied => "该点已有棋子"@,
            IllegalReason::Suicide => "禁着点：落子后自身无气（自杀）"@,
            IllegalReason::Ko => "打劫：不得立即回提，需先在别处落子"@,
            IllegalReason::OffBoard => "坐标超出棋盘"@,
            IllegalReason::NotAtLatestMove => "正在回看历史，不能在历史局面落子"@,
        }
    }

    /// The message shown to the user.
    pub fn message(self) -> (r: &'static str)
        ensures
            r@ == self.message_spec(),
    {
        match self {
            Self::Occupied => "该点已有棋子",
            Self::Suicide => "禁着点：落子后自身无气（自杀）",
            Self::Ko => "打劫：不得立即回提，需先在别处落子",
            Self::OffBoard => "坐标超出棋盘",
            Self::NotAtLatestMove => "正在回看历史，不能在历史局面落子",
        }
    }
}

// ---- chains and liberties ----

/// A walk from point to neighbouring point over stones of one colour.
pub open spec fn is_walk(
    size: Size,
    grid: Seq<Option<Stone>>,
    color: Stone,
    p: Seq<Coord>,
) -> bool {
    &&& p.len() > 0
    &&& forall|i: int|
        0 <= i < p.len() ==> (#[trigger] p[i]).on(size) && grid[p[i].idx(size)] == Some(color)
    &&& forall|i: int| 0 < i < p.len() ==> adjacent_in(#[trigger] p[i], p[i - 1])
}

/// `coord::adjacent`, read from a later point of a walk to the one before it.
pub open spec fn adjacent_in(later: Coord, earlier: Coord) -> bool {
    coord::adjacent(earlier, later)
}

/// Whether stones of colour `color` lead from `a` to `b`.
pub open spec fn linked(
    size: Size,
    grid: Seq<Option<Stone>>,
    color: Stone,
    a: Coord,
    b: Coord,
) -> bool {
    exists|p: Seq<Coord>|
        #[trigger] is_walk(size, grid, color, p) && p[0] == a && p.last() == b
}

/// The chain of `a`: the stones of colour `color` that are linked to it.
pub open spec fn chain(size: Size, grid: Seq<Option<Stone>>, color: Stone, a: Coord) -> Set<Coord> {
    Set::new(|b: Coord| linked(size, grid, color, a, b))
}

/// Whether the empty point `d` is next to the chain of `a`.
pub open spec fn is_liberty(
    size: Size,
    grid: Seq<Option<Stone>>,
    color: Stone,
    a: Coord,
    d: Coord,
) -> bool {
    &&& d.on(size)
    &&& grid[d.idx(size)] is None
    &&& exists|c: Coord| #[trigger] linked(size, grid, color, a, c) && coord::adjacent(c, d)
}

/// The liberties of the chain of `a`.
pub open spec fn liberties(
    size: Size,
    grid: Seq<Option<Stone>>,
    color: Stone,
    a: Coord,
) -> Set<Coord> {
    Set::new(|d: Coord| is_liberty(size, grid, color, a, d))
}

/// Whether the chain of `a` has no liberty.
pub open spec fn breathless(size: Size, grid: Seq<Option<Stone>>, color: Stone, a: Coord) -> bool {
    forall|d: Coord| !#[trigger] is_liberty(size, grid, color, a, d)
}

proof fn lemma_linked_self(size: Size, grid: Seq<Option<Stone>>, color: Stone, a: Coord)
    requires
        a.on(size),
        grid[a.idx(size)] == Some(color),
    ensures
        linked(size, grid, color, a, a),
{
    let p = seq![a];
    assert(is_walk(size, grid, color, p));
}

proof fn lemma_linked_ends(size: Size, grid: Seq<Option<Stone>>, color: Stone, a: Coord, b: Coord)
    requires
        linked(size, grid, color, a, b),
    ensures
        a.on(size),
        b.on(size),
        grid[a.idx(size)] == Some(color),
        grid[b.idx(size)] == Some(color),
{
    let p = choose|p: Seq<Coord>|
        #[trigger] is_walk(size, grid, color, p) && p[0] == a && p.last() == b;
    assert(p[0].on(size) && p[p.len() - 1].on(size));
}

proof fn lemma_linked_step(
    size: Size,
    grid: Seq<Option<Stone>>,
    color: Stone,
    a: Coord,
    b: Coord,
    c: Coord,
)
    requires
        linked(size, grid, color, a, b),
        c.on(size),
        grid[c.idx(size)] == Some(color),
        coord::adjacent(b, c),
    ensures
        linked(size, grid, color, a, c),
{
    let p = choose|p: Seq<Coord>|
        #[trigger] is_walk(size, grid, color, p) && p[0] == a && p.last() == b;
    let q = p.push(c);
    assert forall|i: int| 0 < i < q.len() implies adjacent_in(#[trigger] q[i], q[i - 1]) by {
        if i < p.len() {
            assert(adjacent_in(p[i], p[i - 1]));
        }
    }
    assert forall|i: int| 0 <= i < q.len() implies (#[trigger] q[i]).on(size)
        && grid[q[i].idx(size)] == Some(color) by {
        if i < p.len() {
            assert(p[i].on(size));
        }
    }
    assert(is_walk(size, grid, color, q));
    assert(q[0] == a && q.last() == c);
}

proof fn lemma_linked_sym(size: Size, grid: Seq<Option<Stone>>, color: Stone, a: Coord, b: Coord)
    requires
        linked(size, grid, color, a, b),
    ensures
        linked(size, grid, color, b, a),
{
    let p = choose|p: Seq<Coord>|
        #[trigger] is_walk(size, grid, color, p) && p[0] == a && p.last() == b;
    let q = p.reverse();
    assert forall|i: int| 0 < i < q.len() implies adjacent_in(#[trigger] q[i], q[i - 1]) by {
        assert(q[i] == p[p.len() - 1 - i]);
        assert(adjacent_in(p[p.len() - i], p[p.len() - i - 1]));
    }
    assert forall|i: int| 0 <= i < q.len() implies (#[trigger] q[i]).on(size)
        && grid[q[i].idx(size)] == Some(color) by {
        assert(p[p.len() - 1 - i].on(size));
    }
    assert(is_walk(size, grid, color, q));
    assert(q[0] == b && q.last() == a);
}

proof fn lemma_linked_trans(
    size: Size,
    grid: Seq<Option<Stone>>,
    color: Stone,
    a: Coord,
    b: Coord,
    c: Coord,
)
    requires
        linked(size, grid, color, a, b),
        linked(size, grid, color, b, c),
    ensures
        linked(size, grid, color, a, c),
{
    let p = choose|p: Seq<Coord>|
        #[trigger] is_walk(size, grid, color, p) && p[0] == b && p.last() == c;
    lemma_linked_along(size, grid, color, a, p, p.len() - 1);
}

proof fn lemma_linked_along(
    size: Size,
    grid: Seq<Option<Stone>>,
    color: Stone,
    a: Coord,
    p: Seq<Coord>,
    k: int,
)
    requires
        is_walk(size, grid, color, p),
        linked(size, grid, color, a, p[0]),
        0 <= k < p.len(),
    ensures
        linked(size, grid, color, a, p[k]),
    decreases k,
{
    if k > 0 {
        lemma_linked_along(size, grid, color, a, p, k - 1);
        assert(adjacent_in(p[k], p[k - 1]));
        assert(p[k].on(size));
        lemma_linked_step(size, grid, color, a, p[k - 1], p[k]);
    }
}

/// Stones that are linked have the same chain and the same liberties.
proof fn lemma_same_chain(size: Size, grid: Seq<Option<Stone>>, color: Stone, a: Coord, b: Coord)
    requires
        linked(size, grid, color, a, b),
    ensures
        chain(size, grid, color, a) == chain(size, grid, color, b),
        breathless(size, grid, color, a) == breathless(size, grid, color, b),
{
    lemma_linked_sym(size, grid, color, a, b);
    assert forall|c: Coord|
        linked(size, grid, color, a, c) == linked(size, grid, color, b, c) by {
        if linked(size, grid, color, a, c) {
            lemma_linked_trans(size, grid, color, b, a, c);
        }
        if linked(size, grid, color, b, c) {
            lemma_linked_trans(size, grid, color, a, b, c);
        }
    }
    assert(chain(size, grid, color, a) =~= chain(size, grid, color, b));
    assert forall|d: Coord|
        is_liberty(size, grid, color, a, d) == is_liberty(size, grid, color, b, d) by {
        if is_liberty(size, grid, color, a, d) {
            let c = choose|c: Coord|
                #[trigger] linked(size, grid, color, a, c) && coord::adjacent(c, d);
            assert(linked(size, grid, color, b, c));
        }
        if is_liberty(size, grid, color, b, d) {
            let c = choose|c: Coord|
                #[trigger] linked(size, grid, color, b, c) && coord::adjacent(c, d);
            assert(linked(size, grid, color, a, c));
        }
    }
    if breathless(size, grid, color, a) {
        assert forall|d: Coord| !#[trigger] is_liberty(size, grid, color, b, d) by {
            assert(!is_liberty(size, grid, color, a, d));
        }
    }
    if breathless(size, grid, color, b) {
        assert forall|d: Coord| !#[trigger] is_liberty(size, grid, color, a, d) by {
            assert(!is_liberty(size, grid, color, b, d));
        }
    }
}

/// A list of distinct points of a board is no longer than the board has points.
pub proof fn lemma_distinct_points(size: Size, s: Seq<Coord>)
    requires
        s.no_duplicates(),
        forall|i: int| 0 <= i < s.len() ==> (#[trigger] s[i]).on(size),
    ensures
        s.len() <= size.points(),
{
    let t = s.map_values(|c: Coord| c.idx(size));
    let range = vstd::set_lib::set_int_range(0, size.points() as int);
    assert forall|i: int, j: int| 0 <= i < t.len() && 0 <= j < t.len() && i != j implies t[i]
        != t[j] by {
        if t[i] == t[j] {
            coord::lemma_idx_injective(s[i], s[j], size);
        }
    }
    t.unique_seq_to_set();
    assert forall|x: int| t.to_set().contains(x) implies range.contains(x) by {
        let i = choose|i: int| 0 <= i < t.len() && t[i] == x;
        coord::lemma_idx_range(s[i], size);
    }
    vstd::set_lib::lemma_int_range(0, size.points() as int);
    vstd::set_lib::lemma_len_subset(t.to_set(), range);
}

/// A set of stones that is closed under same-coloured neighbours holds all that is linked to it.
proof fn lemma_closed_holds_chain(
    size: Size,
    grid: Seq<Option<Stone>>,
    color: Stone,
    a: Coord,
    s: Seq<Coord>,
)
    requires
        s.contains(a),
        forall|c: Coord, d: Coord|
            s.contains(c) && #[trigger] coord::adjacent(c, d) && d.on(size)
                && grid[d.idx(size)] == Some(color) ==> s.contains(d),
    ensures
        forall|b: Coord| #[trigger] linked(size, grid, color, a, b) ==> s.contains(b),
{
    assert forall|b: Coord| #[trigger] linked(size, grid, color, a, b) implies s.contains(b) by {
        let p = choose|p: Seq<Coord>|
            #[trigger] is_walk(size, grid, color, p) && p[0] == a && p.last() == b;
        lemma_walk_stays(size, grid, color, p, s, p.len() - 1);
    }
}

proof fn lemma_walk_stays(
    size: Size,
    grid: Seq<Option<Stone>>,
    color: Stone,
    p: Seq<Coord>,
    s: Seq<Coord>,
    k: int,
)
    requires
        is_walk(size, grid, color, p),
        s.contains(p[0]),
        0 <= k < p.len(),
        forall|c: Coord, d: Coord|
            s.contains(c) && #[trigger] coord::adjacent(c, d) && d.on(size)
                && grid[d.idx(size)] == Some(color) ==> s.contains(d),
    ensures
        s.contains(p[k]),
    decreases k,
{
    if k > 0 {
        lemma_walk_stays(size, grid, color, p, s, k - 1);
        assert(adjacent_in(p[k], p[k - 1]));
        assert(coord::adjacent(p[k - 1], p[k]));
        assert(p[k].on(size));
    }
}

/// The flags `seen` mark exactly the points of `s`.
spec fn marks(size: Size, seen: Seq<bool>, s: Seq<Coord>) -> bool {
    forall|c: Coord| #![trigger c.idx(size)] c.on(size) ==> seen[c.idx(size)] == s.contains(c)
}

proof fn lemma_marks_push(size: Size, seen: Seq<bool>, s: Seq<Coord>, d: Coord)
    requires
        marks(size, seen, s),
        d.on(size),
        seen.len() == size.points(),
    ensures
        marks(size, seen.update(d.idx(size), true), s.push(d)),
{
    coord::lemma_idx_range(d, size);
    assert forall|c: Coord| #![trigger c.idx(size)] c.on(size) implies seen.update(
        d.idx(size),
        true,
    )[c.idx(size)] == s.push(d).contains(c) by {
        coord::lemma_idx_range(c, size);
        if c.idx(size) == d.idx(size) {
            coord::lemma_idx_injective(c, d, size);
            assert(s.push(d)[s.len() as int] == c);
        } else {
            assert(seen[c.idx(size)] == s.contains(c));
            if s.contains(c) {
                let i = choose|i: int| 0 <= i < s.len() && s[i] == c;
                assert(s.push(d)[i] == c);
            }
            if s.push(d).contains(c) {
                let i = choose|i: int| 0 <= i < s.push(d).len() && s.push(d)[i] == c;
                assert(s[i] == c);
            }
        }
    }
}

/// Finds the chain of the stone at `start` and the chain's liberties; `None` for an empty point.
pub fn chain_info(size: Size, grid: &[Option<Stone>], start: Coord) -> (r: Option<ChainInfo>)
    requires
        start.on(size),
        grid@.len() >= size.points(),
    ensures
        r is None <==> grid@[start.idx(size)] is None,
        r matches Some(info) ==> {
            let color = grid@[start.idx(size)]->0;
            &&& info.stones@.no_duplicates()
            &&& info.stones@.to_set() == chain(size, grid@, color, start)
            &&& info.liberties@.no_duplicates()
            &&& info.liberties@.to_set() == liberties(size, grid@, color, start)
        },
{
    proof {
        use_type_invariant(size);
        coord::lemma_idx_range(start, size);
    }
    let color = match grid[start.index(size)] {
        None => {
            return None;
        },
        Some(c) => c,
    };
    let points = size.point_count();
    let mut stones: Vec<Coord> = Vec::new();
    let mut found: Vec<Coord> = Vec::new();
    let mut seen_stone: Vec<bool> = vec![false; points];
    let mut seen_liberty: Vec<bool> = vec![false; points];
    let mut stack: Vec<Coord> = Vec::new();
    // Every stone met so far, in the order of meeting: the finished ones and the stack.
    let ghost mut met: Seq<Coord> = Seq::empty();
    proof {
        assert(marks(size, seen_stone@, met)) by {
            assert forall|c: Coord| #![trigger c.idx(size)] c.on(size) implies seen_stone@[c.idx(
                size,
            )] == met.contains(c) by {
                coord::lemma_idx_range(c, size);
            }
        }
        assert(marks(size, seen_liberty@, found@)) by {
            assert forall|c: Coord| #![trigger c.idx(size)] c.on(size) implies seen_liberty@[c.idx(
                size,
            )] == found@.contains(c) by {
                coord::lemma_idx_range(c, size);
            }
        }
        lemma_marks_push(size, seen_stone@, met, start);
        lemma_linked_self(size, grid@, color, start);
        met = met.push(start);
    }
    seen_stone[start.index(size)] = true;
    stack.push(start);
    assert(met[0] == start);
    while stack.len() > 0
        invariant
            size.wf(),
            start.on(size),
            points == size.points(),
            grid@.len() >= points,
            seen_stone@.len() == points,
            seen_liberty@.len() == points,
            met.contains(start),
            met.no_duplicates(),
            marks(size, seen_stone@, met),
            marks(size, seen_liberty@, found@),
            found@.no_duplicates(),
            stones@.len() + stack@.len() == met.len(),
            stones@.no_duplicates(),
            stack@.no_duplicates(),
            forall|d: Coord| #[trigger]
                met.contains(d) <==> stones@.contains(d) || stack@.contains(d),
            forall|d: Coord| stones@.contains(d) ==> !#[trigger] stack@.contains(d),
            forall|d: Coord| #[trigger] met.contains(d) ==> linked(size, grid@, color, start, d),
            forall|d: Coord| #[trigger]
                found@.contains(d) ==> is_liberty(size, grid@, color, start, d),
            forall|d: Coord, e: Coord|
                stones@.contains(d) && #[trigger] coord::adjacent(d, e) && e.on(size) ==> ((
                grid@[e.idx(size)] == Some(color) ==> met.contains(e)) && (grid@[e.idx(
                    size,
                )] is None ==> found@.contains(e))),
        decreases points - stones@.len(),
    {
        let ghost stack0 = stack@;
        let ghost stones0 = stones@;
        let c = stack[stack.len() - 1];
        stack.pop();
        proof {
            assert(stack0.last() == c);
            assert(stack0.contains(c));
            assert(met.contains(c));
            lemma_linked_ends(size, grid@, color, start, c);
            // The finished stones fit on the board.
            assert forall|i: int| 0 <= i < met.len() implies (#[trigger] met[i]).on(size) by {
                assert(met.contains(met[i]));
                lemma_linked_ends(size, grid@, color, start, met[i]);
            }
            lemma_distinct_points(size, met);
        }
        stones.push(c);
        proof {
            assert(stones@[stones0.len() as int] == c);
            assert forall|d: Coord| #[trigger] met.contains(d) <==> stones@.contains(d)
                || stack@.contains(d) by {
                if stack0.contains(d) {
                    let i = choose|i: int| 0 <= i < stack0.len() && stack0[i] == d;
                    if i < stack@.len() {
                        assert(stack@[i] == d);
                    } else {
                        assert(d == c);
                    }
                }
                if stones0.contains(d) {
                    let i = choose|i: int| 0 <= i < stones0.len() && stones0[i] == d;
                    assert(stones@[i] == d);
                }
                if stones@.contains(d) {
                    let i = choose|i: int| 0 <= i < stones@.len() && stones@[i] == d;
                    if i < stones0.len() {
                        assert(stones0[i] == d);
                    }
                }
                if stack@.contains(d) {
                    let i = choose|i: int| 0 <= i < stack@.len() && stack@[i] == d;
                    assert(stack0[i] == d);
                }
            }
            assert forall|d: Coord| stones@.contains(d) implies !#[trigger] stack@.contains(d) by {
                if stack@.contains(d) {
                    let k = choose|k: int| 0 <= k < stack@.len() && stack@[k] == d;
                    assert(stack0[k] == d);
                    assert(stack0.contains(d));
                    let i = choose|i: int| 0 <= i < stones@.len() && stones@[i] == d;
                    if i < stones0.len() {
                        assert(stones0[i] == d);
                        assert(stones0.contains(d));
                    } else {
                        assert(stack0[stack@.len() as int] == d);
                    }
                }
            }
            assert(stones@.no_duplicates()) by {
                assert(!stones0.contains(c));
            }
            use_type_invariant(c);
            coord::lemma_neighbors(c, size);
        }
        let nbs = c.neighbors(size);
        let mut j: usize = 0;
        while j < nbs.len()
            invariant
                size.wf(),
                c.on(size),
                linked(size, grid@, color, start, c),
                points == size.points(),
                grid@.len() >= points,
                seen_stone@.len() == points,
                seen_liberty@.len() == points,
                nbs@ == c.neighbor_seq(size),
                forall|d: Coord|
                    #![trigger nbs@.contains(d)]
                    nbs@.contains(d) <==> d.on(size) && coord::adjacent(c, d),
                j <= nbs@.len(),
                met.contains(start),
                met.no_duplicates(),
                marks(size, seen_stone@, met),
                marks(size, seen_liberty@, found@),
                found@.no_duplicates(),
                stones@.len() + stack@.len() == met.len(),
                stones@.no_duplicates(),
                stones@ == stones0.push(c),
                stack@.no_duplicates(),
                forall|d: Coord| #[trigger]
                    met.contains(d) <==> stones@.contains(d) || stack@.contains(d),
                forall|d: Coord| stones@.contains(d) ==> !#[trigger] stack@.contains(d),
                forall|d: Coord| #[trigger]
                    met.contains(d) ==> linked(size, grid@, color, start, d),
                forall|d: Coord| #[trigger]
                    found@.contains(d) ==> is_liberty(size, grid@, color, start, d),
                forall|d: Coord, e: Coord|
                    stones0.contains(d) && #[trigger] coord::adjacent(d, e) && e.on(size) ==> ((
                    grid@[e.idx(size)] == Some(color) ==> met.contains(e)) && (grid@[e.idx(
                        size,
                    )] is None ==> found@.contains(e))),
                forall|k: int|
                    0 <= k < j ==> ((grid@[(#[trigger] nbs@[k]).idx(size)] == Some(color)
                        ==> met.contains(nbs@[k])) && (grid@[nbs@[k].idx(size)] is None
                        ==> found@.contains(nbs@[k]))),
            decreases nbs@.len() - j,
        {
            let nb = nbs[j];
            assert(nbs@.contains(nbs@[j as int]));
            proof {
                coord::lemma_idx_range(nb, size);
            }
            let at = nb.index(size);
            let ghost met0 = met;
            let ghost found0 = found@;
            let ghost stack1 = stack@;
            match grid[at] {
                Some(s) => {
                    if s == color {
                        if !seen_stone[at] {
                            proof {
                                lemma_linked_step(size, grid@, color, start, c, nb);
                                lemma_marks_push(size, seen_stone@, met, nb);
                                assert(!met.contains(nb));
                                met = met.push(nb);
                                assert(met[met0.len() as int] == nb);
                            }
                            seen_stone[at] = true;
                            stack.push(nb);
                            proof {
                                assert(stack@[stack1.len() as int] == nb);
                                lemma_push_contains(met0, nb);
                                lemma_push_contains(stack1, nb);
                                assert(!stack1.contains(nb));
                                assert(!stones@.contains(nb));
                            }
                        }
                    }
                },
                None => {
                    if !seen_liberty[at] {
                        proof {
                            assert(is_liberty(size, grid@, color, start, nb));
                            lemma_marks_push(size, seen_liberty@, found@, nb);
                            assert(!found@.contains(nb));
                        }
                        seen_liberty[at] = true;
                        found.push(nb);
                        proof {
                            lemma_push_contains(found0, nb);
                        }
                    }
                },
            }
            j += 1;
        }
        proof {
            lemma_push_contains(stones0, c);
            assert forall|d: Coord, e: Coord|
                stones@.contains(d) && #[trigger] coord::adjacent(d, e) && e.on(size) implies ((
            grid@[e.idx(size)] == Some(color) ==> met.contains(e)) && (grid@[e.idx(size)] is None
                ==> found@.contains(e))) by {
                if d == c {
                    assert(nbs@.contains(e));
                    let k = choose|k: int| 0 <= k < nbs@.len() && nbs@[k] == e;
                    assert(nbs@[k] == e);
                } else {
                    assert(stones0.contains(d));
                }
            }
        }
    }
    proof {
        assert forall|d: Coord| #[trigger] met.contains(d) <==> stones@.contains(d) by {}
        assert(stones@.contains(start)) by {
            assert(met.contains(start));
        }
        lemma_closed_holds_chain(size, grid@, color, start, stones@);
        assert(stones@.to_set() =~= chain(size, grid@, color, start)) by {
            assert forall|d: Coord| stones@.contains(d) implies linked(
                size,
                grid@,
                color,
                start,
                d,
            ) by {
                assert(met.contains(d));
            }
        }
        assert forall|d: Coord| is_liberty(size, grid@, color, start, d) implies found@.contains(
            d,
        ) by {
            let c = choose|c: Coord|
                #[trigger] linked(size, grid@, color, start, c) && coord::adjacent(c, d);
            assert(stones@.contains(c));
        }
        assert(found@.to_set() =~= liberties(size, grid@, color, start));
    }
    Some(ChainInfo { stones, liberties: found })
}

proof fn lemma_push_contains(s: Seq<Coord>, x: Coord)
    ensures
        forall|d: Coord| #[trigger] s.push(x).contains(d) <==> s.contains(d) || d == x,
{
    assert forall|d: Coord| #[trigger] s.push(x).contains(d) <==> s.contains(d) || d == x by {
        if s.contains(d) {
            let i = choose|i: int| 0 <= i < s.len() && s[i] == d;
            assert(s.push(x)[i] == d);
        }
        if d == x {
            assert(s.push(x)[s.len() as int] == d);
        }
        if s.push(x).contains(d) {
            let i = choose|i: int| 0 <= i < s.push(x).len() && s.push(x)[i] == d;
            if i < s.len() {
                assert(s[i] == d);
            }
        }
    }
}

// ---- playing a stone ----

/// The opposing stones that a stone of `player` just put on `at` takes: the chains next to it
/// that are left without a liberty. `placed` is the position with that stone on it.
pub open spec fn taken(
    size: Size,
    placed: Seq<Option<Stone>>,
    player: Stone,
    at: Coord,
    c: Coord,
) -> bool {
    exists|nb: Coord|
        {
            &&& nb.on(size)
            &&& #[trigger] coord::adjacent(at, nb)
            &&& linked(size, placed, player.other(), nb, c)
            &&& breathless(size, placed, player.other(), nb)
        }
}

/// The set of stones that the move takes.
pub open spec fn captures(
    size: Size,
    placed: Seq<Option<Stone>>,
    player: Stone,
    at: Coord,
) -> Set<Coord> {
    Set::new(|c: Coord| taken(size, placed, player, at, c))
}

/// The position `grid` without the stones of `gone`.
pub open spec fn without(
    size: Size,
    grid: Seq<Option<Stone>>,
    gone: Set<Coord>,
) -> Seq<Option<Stone>> {
    Seq::new(
        grid.len(),
        |i: int|
            if exists|c: Coord| #[trigger] gone.contains(c) && c.idx(size) == i {
                None
            } else {
                grid[i]
            },
    )
}

/// What comes of `player` playing on `at`: the position after the move and the stones taken, or
/// the reason why the move is illegal. The ko rule is not part of this.
pub open spec fn move_result(
    size: Size,
    grid: Seq<Option<Stone>>,
    player: Stone,
    at: Coord,
) -> Result<(Seq<Option<Stone>>, Set<Coord>), IllegalReason> {
    let placed = grid.update(at.idx(size), Some(player));
    let gone = captures(size, placed, player, at);
    if !at.on(size) {
        Err(IllegalReason::OffBoard)
    } else if grid[at.idx(size)] is Some {
        Err(IllegalReason::Occupied)
    } else if gone == Set::<Coord>::empty() && breathless(size, placed, player, at) {
        Err(IllegalReason::Suicide)
    } else {
        Ok((without(size, placed, gone), gone))
    }
}

/// A stone of the first `k` neighbours' lifeless chains.
spec fn taken_by_first(
    size: Size,
    placed: Seq<Option<Stone>>,
    player: Stone,
    nbs: Seq<Coord>,
    k: int,
    c: Coord,
) -> bool {
    exists|j: int|
        {
            &&& 0 <= j < k
            &&& linked(size, placed, player.other(), #[trigger] nbs[j], c)
            &&& breathless(size, placed, player.other(), nbs[j])
        }
}

/// A stone of the first `k` neighbours' chains.
spec fn near_first(
    size: Size,
    placed: Seq<Option<Stone>>,
    player: Stone,
    nbs: Seq<Coord>,
    k: int,
    c: Coord,
) -> bool {
    exists|j: int|
        0 <= j < k && linked(size, placed, player.other(), #[trigger] nbs[j], c)
}

proof fn lemma_first_none(
    size: Size,
    placed: Seq<Option<Stone>>,
    player: Stone,
    nbs: Seq<Coord>,
    k: int,
)
    requires
        0 <= k < nbs.len(),
        placed[nbs[k].idx(size)] != Some(player.other()),
    ensures
        forall|c: Coord| #[trigger]
            taken_by_first(size, placed, player, nbs, k + 1, c) == taken_by_first(
                size,
                placed,
                player,
                nbs,
                k,
                c,
            ),
        forall|c: Coord| #[trigger]
            near_first(size, placed, player, nbs, k + 1, c) == near_first(
                size,
                placed,
                player,
                nbs,
                k,
                c,
            ),
{
    assert forall|c: Coord| !linked(size, placed, player.other(), nbs[k], c) by {
        if linked(size, placed, player.other(), nbs[k], c) {
            lemma_linked_ends(size, placed, player.other(), nbs[k], c);
        }
    }
    assert forall|c: Coord| #[trigger]
        taken_by_first(size, placed, player, nbs, k + 1, c) == taken_by_first(
            size,
            placed,
            player,
            nbs,
            k,
            c,
        ) by {}
    assert forall|c: Coord| #[trigger]
        near_first(size, placed, player, nbs, k + 1, c) == near_first(
            size,
            placed,
            player,
            nbs,
            k,
            c,
        ) by {}
}

proof fn lemma_first_next(
    size: Size,
    placed: Seq<Option<Stone>>,
    player: Stone,
    nbs: Seq<Coord>,
    k: int,
)
    requires
        0 <= k < nbs.len(),
    ensures
        forall|c: Coord| #[trigger]
            taken_by_first(size, placed, player, nbs, k + 1, c) == (taken_by_first(
                size,
                placed,
                player,
                nbs,
                k,
                c,
            ) || (linked(size, placed, player.other(), nbs[k], c) && breathless(
                size,
                placed,
                player.other(),
                nbs[k],
            ))),
        forall|c: Coord| #[trigger]
            near_first(size, placed, player, nbs, k + 1, c) == (near_first(
                size,
                placed,
                player,
                nbs,
                k,
                c,
            ) || linked(size, placed, player.other(), nbs[k], c)),
{
    let me = nbs[k];
    assert forall|c: Coord| #[trigger]
        taken_by_first(size, placed, player, nbs, k + 1, c) == (taken_by_first(
            size,
            placed,
            player,
            nbs,
            k,
            c,
        ) || (linked(size, placed, player.other(), nbs[k], c) && breathless(
            size,
            placed,
            player.other(),
            nbs[k],
        ))) by {
        if taken_by_first(size, placed, player, nbs, k, c) {
            let j = choose|j: int|
                {
                    &&& 0 <= j < k
                    &&& linked(size, placed, player.other(), #[trigger] nbs[j], c)
                    &&& breathless(size, placed, player.other(), nbs[j])
                };
            assert(0 <= j < k + 1 && linked(size, placed, player.other(), nbs[j], c));
        }
    }
    assert forall|c: Coord| #[trigger]
        near_first(size, placed, player, nbs, k + 1, c) == (near_first(
            size,
            placed,
            player,
            nbs,
            k,
            c,
        ) || linked(size, placed, player.other(), nbs[k], c)) by {
        if near_first(size, placed, player, nbs, k, c) {
            let j = choose|j: int|
                0 <= j < k && linked(size, placed, player.other(), #[trigger] nbs[j], c);
            assert(0 <= j < k + 1 && linked(size, placed, player.other(), nbs[j], c));
        }
    }
}

/// Plays a stone of `player` on `at`: takes every opposing chain left without a liberty, then
/// checks for suicide. Returns the stones taken, in no particular order; on an illegal move the
/// position stays as it was.
pub fn apply_move(
    size: Size,
    grid: &mut [Option<Stone>],
    player: Stone,
    at: Coord,
) -> (r: Result<Vec<Coord>, IllegalReason>)
    requires
        old(grid)@.len() >= size.points(),
    ensures
        final(grid)@.len() == old(grid)@.len(),
        match move_result(size, old(grid)@, player, at) {
            Ok((after, gone)) => {
                &&& final(grid)@ == after
                &&& r matches Ok(v) && v@.no_duplicates() && v@.to_set() == gone
            },
            Err(e) => final(grid)@ == old(grid)@ && r == Err::<Vec<Coord>, IllegalReason>(e),
        },
{
    proof {
        use_type_invariant(size);
    }
    if !at.on_board(size) {
        return Err(IllegalReason::OffBoard);
    }
    let ghost before = grid@;
    proof {
        coord::lemma_idx_range(at, size);
    }
    let here = at.index(size);
    if grid[here].is_some() {
        return Err(IllegalReason::Occupied);
    }
    grid[here] = Some(player);
    let ghost placed = grid@;
    assert(placed =~= before.update(at.idx(size), Some(player)));
    let opponent = player.opposite();
    let points = size.point_count();
    let mut seen: Vec<bool> = vec![false; points];
    let mut gone: Vec<Coord> = Vec::new();
    let nbs = at.neighbors(size);
    proof {
        use_type_invariant(at);
        coord::lemma_neighbors(at, size);
    }
    let mut k: usize = 0;
    proof {
        assert forall|c: Coord| #![trigger c.idx(size)] c.on(size) implies !seen@[c.idx(size)] by {
            coord::lemma_idx_range(c, size);
        }
        assert forall|i: int| 0 <= i < nbs@.len() implies (#[trigger] nbs@[i]).on(size) by {
            assert(nbs@.contains(nbs@[i]));
        }
    }
    while k < nbs.len()
        invariant
            size.wf(),
            grid@ == placed,
            placed.len() >= points,
            points == size.points(),
            opponent == player.other(),
            seen@.len() == points,
            k <= nbs@.len(),
            forall|i: int| 0 <= i < nbs@.len() ==> (#[trigger] nbs@[i]).on(size),
            gone@.no_duplicates(),
            forall|c: Coord| #[trigger]
                gone@.contains(c) <==> taken_by_first(size, placed, player, nbs@, k as int, c),
            forall|c: Coord|
                #![trigger c.idx(size)]
                c.on(size) ==> seen@[c.idx(size)] == near_first(
                    size,
                    placed,
                    player,
                    nbs@,
                    k as int,
                    c,
                ),
        decreases nbs@.len() - k,
    {
        let nb = nbs[k];
        proof {
            coord::lemma_idx_range(nb, size);
        }
        let idx = nb.index(size);
        if grid[idx] != Some(opponent) {
            proof {
                lemma_first_none(size, placed, player, nbs@, k as int);
            }
        } else if seen[idx] {
            proof {
                lemma_first_next(size, placed, player, nbs@, k as int);
                let j = choose|j: int|
                    0 <= j < k && linked(size, placed, player.other(), #[trigger] nbs@[j], nb);
                lemma_same_chain(size, placed, opponent, nbs@[j], nb);
                let a = nbs@[j];
                assert forall|c: Coord| #[trigger]
                    linked(size, placed, opponent, nb, c) == linked(
                        size,
                        placed,
                        opponent,
                        a,
                        c,
                    ) by {
                    assert(chain(size, placed, opponent, nb).contains(c) == chain(
                        size,
                        placed,
                        opponent,
                        a,
                    ).contains(c));
                }
            }
        } else {
            let ghost gone0 = gone@;
            let ghost seen0 = seen@;
            proof {
                lemma_first_next(size, placed, player, nbs@, k as int);
                // No stone of this chain belongs to a chain met before.
                assert forall|c: Coord| #[trigger]
                    linked(size, placed, opponent, nb, c) implies !near_first(
                    size,
                    placed,
                    player,
                    nbs@,
                    k as int,
                    c,
                ) && !gone0.contains(c) by {
                    if near_first(size, placed, player, nbs@, k as int, c) {
                        let j = choose|j: int|
                            0 <= j < k && linked(
                                size,
                                placed,
                                player.other(),
                                #[trigger] nbs@[j],
                                c,
                            );
                        lemma_linked_sym(size, placed, opponent, nb, c);
                        lemma_linked_trans(size, placed, opponent, nbs@[j], c, nb);
                        assert(near_first(size, placed, player, nbs@, k as int, nb));
                        assert(seen@[nb.idx(size)]);
                    }
                    if gone0.contains(c) {
                        assert(taken_by_first(size, placed, player, nbs@, k as int, c));
                    }
                }
            }
            if let Some(info) = chain_info(size, grid, nb) {
                let ghost members = info.stones@;
                proof {
                    assert forall|c: Coord| members.contains(c) == linked(
                        size,
                        placed,
                        opponent,
                        nb,
                        c,
                    ) by {
                        assert(members.to_set().contains(c) == chain(
                            size,
                            placed,
                            opponent,
                            nb,
                        ).contains(c));
                    }
                    assert forall|d: Coord| info.liberties@.contains(d) == is_liberty(
                        size,
                        placed,
                        opponent,
                        nb,
                        d,
                    ) by {
                        assert(info.liberties@.to_set().contains(d) == liberties(
                            size,
                            placed,
                            opponent,
                            nb,
                        ).contains(d));
                    }
                }
                mark_all(size, &mut seen, &info.stones, Ghost(placed), Ghost(opponent), Ghost(nb));
                let dead = info.liberties.len() == 0;
                proof {
                    if dead {
                        assert forall|d: Coord| !#[trigger] is_liberty(
                            size,
                            placed,
                            opponent,
                            nb,
                            d,
                        ) by {
                            assert(!info.liberties@.contains(d));
                        }
                    } else {
                        assert(info.liberties@.contains(info.liberties@[0]));
                        assert(is_liberty(size, placed, opponent, nb, info.liberties@[0]));
                    }
                    assert(dead == breathless(size, placed, opponent, nb));
                }
                if dead {
                    let mut stones = info.stones;
                    gone.append(&mut stones);
                    proof {
                        lemma_append_contains(gone0, members);
                    }
                }
                proof {
                    assert forall|c: Coord| #[trigger]
                        gone@.contains(c) <==> taken_by_first(
                            size,
                            placed,
                            player,
                            nbs@,
                            k + 1,
                            c,
                        ) by {}
                }
            }
        }
        k += 1;
    }
    proof {
        assert forall|c: Coord| #[trigger] gone@.contains(c) <==> taken(
            size,
            placed,
            player,
            at,
            c,
        ) by {
            if taken_by_first(size, placed, player, nbs@, nbs@.len() as int, c) {
                let j = choose|j: int|
                    {
                        &&& 0 <= j < nbs@.len()
                        &&& linked(size, placed, player.other(), #[trigger] nbs@[j], c)
                        &&& breathless(size, placed, player.other(), nbs@[j])
                    };
                assert(nbs@.contains(nbs@[j]));
                assert(coord::adjacent(at, nbs@[j]));
            }
            if taken(size, placed, player, at, c) {
                let nb = choose|nb: Coord|
                    {
                        &&& nb.on(size)
                        &&& #[trigger] coord::adjacent(at, nb)
                        &&& linked(size, placed, player.other(), nb, c)
                        &&& breathless(size, placed, player.other(), nb)
                    };
                assert(nbs@.contains(nb));
                let j = choose|j: int| 0 <= j < nbs@.len() && nbs@[j] == nb;
                assert(linked(size, placed, player.other(), nbs@[j], c));
            }
        }
        assert(gone@.to_set() =~= captures(size, placed, player, at));
        assert forall|c: Coord| gone@.contains(c) implies c.on(size) by {
            assert(taken(size, placed, player, at, c));
            let nb = choose|nb: Coord|
                {
                    &&& nb.on(size)
                    &&& #[trigger] coord::adjacent(at, nb)
                    &&& linked(size, placed, player.other(), nb, c)
                    &&& breathless(size, placed, player.other(), nb)
                };
            lemma_linked_ends(size, placed, player.other(), nb, c);
        }
    }
    if gone.len() == 0 {
        proof {
            assert(captures(size, placed, player, at) =~= Set::<Coord>::empty());
        }
        if let Some(info) = chain_info(size, grid, at) {
            proof {
                assert forall|d: Coord| info.liberties@.contains(d) == is_liberty(
                    size,
                    placed,
                    player,
                    at,
                    d,
                ) by {
                    assert(info.liberties@.to_set().contains(d) == liberties(
                        size,
                        placed,
                        player,
                        at,
                    ).contains(d));
                }
            }
            if info.liberties.len() == 0 {
                grid[here] = None;
                assert(grid@ =~= before);
                assert forall|d: Coord| !#[trigger] is_liberty(size, placed, player, at, d) by {
                    assert(!info.liberties@.contains(d));
                }
                return Err(IllegalReason::Suicide);
            }
            assert(info.liberties@.contains(info.liberties@[0]));
            assert(is_liberty(size, placed, player, at, info.liberties@[0]));
        }
    } else {
        assert(gone@.contains(gone@[0]));
        assert(captures(size, placed, player, at).contains(gone@[0]));
    }
    clear_all(size, grid, &gone);
    assert(grid@ =~= without(size, placed, captures(size, placed, player, at)));
    Ok(gone)
}

/// Marks the points of `stones`, the chain of `nb`.
fn mark_all(
    size: Size,
    seen: &mut Vec<bool>,
    stones: &Vec<Coord>,
    Ghost(placed): Ghost<Seq<Option<Stone>>>,
    Ghost(color): Ghost<Stone>,
    Ghost(nb): Ghost<Coord>,
)
    requires
        old(seen)@.len() == size.points(),
        forall|c: Coord| stones@.contains(c) == linked(size, placed, color, nb, c),
    ensures
        final(seen)@.len() == old(seen)@.len(),
        forall|c: Coord|
            #![trigger c.idx(size)]
            c.on(size) ==> final(seen)@[c.idx(size)] == (old(seen)@[c.idx(size)] || linked(
                size,
                placed,
                color,
                nb,
                c,
            )),
{
    let ghost seen0 = seen@;
    let mut i: usize = 0;
    while i < stones.len()
        invariant
            i <= stones@.len(),
            seen@.len() == seen0.len(),
            seen0.len() == size.points(),
            forall|c: Coord| stones@.contains(c) == linked(size, placed, color, nb, c),
            forall|c: Coord|
                #![trigger c.idx(size)]
                c.on(size) ==> seen@[c.idx(size)] == (seen0[c.idx(size)] || stones@.take(
                    i as int,
                ).contains(c)),
        decreases stones@.len() - i,
    {
        let s = stones[i];
        let ghost seen1 = seen@;
        proof {
            assert(stones@.contains(s));
            lemma_linked_ends(size, placed, color, nb, s);
            coord::lemma_idx_range(s, size);
        }
        let at = s.index(size);
        seen[at] = true;
        proof {
            assert(stones@.take(i + 1) =~= stones@.take(i as int).push(s));
            lemma_push_contains(stones@.take(i as int), s);
            assert forall|c: Coord| #![trigger c.idx(size)] c.on(size) implies seen@[c.idx(size)]
                == (seen0[c.idx(size)] || stones@.take(i + 1).contains(c)) by {
                coord::lemma_idx_range(c, size);
                assert(seen1[c.idx(size)] == (seen0[c.idx(size)] || stones@.take(
                    i as int,
                ).contains(c)));
                if c.idx(size) == s.idx(size) {
                    coord::lemma_idx_injective(c, s, size);
                }
            }
        }
        i += 1;
    }
    assert(stones@.take(stones@.len() as int) =~= stones@);
}

/// Empties the points of `gone`.
fn clear_all(size: Size, grid: &mut [Option<Stone>], gone: &Vec<Coord>)
    requires
        old(grid)@.len() >= size.points(),
        forall|c: Coord| gone@.contains(c) ==> c.on(size),
    ensures
        final(grid)@ == without(size, old(grid)@, gone@.to_set()),
{
    let ghost grid0 = grid@;
    let mut i: usize = 0;
    assert(grid@ =~= without(size, grid0, gone@.take(0).to_set()));
    while i < gone.len()
        invariant
            i <= gone@.len(),
            grid0.len() >= size.points(),
            forall|c: Coord| gone@.contains(c) ==> c.on(size),
            grid@ == without(size, grid0, gone@.take(i as int).to_set()),
        decreases gone@.len() - i,
    {
        let c = gone[i];
        let ghost grid1 = grid@;
        proof {
            assert(gone@.contains(c));
            coord::lemma_idx_range(c, size);
        }
        let at = c.index(size);
        grid[at] = None;
        proof {
            let s0 = gone@.take(i as int);
            let s1 = gone@.take(i + 1);
            assert(s1 =~= s0.push(c));
            lemma_push_contains(s0, c);
            assert forall|k: int| 0 <= k < grid0.len() implies grid@[k] == without(
                size,
                grid0,
                s1.to_set(),
            )[k] by {
                if k == c.idx(size) {
                    assert(s1.to_set().contains(c));
                } else {
                    assert(grid@[k] == grid1[k]);
                    if exists|d: Coord| #[trigger] s0.to_set().contains(d) && d.idx(size) == k {
                        let d = choose|d: Coord| #[trigger]
                            s0.to_set().contains(d) && d.idx(size) == k;
                        assert(s1.to_set().contains(d));
                    }
                    if exists|d: Coord| #[trigger] s1.to_set().contains(d) && d.idx(size) == k {
                        let d = choose|d: Coord| #[trigger]
                            s1.to_set().contains(d) && d.idx(size) == k;
                        assert(s0.to_set().contains(d));
                    }
                }
            }
            assert(grid@ =~= without(size, grid0, s1.to_set()));
        }
        i += 1;
    }
    assert(gone@.take(gone@.len() as int) =~= gone@);
}

proof fn lemma_append_contains(a: Seq<Coord>, b: Seq<Coord>)
    requires
        a.no_duplicates(),
        b.no_duplicates(),
        forall|c: Coord| b.contains(c) ==> !a.contains(c),
    ensures
        (a + b).no_duplicates(),
        forall|c: Coord| #[trigger] (a + b).contains(c) <==> a.contains(c) || b.contains(c),
{
    let s = a + b;
    assert forall|c: Coord| #[trigger] s.contains(c) <==> a.contains(c) || b.contains(c) by {
        if a.contains(c) {
            let i = choose|i: int| 0 <= i < a.len() && a[i] == c;
            assert(s[i] == c);
        }
        if b.contains(c) {
            let i = choose|i: int| 0 <= i < b.len() && b[i] == c;
            assert(s[a.len() + i] == c);
        }
        if s.contains(c) {
            let i = choose|i: int| 0 <= i < s.len() && s[i] == c;
            if i < a.len() {
                assert(a[i] == c);
            } else {
                assert(b[i - a.len()] == c);
            }
        }
    }
    assert forall|i: int, j: int| 0 <= i < s.len() && 0 <= j < s.len() && i != j implies s[i]
        != s[j] by {
        if i < a.len() && j >= a.len() {
            assert(a.contains(a[i]) && b.contains(b[j - a.len()]));
        }
        if j < a.len() && i >= a.len() {
            assert(a.contains(a[j]) && b.contains(b[i - a.len()]));
        }
    }
}

/// A move takes stones of the other colour only.
pub proof fn law_only_opponent_taken(
    size: Size,
    grid: Seq<Option<Stone>>,
    player: Stone,
    at: Coord,
    c: Coord,
)
    requires
        move_result(size, grid, player, at) matches Ok((after, gone)) && gone.contains(c),
        grid.len() >= size.points(),
    ensures
        c.on(size),
        c != at,
        grid[c.idx(size)] == Some(player.other()),
{
    let placed = grid.update(at.idx(size), Some(player));
    coord::lemma_idx_range(at, size);
    assert(taken(size, placed, player, at, c));
    let nb = choose|nb: Coord|
        {
            &&& nb.on(size)
            &&& #[trigger] coord::adjacent(at, nb)
            &&& linked(size, placed, player.other(), nb, c)
            &&& breathless(size, placed, player.other(), nb)
        };
    lemma_linked_ends(size, placed, player.other(), nb, c);
    coord::lemma_idx_range(c, size);
}

/// A legal move changes the point played on and the points of the stones it takes, nothing else.
pub proof fn law_move_changes_little(
    size: Size,
    grid: Seq<Option<Stone>>,
    player: Stone,
    at: Coord,
    c: Coord,
)
    requires
        c.on(size),
        grid.len() >= size.points(),
        move_result(size, grid, player, at) is Ok,
    ensures
        ({
            let (after, gone) = move_result(size, grid, player, at)->Ok_0;
            after[c.idx(size)] == if c == at {
                Some(player)
            } else if gone.contains(c) {
                None
            } else {
                grid[c.idx(size)]
            }
        }),
{
    let (after, gone) = move_result(size, grid, player, at)->Ok_0;
    let placed = grid.update(at.idx(size), Some(player));
    coord::lemma_idx_range(at, size);
    coord::lemma_idx_range(c, size);
    if exists|d: Coord| #[trigger] gone.contains(d) && d.idx(size) == c.idx(size) {
        let d = choose|d: Coord| #[trigger] gone.contains(d) && d.idx(size) == c.idx(size);
        law_only_opponent_taken(size, grid, player, at, d);
        coord::lemma_idx_injective(c, d, size);
    }
    if c.idx(size) == at.idx(size) {
        coord::lemma_idx_injective(c, at, size);
    }
    if gone.contains(c) {
        law_only_opponent_taken(size, grid, player, at, c);
    }
}

/// After a legal move the chain of the stone played has a liberty.
pub proof fn law_move_has_liberty(
    size: Size,
    grid: Seq<Option<Stone>>,
    player: Stone,
    at: Coord,
)
    requires
        grid.len() >= size.points(),
        move_result(size, grid, player, at) is Ok,
    ensures
        !breathless(size, move_result(size, grid, player, at)->Ok_0.0, player, at),
{
    let (after, gone) = move_result(size, grid, player, at)->Ok_0;
    let placed = grid.update(at.idx(size), Some(player));
    coord::lemma_idx_range(at, size);
    if gone == Set::<Coord>::empty() {
        assert(after =~= placed);
    } else {
        assert(exists|c: Coord| gone.contains(c)) by {
            if forall|c: Coord| !gone.contains(c) {
                assert(gone =~= Set::<Coord>::empty());
            }
        }
        let c = choose|c: Coord| gone.contains(c);
        assert(taken(size, placed, player, at, c));
        let nb = choose|nb: Coord|
            {
                &&& nb.on(size)
                &&& #[trigger] coord::adjacent(at, nb)
                &&& linked(size, placed, player.other(), nb, c)
                &&& breathless(size, placed, player.other(), nb)
            };
        lemma_linked_ends(size, placed, player.other(), nb, c);
        lemma_linked_self(size, placed, player.other(), nb);
        assert(taken(size, placed, player, at, nb));
        assert(gone.contains(nb));
        law_move_changes_little(size, grid, player, at, nb);
        law_move_changes_little(size, grid, player, at, at);
        law_only_opponent_taken(size, grid, player, at, nb);
        lemma_linked_self(size, after, player, at);
        assert(is_liberty(size, after, player, at, nb));
    }
}

// ---- what chains are ----

/// A chain holds its first stone and stones of its colour only, and with each stone every stone of
/// that colour next to it.
pub proof fn law_chain_grows(size: Size, grid: Seq<Option<Stone>>, color: Stone, a: Coord)
    requires
        a.on(size),
        grid[a.idx(size)] == Some(color),
    ensures
        chain(size, grid, color, a).contains(a),
        forall|c: Coord| #[trigger]
            chain(size, grid, color, a).contains(c) ==> c.on(size) && grid[c.idx(size)] == Some(
                color,
            ),
        forall|c: Coord, d: Coord|
            chain(size, grid, color, a).contains(c) && #[trigger] coord::steps_apart(c, d) == 1
                && d.on(size) && grid[d.idx(size)] == Some(color) ==> chain(
                size,
                grid,
                color,
                a,
            ).contains(d),
{
    lemma_linked_self(size, grid, color, a);
    assert forall|c: Coord| #[trigger] chain(size, grid, color, a).contains(c) implies c.on(size)
        && grid[c.idx(size)] == Some(color) by {
        lemma_linked_ends(size, grid, color, a, c);
    }
    assert forall|c: Coord, d: Coord|
        chain(size, grid, color, a).contains(c) && #[trigger] coord::steps_apart(c, d) == 1
            && d.on(size) && grid[d.idx(size)] == Some(color) implies chain(
        size,
        grid,
        color,
        a,
    ).contains(d) by {
        coord::law_adjacent_is_one_step(c, d);
        lemma_linked_step(size, grid, color, a, c, d);
    }
}

/// A chain holds nothing that need not be in it: any set that holds its first stone, and with each
/// stone every stone of the colour next to it, holds the whole chain.
pub proof fn law_chain_is_least(
    size: Size,
    grid: Seq<Option<Stone>>,
    color: Stone,
    a: Coord,
    s: Set<Coord>,
)
    requires
        s.contains(a),
        forall|c: Coord, d: Coord|
            s.contains(c) && #[trigger] coord::steps_apart(c, d) == 1 && d.on(size)
                && grid[d.idx(size)] == Some(color) ==> s.contains(d),
    ensures
        chain(size, grid, color, a).subset_of(s),
{
    assert forall|b: Coord| #[trigger] chain(size, grid, color, a).contains(b) implies s.contains(
        b,
    ) by {
        let p = choose|p: Seq<Coord>|
            #[trigger] is_walk(size, grid, color, p) && p[0] == a && p.last() == b;
        lemma_walk_within(size, grid, color, p, s, p.len() - 1);
    }
}

proof fn lemma_walk_within(
    size: Size,
    grid: Seq<Option<Stone>>,
    color: Stone,
    p: Seq<Coord>,
    s: Set<Coord>,
    k: int,
)
    requires
        is_walk(size, grid, color, p),
        s.contains(p[0]),
        0 <= k < p.len(),
        forall|c: Coord, d: Coord|
            s.contains(c) && #[trigger] coord::steps_apart(c, d) == 1 && d.on(size)
                && grid[d.idx(size)] == Some(color) ==> s.contains(d),
    ensures
        s.contains(p[k]),
    decreases k,
{
    if k > 0 {
        lemma_walk_within(size, grid, color, p, s, k - 1);
        assert(adjacent_in(p[k], p[k - 1]));
        coord::law_adjacent_is_one_step(p[k - 1], p[k]);
        assert(p[k].on(size));
        assert(coord::steps_apart(p[k - 1], p[k]) == 1);
    }
}

/// The liberties of a chain are the empty points of the board one step from one of its stones, and
/// a chain is without a liberty where there is no such point.
pub proof fn law_liberties_are_next_to_the_chain(
    size: Size,
    grid: Seq<Option<Stone>>,
    color: Stone,
    a: Coord,
    d: Coord,
)
    ensures
        liberties(size, grid, color, a).contains(d) <==> {
            &&& d.on(size)
            &&& grid[d.idx(size)] is None
            &&& exists|c: Coord| #[trigger]
                chain(size, grid, color, a).contains(c) && coord::steps_apart(c, d) == 1
        },
        breathless(size, grid, color, a) <==> forall|e: Coord| !#[trigger]
            liberties(size, grid, color, a).contains(e),
{
    if liberties(size, grid, color, a).contains(d) {
        let c = choose|c: Coord|
            #[trigger] linked(size, grid, color, a, c) && coord::adjacent(c, d);
        coord::law_adjacent_is_one_step(c, d);
        assert(chain(size, grid, color, a).contains(c));
    }
    if d.on(size) && grid[d.idx(size)] is None && exists|c: Coord| #[trigger]
        chain(size, grid, color, a).contains(c) && coord::steps_apart(c, d) == 1 {
        let c = choose|c: Coord| #[trigger]
            chain(size, grid, color, a).contains(c) && coord::steps_apart(c, d) == 1;
        coord::law_adjacent_is_one_step(c, d);
        assert(linked(size, grid, color, a, c));
    }
    if breathless(size, grid, color, a) {
        assert forall|e: Coord| !#[trigger] liberties(size, grid, color, a).contains(e) by {
            assert(!is_liberty(size, grid, color, a, e));
        }
    }
    if forall|e: Coord| !#[trigger] liberties(size, grid, color, a).contains(e) {
        assert forall|e: Coord| !#[trigger] is_liberty(size, grid, color, a, e) by {
            assert(!liberties(size, grid, color, a).contains(e));
        }
    }
}

// ---- what a move takes ----

/// The stones that a move takes are whole chains: with a stone goes every stone of its chain, as it
/// stands once the move is on the board.
pub proof fn law_whole_chains_are_taken(
    size: Size,
    grid: Seq<Option<Stone>>,
    player: Stone,
    at: Coord,
    c: Coord,
)
    requires
        move_result(size, grid, player, at) matches Ok((after, gone)) && gone.contains(c),
    ensures
        chain(size, grid.update(at.idx(size), Some(player)), player.other(), c).subset_of(
            move_result(size, grid, player, at)->Ok_0.1,
        ),
{
    let placed = grid.update(at.idx(size), Some(player));
    let opp = player.other();
    let gone = move_result(size, grid, player, at)->Ok_0.1;
    assert(taken(size, placed, player, at, c));
    let nb = choose|nb: Coord|
        {
            &&& nb.on(size)
            &&& #[trigger] coord::adjacent(at, nb)
            &&& linked(size, placed, opp, nb, c)
            &&& breathless(size, placed, opp, nb)
        };
    assert forall|d: Coord| #[trigger] chain(size, placed, opp, c).contains(d) implies gone.contains(
        d,
    ) by {
        lemma_linked_trans(size, placed, opp, nb, c, d);
        assert(taken(size, placed, player, at, d));
    }
}

/// A move takes an opposing chain next to it exactly where the chain has no liberty once the move
/// is on the board.
pub proof fn law_taken_is_without_liberty(
    size: Size,
    grid: Seq<Option<Stone>>,
    player: Stone,
    at: Coord,
    c: Coord,
)
    requires
        move_result(size, grid, player, at) is Ok,
        grid.len() >= size.points(),
    ensures
        ({
            let placed = grid.update(at.idx(size), Some(player));
            let free = liberties(size, placed, player.other(), c);
            let gone = move_result(size, grid, player, at)->Ok_0.1;
            &&& gone.contains(c) ==> free == Set::<Coord>::empty()
            &&& c.on(size) && coord::steps_apart(at, c) == 1 && grid[c.idx(size)] == Some(
                player.other(),
            ) ==> (gone.contains(c) <==> free == Set::<Coord>::empty())
            &&& gone.contains(c) ==> exists|nb: Coord|
                #![trigger gone.contains(nb)]
                gone.contains(nb) && coord::steps_apart(at, nb) == 1 && chain(
                    size,
                    placed,
                    player.other(),
                    c,
                ).contains(nb)
        }),
{
    let placed = grid.update(at.idx(size), Some(player));
    let opp = player.other();
    let gone = move_result(size, grid, player, at)->Ok_0.1;
    let free = liberties(size, placed, opp, c);
    law_liberties_are_next_to_the_chain(size, placed, opp, c, c);
    if breathless(size, placed, opp, c) {
        assert(free =~= Set::<Coord>::empty());
    }
    if gone.contains(c) {
        assert(taken(size, placed, player, at, c));
        let nb = choose|nb: Coord|
            {
                &&& nb.on(size)
                &&& #[trigger] coord::adjacent(at, nb)
                &&& linked(size, placed, opp, nb, c)
                &&& breathless(size, placed, opp, nb)
            };
        lemma_same_chain(size, placed, opp, nb, c);
        lemma_linked_sym(size, placed, opp, nb, c);
        lemma_linked_ends(size, placed, opp, nb, c);
        lemma_linked_self(size, placed, opp, nb);
        coord::law_adjacent_is_one_step(at, nb);
        assert(taken(size, placed, player, at, nb));
        assert(gone.contains(nb));
    }
    if c.on(size) && coord::steps_apart(at, c) == 1 && grid[c.idx(size)] == Some(opp) {
        coord::lemma_idx_range(c, size);
        coord::lemma_idx_range(at, size);
        if c.idx(size) == at.idx(size) {
            coord::lemma_idx_injective(c, at, size);
        }
        coord::law_adjacent_is_one_step(at, c);
        lemma_linked_self(size, placed, opp, c);
        if free == Set::<Coord>::empty() {
            assert(breathless(size, placed, opp, c)) by {
                assert forall|e: Coord| !#[trigger] free.contains(e) by {}
            }
            assert(taken(size, placed, player, at, c));
        }
    }
}

/// A move off the board or on a stone is refused as such. Any other move is legal exactly where it
/// leaves its own chain a liberty or an opposing chain next to it none, and is suicide where not.
pub proof fn law_when_a_move_is_legal(
    size: Size,
    grid: Seq<Option<Stone>>,
    player: Stone,
    at: Coord,
)
    requires
        grid.len() >= size.points(),
    ensures
        ({
            let placed = grid.update(at.idx(size), Some(player));
            let r = move_result(size, grid, player, at);
            let breathes = exists|d: Coord| #[trigger]
                liberties(size, placed, player, at).contains(d);
            let kills = exists|nb: Coord|
                #![trigger chain(size, placed, player.other(), nb)]
                nb.on(size) && coord::steps_apart(at, nb) == 1 && chain(
                    size,
                    placed,
                    player.other(),
                    nb,
                ).contains(nb) && liberties(size, placed, player.other(), nb) == Set::<
                    Coord,
                >::empty();
            &&& !at.on(size) <==> r == Err::<
                (Seq<Option<Stone>>, Set<Coord>),
                IllegalReason,
            >(IllegalReason::OffBoard)
            &&& at.on(size) && grid[at.idx(size)] is Some <==> r == Err::<
                (Seq<Option<Stone>>, Set<Coord>),
                IllegalReason,
            >(IllegalReason::Occupied)
            &&& at.on(size) && grid[at.idx(size)] is None ==> (r is Ok <==> breathes || kills)
            &&& at.on(size) && grid[at.idx(size)] is None ==> (r == Err::<
                (Seq<Option<Stone>>, Set<Coord>),
                IllegalReason,
            >(IllegalReason::Suicide) <==> !breathes && !kills)
        }),
{
    let placed = grid.update(at.idx(size), Some(player));
    let opp = player.other();
    let gone = captures(size, placed, player, at);
    let breathes = exists|d: Coord| #[trigger] liberties(size, placed, player, at).contains(d);
    let kills = exists|nb: Coord|
        #![trigger chain(size, placed, opp, nb)]
        nb.on(size) && coord::steps_apart(at, nb) == 1 && chain(size, placed, opp, nb).contains(nb)
            && liberties(size, placed, opp, nb) == Set::<Coord>::empty();
    law_liberties_are_next_to_the_chain(size, placed, player, at, at);
    assert(breathes == !breathless(size, placed, player, at));
    if kills {
        let nb = choose|nb: Coord|
            #![trigger chain(size, placed, opp, nb)]
            nb.on(size) && coord::steps_apart(at, nb) == 1 && chain(size, placed, opp, nb).contains(
                nb,
            ) && liberties(size, placed, opp, nb) == Set::<Coord>::empty();
        law_liberties_are_next_to_the_chain(size, placed, opp, nb, nb);
        coord::law_adjacent_is_one_step(at, nb);
        assert(breathless(size, placed, opp, nb)) by {
            assert forall|e: Coord| !#[trigger]
                liberties(size, placed, opp, nb).contains(e) by {}
        }
        assert(taken(size, placed, player, at, nb));
        assert(gone.contains(nb));
    }
    if gone != Set::<Coord>::empty() {
        assert(exists|c: Coord| gone.contains(c)) by {
            if forall|c: Coord| !gone.contains(c) {
                assert(gone =~= Set::<Coord>::empty());
            }
        }
        let c = choose|c: Coord| gone.contains(c);
        assert(taken(size, placed, player, at, c));
        let nb = choose|nb: Coord|
            {
                &&& nb.on(size)
                &&& #[trigger] coord::adjacent(at, nb)
                &&& linked(size, placed, opp, nb, c)
                &&& breathless(size, placed, opp, nb)
            };
        lemma_linked_ends(size, placed, opp, nb, c);
        lemma_linked_self(size, placed, opp, nb);
        coord::law_adjacent_is_one_step(at, nb);
        law_liberties_are_next_to_the_chain(size, placed, opp, nb, nb);
        assert(liberties(size, placed, opp, nb) =~= Set::<Coord>::empty());
        assert(chain(size, placed, opp, nb).contains(nb));
    }
}

/// Where every chain of a position has a liberty, every chain has one after a legal move.
pub proof fn law_every_chain_keeps_a_liberty(
    size: Size,
    grid: Seq<Option<Stone>>,
    player: Stone,
    at: Coord,
    c: Coord,
    color: Stone,
)
    requires
        grid.len() >= size.points(),
        move_result(size, grid, player, at) is Ok,
        forall|d: Coord, s: Stone|
            d.on(size) && grid[d.idx(size)] == Some(s) ==> !#[trigger] breathless(size, grid, s, d),
        c.on(size),
        move_result(size, grid, player, at)->Ok_0.0[c.idx(size)] == Some(color),
    ensures
        exists|e: Coord| #[trigger]
            liberties(size, move_result(size, grid, player, at)->Ok_0.0, color, c).contains(e),
{
    let (after, gone) = move_result(size, grid, player, at)->Ok_0;
    let placed = grid.update(at.idx(size), Some(player));
    coord::lemma_idx_range(at, size);
    coord::lemma_idx_range(c, size);
    law_liberties_are_next_to_the_chain(size, after, color, c, c);
    if breathless(size, after, color, c) {
        law_move_has_liberty(size, grid, player, at);
        law_move_changes_little(size, grid, player, at, at);
        law_move_changes_little(size, grid, player, at, c);
        if c == at {
            assert(false);
        }
        assert(grid[c.idx(size)] == Some(color));
        assert(!breathless(size, grid, color, c));
        let d = choose|d: Coord| is_liberty(size, grid, color, c, d);
        let m = choose|m: Coord| #[trigger]
            linked(size, grid, color, c, m) && coord::adjacent(m, d);
        if color == player {
            // The chain stands as it did, or has become part of that of the stone played.
            lemma_linked_more(size, grid, after, color, c, m, player, at);
            lemma_linked_ends(size, grid, color, c, m);
            if d == at {
                coord::law_adjacent_symmetric(m, at);
                lemma_linked_step(size, after, color, c, m, at);
                lemma_same_chain(size, after, color, c, at);
                assert(false);
            } else {
                coord::lemma_idx_range(d, size);
                law_move_changes_little(size, grid, player, at, d);
                if gone.contains(d) {
                    law_only_opponent_taken(size, grid, player, at, d);
                }
                assert(is_liberty(size, after, color, c, d));
                assert(false);
            }
        } else {
            assert(color == player.other());
            // On the position with the stone played the chain is the same, and was not taken.
            lemma_linked_placed(size, grid, placed, color, c, m, player, at);
            assert(!gone.contains(c));
            if breathless(size, placed, color, c) {
                // All liberties are gone, so the one there was is where the stone was played.
                if d != at {
                    coord::lemma_idx_range(d, size);
                    if d.idx(size) == at.idx(size) {
                        coord::lemma_idx_injective(d, at, size);
                    }
                    assert(is_liberty(size, placed, color, c, d));
                    assert(false);
                }
                coord::law_adjacent_symmetric(m, at);
                lemma_linked_ends(size, placed, color, c, m);
                lemma_same_chain(size, placed, color, c, m);
                lemma_linked_sym(size, placed, color, c, m);
                assert(taken(size, placed, player, at, c));
                assert(gone.contains(c));
                assert(false);
            }
            let e = choose|e: Coord| is_liberty(size, placed, color, c, e);
            let n = choose|n: Coord| #[trigger]
                linked(size, placed, color, c, n) && coord::adjacent(n, e);
            lemma_linked_kept(size, grid, player, at, color, c, n);
            coord::lemma_idx_range(e, size);
            law_move_changes_little(size, grid, player, at, e);
            assert(after[e.idx(size)] is None);
            assert(is_liberty(size, after, color, c, e));
            assert(false);
        }
    }
    let e = choose|e: Coord| is_liberty(size, after, color, c, e);
    assert(liberties(size, after, color, c).contains(e));
}

/// A walk over stones that all still stand is one still.
proof fn lemma_walk_kept(
    size: Size,
    a: Seq<Option<Stone>>,
    b: Seq<Option<Stone>>,
    color: Stone,
    p: Seq<Coord>,
)
    requires
        is_walk(size, a, color, p),
        forall|i: int| 0 <= i < p.len() ==> b[(#[trigger] p[i]).idx(size)] == Some(color),
    ensures
        is_walk(size, b, color, p),
{
    assert forall|i: int| 0 <= i < p.len() implies (#[trigger] p[i]).on(size) && b[p[i].idx(size)]
        == Some(color) by {}
}

/// What the player's stones linked before the move they link after it.
proof fn lemma_linked_more(
    size: Size,
    grid: Seq<Option<Stone>>,
    after: Seq<Option<Stone>>,
    color: Stone,
    c: Coord,
    m: Coord,
    player: Stone,
    at: Coord,
)
    requires
        grid.len() >= size.points(),
        move_result(size, grid, player, at) is Ok,
        after == move_result(size, grid, player, at)->Ok_0.0,
        color == player,
        linked(size, grid, color, c, m),
    ensures
        linked(size, after, color, c, m),
{
    let gone = move_result(size, grid, player, at)->Ok_0.1;
    let p = choose|p: Seq<Coord>|
        #[trigger] is_walk(size, grid, color, p) && p[0] == c && p.last() == m;
    assert forall|i: int| 0 <= i < p.len() implies after[(#[trigger] p[i]).idx(size)] == Some(
        color,
    ) by {
        law_move_changes_little(size, grid, player, at, p[i]);
        if gone.contains(p[i]) {
            law_only_opponent_taken(size, grid, player, at, p[i]);
        }
    }
    lemma_walk_kept(size, grid, after, color, p);
}

/// What opposing stones linked before the stone is played they link with it on the board.
proof fn lemma_linked_placed(
    size: Size,
    grid: Seq<Option<Stone>>,
    placed: Seq<Option<Stone>>,
    color: Stone,
    c: Coord,
    m: Coord,
    player: Stone,
    at: Coord,
)
    requires
        grid.len() >= size.points(),
        at.on(size),
        grid[at.idx(size)] is None,
        placed == grid.update(at.idx(size), Some(player)),
        linked(size, grid, color, c, m),
    ensures
        linked(size, placed, color, c, m),
{
    coord::lemma_idx_range(at, size);
    let p = choose|p: Seq<Coord>|
        #[trigger] is_walk(size, grid, color, p) && p[0] == c && p.last() == m;
    assert forall|i: int| 0 <= i < p.len() implies placed[(#[trigger] p[i]).idx(size)] == Some(
        color,
    ) by {
        coord::lemma_idx_range(p[i], size);
    }
    lemma_walk_kept(size, grid, placed, color, p);
}

/// What the stones of a chain that is not taken linked they link after the move.
proof fn lemma_linked_kept(
    size: Size,
    grid: Seq<Option<Stone>>,
    player: Stone,
    at: Coord,
    color: Stone,
    c: Coord,
    n: Coord,
)
    requires
        grid.len() >= size.points(),
        move_result(size, grid, player, at) is Ok,
        color == player.other(),
        linked(size, grid.update(at.idx(size), Some(player)), color, c, n),
        !move_result(size, grid, player, at)->Ok_0.1.contains(c),
    ensures
        linked(size, move_result(size, grid, player, at)->Ok_0.0, color, c, n),
{
    let (after, gone) = move_result(size, grid, player, at)->Ok_0;
    let placed = grid.update(at.idx(size), Some(player));
    coord::lemma_idx_range(at, size);
    let p = choose|p: Seq<Coord>|
        #[trigger] is_walk(size, placed, color, p) && p[0] == c && p.last() == n;
    lemma_linked_ends(size, placed, color, c, n);
    lemma_linked_self(size, placed, color, c);
    assert forall|i: int| 0 <= i < p.len() implies after[(#[trigger] p[i]).idx(size)] == Some(
        color,
    ) by {
        coord::lemma_idx_range(p[i], size);
        lemma_linked_along(size, placed, color, c, p, i);
        lemma_linked_sym(size, placed, color, c, p[i]);
        if gone.contains(p[i]) {
            law_whole_chains_are_taken(size, grid, player, at, p[i]);
            assert(chain(size, placed, color, p[i]).contains(c));
        }
        law_move_changes_little(size, grid, player, at, p[i]);
    }
    lemma_walk_kept(size, placed, after, color, p);
}

} // verus!
