//! Coordinates and board sizes.
//!
//! Two outside notations exist, with different alphabets:
//!
//! - GTP (`Q16`): the column letters skip `I`, rows count upwards from 1;
//! - SGF (`pd`): two lower-case letters, column then row, `i` included, rows count downwards.
//!
//! Inside, a [`Coord`] is a column and a row, both from 0, rows counting downwards.

use vstd::prelude::*;
use crate::text::{self, chars_of, parse_unsigned, push_decimal, slice_chars, trim};

verus! {

/// A board size: 9, 13 or 19 lines. Other sizes cannot be built.
#[derive(Clone, Copy, PartialEq, Eq, Structural, PartialOrd, Ord, Hash, Debug)]
pub struct Size(u8);

impl Size {
    /// The number of lines.
    pub closed spec fn side(self) -> nat {
        self.0 as nat
    }

    /// The size with `n` lines.
    pub closed spec fn of(n: nat) -> Size {
        Size(n as u8)
    }

    /// The three sizes that exist.
    #[verifier::type_invariant]
    pub open spec fn wf(self) -> bool {
        self.side() == 9 || self.side() == 13 || self.side() == 19
    }

    /// The number of points on the board.
    pub open spec fn points(self) -> nat {
        self.side() * self.side()
    }

    /// Makes a size; anything but 9, 13 and 19 is refused.
    pub fn new(n: u8) -> (r: Result<Self, CoordError>)
        ensures
            r is Ok <==> n == 9 || n == 13 || n == 19,
            r matches Ok(s) ==> s.side() == n && s.wf(),
            r matches Err(e) ==> e == CoordError::UnsupportedSize(n),
    {
        match n {
            9 | 13 | 19 => Ok(Self(n)),
            _ => Err(CoordError::UnsupportedSize(n)),
        }
    }

    /// The usual size, 19 lines.
    pub fn usual() -> (r: Self)
        ensures
            r == Size::of(19),
            r.side() == 19,
    {
        Self(19)
    }

    /// The number of lines.
    pub fn n(self) -> (r: u8)
        ensures
            r == self.side(),
            self.wf(),
    {
        proof {
            use_type_invariant(self);
        }
        self.0
    }

    /// The number of points.
    pub fn point_count(self) -> (r: usize)
        ensures
            r == self.points(),
            self.wf(),
            81 <= r <= 361,
    {
        proof {
            use_type_invariant(self);
            lemma_points_range(self);
        }
        self.0 as usize * self.0 as usize
    }

    /// The size as shown to the user, such as `19路`.
    pub fn display(self) -> (r: String)
        ensures
            r@ == text::decimal(self.side()) + "路"@,
    {
        let mut out = String::new();
        push_decimal(&mut out, self.0 as u64);
        out.append("路");
        assert(out@ =~= text::decimal(self.side()) + "路"@);
        out
    }
}

/// A board has between 81 and 361 points.
pub proof fn lemma_points_range(size: Size)
    requires
        size.wf(),
    ensures
        81 <= size.points() <= 361,
        size.side() <= 19,
{
    let n = size.side();
    assert(81 <= n * n <= 361) by (nonlinear_arith)
        requires
            9 <= n <= 19,
    ;
}

/// `Size::of` gives back a size from its number of lines.
pub proof fn lemma_size_of(size: Size)
    ensures
        Size::of(size.side()) == size,
{
}

/// `Size::of` has the given number of lines.
pub proof fn lemma_side_of(n: nat)
    requires
        n < 256,
    ensures
        Size::of(n).side() == n,
{
}

/// A point, named by column and row. It is not tied to a size.
#[derive(Clone, Copy, PartialEq, Eq, Structural, PartialOrd, Ord, Hash, Debug)]
pub struct Coord {
    /// The column, from 0, left to right.
    x: u8,
    /// The row, from 0, top to bottom.
    y: u8,
}

/// The GTP letter of column `x` (the letter `I` is skipped).
pub open spec fn gtp_letter(x: nat) -> char {
    if x < 8 {
        (65 + x) as char
    } else {
        (66 + x) as char
    }
}

/// The column of a GTP letter in either case; `None` for `I` and all that is no letter `A..T`.
pub open spec fn gtp_column(c: char) -> Option<nat> {
    if 'A' <= c <= 'H' {
        Some((c as nat - 65) as nat)
    } else if 'J' <= c <= 'T' {
        Some((c as nat - 66) as nat)
    } else if 'a' <= c <= 'h' {
        Some((c as nat - 97) as nat)
    } else if 'j' <= c <= 't' {
        Some((c as nat - 98) as nat)
    } else {
        None
    }
}

/// What a GTP coordinate reads as on a board of size `size`: a column letter and a row number,
/// white space around either being ignored.
pub open spec fn parsed_gtp(size: Size, raw: Seq<char>) -> Result<Coord, CoordError> {
    let s = text::trimmed(raw);
    if s.len() < 2 || gtp_column(s[0]) is None {
        Err(CoordError::BadFormat)
    } else if gtp_column(s[0])->0 >= size.side() {
        Err(CoordError::OffBoard)
    } else {
        match text::parsed_unsigned(text::trimmed(s.skip(1)), 255) {
            None => Err(CoordError::BadFormat),
            Some(row) => if row == 0 || row > size.side() {
                Err(CoordError::OffBoard)
            } else {
                Ok(Coord::at(gtp_column(s[0])->0, (size.side() - row) as nat))
            },
        }
    }
}

/// Whether `c` is one of `a..z`.
pub open spec fn is_lower(c: char) -> bool {
    'a' <= c <= 'z'
}

/// What an SGF coordinate reads as on a board of size `size`.
pub open spec fn parsed_sgf(size: Size, s: Seq<char>) -> Result<Coord, CoordError> {
    if s.len() != 2 || !is_lower(s[0]) || !is_lower(s[1]) {
        Err(CoordError::BadFormat)
    } else if s[0] as nat - 97 >= size.side() || s[1] as nat - 97 >= size.side() {
        Err(CoordError::OffBoard)
    } else {
        Ok(Coord::at((s[0] as nat - 97) as nat, (s[1] as nat - 97) as nat))
    }
}

/// The SGF notation of a point.
pub open spec fn sgf_text(c: Coord) -> Seq<char> {
    seq![(97 + c.col()) as char, (97 + c.row()) as char]
}

/// The GTP notation of a point on a board of size `size`.
pub open spec fn gtp_text(c: Coord, size: Size) -> Seq<char> {
    seq![gtp_letter(c.col())] + text::decimal((size.side() - c.row()) as nat)
}

/// The point at `(x, y)` as a sequence of one, or nothing where it is off the board.
pub open spec fn point_if_on(size: Size, x: int, y: int) -> Seq<Coord> {
    if 0 <= x < size.side() && 0 <= y < size.side() {
        seq![Coord::at(x as nat, y as nat)]
    } else {
        Seq::empty()
    }
}

/// Whether two points are next to each other on a line.
pub open spec fn adjacent(a: Coord, b: Coord) -> bool {
    ||| a.col() == b.col() && (a.row() == b.row() + 1 || b.row() == a.row() + 1)
    ||| a.row() == b.row() && (a.col() == b.col() + 1 || b.col() == a.col() + 1)
}

impl Coord {
    /// The column.
    pub closed spec fn col(self) -> nat {
        self.x as nat
    }

    /// The row.
    pub closed spec fn row(self) -> nat {
        self.y as nat
    }

    /// The point at column `x` and row `y`.
    pub closed spec fn at(x: nat, y: nat) -> Coord {
        Coord { x: x as u8, y: y as u8 }
    }

    /// No point lies beyond the largest board.
    #[verifier::type_invariant]
    pub open spec fn wf(self) -> bool {
        self.col() < 19 && self.row() < 19
    }

    /// Whether the point is on a board of size `size`.
    pub open spec fn on(self, size: Size) -> bool {
        self.col() < size.side() && self.row() < size.side()
    }

    /// The position of the point when rows are laid end to end.
    pub open spec fn idx(self, size: Size) -> int {
        (self.row() * size.side() + self.col()) as int
    }

    /// The points above, right, below and left that are on the board.
    pub open spec fn neighbor_seq(self, size: Size) -> Seq<Coord> {
        point_if_on(size, self.col() as int, self.row() - 1) + point_if_on(
            size,
            self.col() as int + 1,
            self.row() as int,
        ) + point_if_on(size, self.col() as int, self.row() as int + 1) + point_if_on(
            size,
            self.col() - 1,
            self.row() as int,
        )
    }

    /// Makes a point of a board of size `size`; `None` when it is off the board.
    pub fn new(size: Size, x: u8, y: u8) -> (r: Option<Self>)
        ensures
            r is Some <==> x < size.side() && y < size.side(),
            r matches Some(c) ==> c == Coord::at(x as nat, y as nat) && c.col() == x && c.row() == y,
    {
        let n = size.n();
        if x < n && y < n {
            Some(Self { x, y })
        } else {
            None
        }
    }

    /// The column, from 0, left to right.
    pub fn x(self) -> (r: u8)
        ensures
            r == self.col(),
            self.wf(),
    {
        proof {
            use_type_invariant(self);
        }
        self.x
    }

    /// The row, from 0, top to bottom.
    pub fn y(self) -> (r: u8)
        ensures
            r == self.row(),
            self.wf(),
    {
        proof {
            use_type_invariant(self);
        }
        self.y
    }

    /// Whether the point is on a board of size `size`.
    pub fn on_board(self, size: Size) -> (r: bool)
        ensures
            r == self.on(size),
    {
        self.x < size.n() && self.y < size.n()
    }

    /// The position of the point when rows are laid end to end.
    pub fn index(self, size: Size) -> (r: usize)
        ensures
            r == self.idx(size),
            r == self.row() * size.side() + self.col(),
            self.on(size) ==> r < size.points(),
    {
        let n = size.n();
        proof {
            use_type_invariant(self);
            let (y, m) = (self.y as int, n as int);
            assert(0 <= y * m <= 361) by (nonlinear_arith)
                requires
                    0 <= y <= 19,
                    0 <= m <= 19,
            ;
            if self.on(size) {
                lemma_idx_range(self, size);
            }
        }
        self.y as usize * n as usize + self.x as usize
    }

    /// The point at position `index` when rows are laid end to end; `None` past the last point.
    pub fn from_index(size: Size, index: usize) -> (r: Option<Self>)
        ensures
            r is Some <==> index < size.points(),
            r matches Some(c) ==> c.on(size) && c.idx(size) == index && c == point_at(
                size,
                index as int,
            ),
    {
        if index < size.point_count() {
            let n = size.n() as usize;
            let x = index % n;
            let y = index / n;
            proof {
                let (i, m) = (index as int, n as int);
                assert(0 <= i / m < m) by (nonlinear_arith)
                    requires
                        0 <= i < m * m,
                        m > 0,
                ;
                assert(i == (i / m) * m + i % m) by (nonlinear_arith)
                    requires
                        m > 0,
                ;
            }
            Some(Self { x: x as u8, y: y as u8 })
        } else {
            None
        }
    }

    /// The points above, right, below and left that are on the board, in that order.
    pub fn neighbors(self, size: Size) -> (r: Vec<Coord>)
        ensures
            r@ == self.neighbor_seq(size),
            r@.no_duplicates(),
            forall|d: Coord| #[trigger]
                r@.contains(d) <==> d.on(size) && steps_apart(self, d) == 1,
    {
        proof {
            use_type_invariant(self);
            use_type_invariant(size);
            lemma_neighbors(self, size);
            assert forall|d: Coord| #[trigger]
                self.neighbor_seq(size).contains(d) <==> d.on(size) && steps_apart(self, d) == 1 by {
                law_adjacent_is_one_step(self, d);
            }
        }
        let n = size.n();
        let mut out: Vec<Coord> = Vec::new();
        let ghost up = point_if_on(size, self.col() as int, self.row() - 1);
        let ghost right = point_if_on(size, self.col() as int + 1, self.row() as int);
        let ghost down = point_if_on(size, self.col() as int, self.row() as int + 1);
        if self.x < n && self.y >= 1 && self.y - 1 < n {
            out.push(Self { x: self.x, y: self.y - 1 });
        }
        assert(out@ =~= up);
        if self.x + 1 < n && self.y < n {
            out.push(Self { x: self.x + 1, y: self.y });
        }
        assert(out@ =~= up + right);
        if self.x < n && self.y + 1 < n {
            out.push(Self { x: self.x, y: self.y + 1 });
        }
        assert(out@ =~= up + right + down);
        if self.x >= 1 && self.x - 1 < n && self.y < n {
            out.push(Self { x: self.x - 1, y: self.y });
        }
        assert(out@ =~= self.neighbor_seq(size));
        out
    }

    /// Reads a GTP coordinate such as `Q16` or `d4`.
    pub fn from_gtp(size: Size, s: &str) -> (r: Result<Self, CoordError>)
        ensures
            r == parsed_gtp(size, s@),
            r matches Ok(c) ==> c.on(size) && gtp_names(size, text::trimmed(s@), c),
    {
        proof {
            use_type_invariant(size);
            if parsed_gtp(size, s@) is Ok {
                law_gtp_column_and_row(size, s@);
            }
        }
        let chars = trim(&chars_of(s));
        if chars.len() < 2 {
            return Err(CoordError::BadFormat);
        }
        let c = chars[0];
        let u: u32 = c as u32;
        let x: u8 = if 'A' <= c && c <= 'H' {
            (u - 65) as u8
        } else if 'J' <= c && c <= 'T' {
            (u - 66) as u8
        } else if 'a' <= c && c <= 'h' {
            (u - 97) as u8
        } else if 'j' <= c && c <= 't' {
            (u - 98) as u8
        } else {
            return Err(CoordError::BadFormat);
        };
        if x >= size.n() {
            return Err(CoordError::OffBoard);
        }
        let rest = slice_chars(&chars, 1, chars.len());
        assert(rest@ =~= text::trimmed(s@).skip(1));
        match parse_unsigned(&trim(&rest), 255) {
            None => Err(CoordError::BadFormat),
            Some(row) => {
                let n = size.n();
                if row == 0 || row > n as u64 {
                    return Err(CoordError::OffBoard);
                }
                Ok(Self { x, y: n - row as u8 })
            },
        }
    }

    /// The GTP notation: an upper-case column letter and a row counted from the bottom.
    pub fn to_gtp(self, size: Size) -> (r: String)
        requires
            self.row() <= size.side(),
        ensures
            r@ == gtp_text(self, size),
            r@[0] == gtp_letters()[self.col() as int],
            r@.skip(1) == text::decimal((size.side() - self.row()) as nat),
    {
        proof {
            use_type_invariant(self);
            law_gtp_text(self, size);
        }
        let letter: u8 = if self.x < 8 {
            65 + self.x
        } else {
            66 + self.x
        };
        let mut out = String::new();
        out.push(letter as char);
        push_decimal(&mut out, (size.n() - self.y) as u64);
        assert(out@ =~= gtp_text(self, size));
        out
    }

    /// Reads an SGF coordinate: two lower-case letters, column then row.
    pub fn from_sgf(size: Size, s: &str) -> (r: Result<Self, CoordError>)
        ensures
            r == parsed_sgf(size, s@),
            r matches Ok(c) ==> {
                &&& s@.len() == 2
                &&& s@[0] as int == 'a' as int + c.col()
                &&& s@[1] as int == 'a' as int + c.row()
                &&& c.on(size)
            },
            s@.len() == 2 && 0 <= (s@[0] as int - 'a' as int) < size.side() && 0 <= (s@[1] as int
                - 'a' as int) < size.side() ==> r is Ok,
    {
        proof {
            use_type_invariant(size);
        }
        let chars = chars_of(s);
        if chars.len() != 2 || !('a' <= chars[0] && chars[0] <= 'z') || !('a' <= chars[1] && chars[1]
            <= 'z') {
            return Err(CoordError::BadFormat);
        }
        let x: u8 = (chars[0] as u32 - 97) as u8;
        let y: u8 = (chars[1] as u32 - 97) as u8;
        let n = size.n();
        if x >= n || y >= n {
            return Err(CoordError::OffBoard);
        }
        Ok(Self { x, y })
    }

    /// The SGF notation.
    pub fn to_sgf(self) -> (r: String)
        ensures
            r@ == sgf_text(self),
            r@.len() == 2,
            r@[0] as int == 'a' as int + self.col(),
            r@[1] as int == 'a' as int + self.row(),
    {
        proof {
            use_type_invariant(self);
        }
        let mut out = String::new();
        out.push((97 + self.x) as char);
        out.push((97 + self.y) as char);
        assert(out@ =~= sgf_text(self));
        out
    }

    /// The point as shown in messages: its GTP column letter, then column and row in brackets.
    pub fn display(self) -> (r: String)
        ensures
            r@ == coord_display(self),
    {
        proof {
            use_type_invariant(self);
            reveal_strlit("(");
            reveal_strlit(",");
            reveal_strlit(")");
        }
        let letter: u8 = if self.x < 8 {
            65 + self.x
        } else {
            66 + self.x
        };
        let mut out = String::new();
        out.push(letter as char);
        out.push('(');
        push_decimal(&mut out, self.x as u64);
        out.push(',');
        push_decimal(&mut out, self.y as u64);
        out.push(')');
        assert(out@ =~= coord_display(self));
        out
    }
}

/// The point at position `i` when rows are laid end to end.
pub open spec fn point_at(size: Size, i: int) -> Coord {
    Coord::at((i % (size.side() as int)) as nat, (i / (size.side() as int)) as nat)
}

/// The point at a position of the board is on the board and has that position.
pub proof fn lemma_point_at(size: Size, i: int)
    requires
        size.wf(),
        0 <= i < size.points(),
    ensures
        point_at(size, i).on(size),
        point_at(size, i).idx(size) == i,
{
    let m = size.side() as int;
    assert(0 <= i / m < m) by (nonlinear_arith)
        requires
            0 <= i < m * m,
            m > 0,
    ;
    assert(i == (i / m) * m + i % m) by (nonlinear_arith)
        requires
            m > 0,
    ;
}

/// A point as shown in messages.
pub open spec fn coord_display(c: Coord) -> Seq<char> {
    seq![gtp_letter(c.col())] + "("@ + text::decimal(c.col()) + ","@ + text::decimal(c.row()) + ")"@
}

/// `Coord::at` names the point at the given column and row.
pub proof fn lemma_coord_at(x: nat, y: nat)
    requires
        x < 256,
        y < 256,
    ensures
        Coord::at(x, y).col() == x,
        Coord::at(x, y).row() == y,
{
}

/// `Coord::at` gives back a point from its column and row.
pub proof fn lemma_coord_at_self(c: Coord)
    ensures
        Coord::at(c.col(), c.row()) == c,
{
}

/// A point of the board has its position within the board's points.
pub proof fn lemma_idx_range(c: Coord, size: Size)
    requires
        c.on(size),
    ensures
        0 <= c.idx(size) < size.points(),
{
    let (x, y, n) = (c.col(), c.row(), size.side());
    assert(0 <= y * n + x < n * n) by (nonlinear_arith)
        requires
            x < n,
            y < n,
    ;
}

/// Two points of the board with the same position are the same point.
pub proof fn lemma_idx_injective(a: Coord, b: Coord, size: Size)
    requires
        a.on(size),
        b.on(size),
        a.idx(size) == b.idx(size),
    ensures
        a == b,
{
    let n = size.side() as int;
    let (ax, ay, bx, by) = (a.col() as int, a.row() as int, b.col() as int, b.row() as int);
    assert(ay == by && ax == bx) by (nonlinear_arith)
        requires
            0 <= ax < n,
            0 <= bx < n,
            0 <= ay,
            0 <= by,
            ay * n + ax == by * n + bx,
    ;
}

/// The neighbours of a point are the points of the board next to it, each listed once.
pub proof fn lemma_neighbors(c: Coord, size: Size)
    requires
        size.wf(),
        c.wf(),
    ensures
        forall|d: Coord|
            #![trigger c.neighbor_seq(size).contains(d)]
            #![trigger adjacent(c, d)]
            c.neighbor_seq(size).contains(d) <==> d.on(size) && adjacent(c, d),
        c.neighbor_seq(size).no_duplicates(),
{
    let s = c.neighbor_seq(size);
    let (x, y) = (c.col() as int, c.row() as int);
    let up = point_if_on(size, x, y - 1);
    let right = point_if_on(size, x + 1, y);
    let down = point_if_on(size, x, y + 1);
    let left = point_if_on(size, x - 1, y);
    assert forall|i: int| 0 <= i < s.len() implies (#[trigger] s[i]).on(size) && adjacent(c, s[i]) by {}
    assert forall|d: Coord| d.on(size) && #[trigger] adjacent(c, d) implies s.contains(d) by {
        lemma_coord_at_self(d);
        if d.row() + 1 == c.row() {
            assert(up[0] == d);
            assert(s[0] == d);
        } else if d.col() == c.col() + 1 {
            assert(right[0] == d);
            assert(s[up.len() as int] == d);
        } else if d.row() == c.row() + 1 {
            assert(down[0] == d);
            assert(s[(up + right).len() as int] == d);
        } else {
            assert(left[0] == d);
            assert(s[(up + right + down).len() as int] == d);
        }
    }
}

/// How many steps along lines lead from one point to another.
pub open spec fn steps_apart(a: Coord, b: Coord) -> int {
    (if a.col() < b.col() {
        b.col() - a.col()
    } else {
        a.col() - b.col()
    }) + (if a.row() < b.row() {
        b.row() - a.row()
    } else {
        a.row() - b.row()
    })
}

/// Neighbours are one step apart, and points one step apart are neighbours.
pub proof fn law_adjacent_is_one_step(a: Coord, b: Coord)
    ensures
        adjacent(a, b) <==> steps_apart(a, b) == 1,
{
}

/// The position of a point grows by one from a column to the next and by the length of a row from a
/// row to the next.
pub proof fn law_rows_end_to_end(a: Coord, b: Coord, size: Size)
    ensures
        a.col() == 0 && a.row() == 0 ==> a.idx(size) == 0,
        b.row() == a.row() && b.col() == a.col() + 1 ==> b.idx(size) == a.idx(size) + 1,
        b.row() == a.row() + 1 && b.col() == a.col() ==> b.idx(size) == a.idx(size) + size.side(),
{
    let (y, n) = (a.row() as int, size.side() as int);
    assert((y + 1) * n == y * n + n) by (nonlinear_arith);
    assert(y == 0 ==> y * n == 0) by (nonlinear_arith);
}

/// An SGF coordinate names the column with its first letter and the row with its second, `a` for
/// the first of either; exactly the letters of the board's lines are read.
pub proof fn law_sgf_column_then_row(size: Size, s: Seq<char>)
    requires
        size.wf(),
    ensures
        parsed_sgf(size, s) is Ok <==> s.len() == 2 && 0 <= (s[0] as int - 'a' as int) < size.side() && 0 <= (s[1] as int - 'a' as int) < size.side(),
        parsed_sgf(size, s) matches Ok(c) ==> s[0] as int == 'a' as int + c.col() && s[1] as int
            == 'a' as int + c.row() && c.on(size),
        parsed_sgf(size, s) == Err::<Coord, CoordError>(CoordError::OffBoard) <==> {
            &&& s.len() == 2
            &&& 'a' <= s[0] <= 'z'
            &&& 'a' <= s[1] <= 'z'
            &&& (s[0] as int - 'a' as int) >= size.side() || (s[1] as int - 'a' as int) >= size.side()
        },
{
    if parsed_sgf(size, s) is Ok {
        lemma_coord_at((s[0] as nat - 97) as nat, (s[1] as nat - 97) as nat);
    }
}

/// A point is written in SGF with the letter of its column first and that of its row second.
pub proof fn law_sgf_text(c: Coord)
    requires
        c.wf(),
    ensures
        sgf_text(c).len() == 2,
        sgf_text(c)[0] as int == 'a' as int + c.col(),
        sgf_text(c)[1] as int == 'a' as int + c.row(),
{
}

/// The letters of the columns in GTP, from left to right.
pub open spec fn gtp_letters() -> Seq<char> {
    seq!['A', 'B', 'C', 'D', 'E', 'F', 'G', 'H', 'J', 'K', 'L', 'M', 'N', 'O', 'P', 'Q', 'R', 'S', 'T']
}

/// Whether a text without white space around it names a point: a letter for the column, small or
/// large, and the number of the row counted from the bottom line.
pub open spec fn gtp_names(size: Size, s: Seq<char>, c: Coord) -> bool {
    &&& s.len() >= 2
    &&& s[0] == gtp_letters()[c.col() as int] || s[0] as int == gtp_letters()[c.col() as int] as int
        + 32
    &&& text::parsed_unsigned(text::trimmed(s.skip(1)), 255) == Some(
        (size.side() - c.row()) as nat,
    )
}

/// A GTP coordinate names the column with its letter and the row with its number, counted from the
/// bottom line.
pub proof fn law_gtp_column_and_row(size: Size, s: Seq<char>)
    requires
        size.wf(),
    ensures
        parsed_gtp(size, s) matches Ok(c) ==> c.on(size) && gtp_names(size, text::trimmed(s), c),
        forall|c: Coord|
            c.on(size) && #[trigger] gtp_names(size, text::trimmed(s), c) ==> parsed_gtp(size, s)
                == Ok::<Coord, CoordError>(c),
{
    let t = text::trimmed(s);
    if parsed_gtp(size, s) is Ok {
        let x = gtp_column(t[0])->0;
        let row = text::parsed_unsigned(text::trimmed(t.skip(1)), 255)->0;
        lemma_coord_at(x, (size.side() - row) as nat);
    }
    assert forall|c: Coord|
        c.on(size) && #[trigger] gtp_names(size, text::trimmed(s), c) implies parsed_gtp(size, s)
        == Ok::<Coord, CoordError>(c) by {
        lemma_coord_at_self(c);
        assert(gtp_column(t[0]) == Some(c.col()));
    }
}

/// A point is written in GTP with the letter of its column and the number of its row, counted from
/// the bottom line.
pub proof fn law_gtp_text(c: Coord, size: Size)
    requires
        c.wf(),
        c.row() <= size.side(),
    ensures
        gtp_text(c, size)[0] == gtp_letters()[c.col() as int],
        gtp_text(c, size).skip(1) == text::decimal((size.side() - c.row()) as nat),
{
    assert(gtp_text(c, size).skip(1) =~= text::decimal((size.side() - c.row()) as nat));
}

/// Being neighbours works both ways.
pub proof fn law_adjacent_symmetric(a: Coord, b: Coord)
    ensures
        adjacent(a, b) == adjacent(b, a),
{
}

/// Writing a point in SGF notation and reading it back gives the same point.
pub proof fn law_sgf_round_trip(c: Coord, size: Size)
    requires
        size.wf(),
        c.on(size),
    ensures
        parsed_sgf(size, sgf_text(c)) == Ok::<Coord, CoordError>(c),
{
    lemma_coord_at_self(c);
}

/// Writing a point in GTP notation and reading it back gives the same point.
pub proof fn law_gtp_round_trip(c: Coord, size: Size)
    requires
        size.wf(),
        c.on(size),
    ensures
        parsed_gtp(size, gtp_text(c, size)) == Ok::<Coord, CoordError>(c),
{
    let row = (size.side() - c.row()) as nat;
    let s = gtp_text(c, size);
    text::lemma_decimal_digits(row);
    let d = text::decimal(row);
    assert(text::is_digit(d[0]));
    assert(text::is_digit(d.last()));
    assert(s.last() == d.last());
    text::lemma_trimmed_id(s);
    assert(s.skip(1) =~= d);
    text::lemma_trimmed_id(d);
    text::lemma_decimal_round_trip(row, 255);
    lemma_coord_at_self(c);
}

/// What can be wrong with a size or a coordinate.
#[derive(Clone, Copy, PartialEq, Eq, Structural, Debug)]
pub enum CoordError {
    /// A board size other than 9, 13 and 19.
    UnsupportedSize(u8),
    /// A coordinate off the board.
    OffBoard,
    /// Text that is no coordinate (the GTP letter `I` counts as such).
    BadFormat,
}

impl CoordError {
    /// The message shown to the user.
    pub open spec fn message_spec(self) -> Seq<char> {
        match self {
            CoordError::UnsupportedSize(n) => "不支持的棋盘尺寸："@ + text::decimal(n as nat)
                + "（仅支持 9 / 13 / 19 路）"@,
            CoordError::OffBoard => "坐标超出棋盘范围"@,
            CoordError::BadFormat => "坐标格式非法"@,
        }
    }

    /// The message shown to the user.
    pub fn message(self) -> (r: String)
        ensures
            r@ == self.message_spec(),
    {
        match self {
            CoordError::UnsupportedSize(n) => {
                let mut out = "不支持的棋盘尺寸：".to_owned();
                push_decimal(&mut out, n as u64);
                out.append("（仅支持 9 / 13 / 19 路）");
                out
            },
            CoordError::OffBoard => "坐标超出棋盘范围".to_owned(),
            CoordError::BadFormat => "坐标格式非法".to_owned(),
        }
    }
}

} // verus!
