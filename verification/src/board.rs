//! Core data: teams, piece ranks, pieces, board coordinates, and the 8x8
//! board itself. The board is modelled as a sequence of 64 optional pieces,
//! indexed by `x + 8 * y` (file `x`, row `y`, both in `0..8`; White's pieces
//! start on rows 0 and 1, Black's on rows 6 and 7).

use vstd::prelude::*;

verus! {

/// A side, White or Black. White moves first.
#[derive(Clone, Copy, PartialEq, Eq, Structural, Debug)]
pub enum Team {
    White,
    Black,
}

/// A piece's movement class (unrelated to a board row).
#[derive(Clone, Copy, PartialEq, Eq, Structural, Debug)]
pub enum Rank {
    King,
    Queen,
    Rook,
    Bishop,
    Knight,
    Pawn,
}

/// A piece: a team together with a movement class. Immutable value; a move
/// places a new value on the destination square.
#[derive(Clone, Copy, PartialEq, Eq, Structural, Debug)]
pub struct Piece {
    pub team: Team,
    pub rank: Rank,
}

/// A single highlighted tile of the board, as a front-end shows one for
/// each available destination.
#[derive(Clone, Copy, PartialEq, Eq, Structural, Debug)]
pub struct Tile {
    pub pos: BoardPosition,
}

/// A board coordinate: file `x` (0 = file a) and row `y` (0 = White's home
/// row). The engine only works with coordinates in `0..8`; constructing one
/// outside that range is a caller contract violation.
#[derive(Clone, Copy, PartialEq, Eq, Structural, Debug)]
pub struct BoardPosition {
    pub x: isize,
    pub y: isize,
}

impl BoardPosition {
    pub fn new(pos: (isize, isize)) -> (r: BoardPosition)
        ensures
            r.x == pos.0,
            r.y == pos.1,
    {
        BoardPosition { x: pos.0, y: pos.1 }
    }
}

/// The coordinate range the engine accepts.
pub open spec fn in_bounds(x: int, y: int) -> bool {
    0 <= x < 8 && 0 <= y < 8
}

/// Index of the square (x, y) in the board sequence.
pub open spec fn sq(x: int, y: int) -> int {
    x + 8 * y
}

/// The piece (if any) on square (x, y) of board `b`.
pub open spec fn at(b: Seq<Option<Piece>>, x: int, y: int) -> Option<Piece> {
    b[sq(x, y)]
}

/// Square (x, y) is on the board and empty.
pub open spec fn empty_at(b: Seq<Option<Piece>>, x: int, y: int) -> bool {
    in_bounds(x, y) && at(b, x, y) is None
}

/// Square (x, y) is on the board and holds a piece of team `t`.
pub open spec fn occupied_by(b: Seq<Option<Piece>>, t: Team, x: int, y: int) -> bool {
    in_bounds(x, y) && (at(b, x, y) matches Some(p) && p.team == t)
}

/// The other side.
pub open spec fn opp(t: Team) -> Team {
    match t {
        Team::White => Team::Black,
        Team::Black => Team::White,
    }
}

/// The piece class on file `x` of each side's home row in the standard
/// starting arrangement.
pub open spec fn back_rank_piece(x: int) -> Rank {
    if x == 0 || x == 7 {
        Rank::Rook
    } else if x == 1 || x == 6 {
        Rank::Knight
    } else if x == 2 || x == 5 {
        Rank::Bishop
    } else if x == 3 {
        Rank::Queen
    } else {
        Rank::King
    }
}

/// The contents of square (x, y) in the standard starting position.
pub open spec fn initial_square(x: int, y: int) -> Option<Piece> {
    if y == 0 {
        Some(Piece { team: Team::White, rank: back_rank_piece(x) })
    } else if y == 1 {
        Some(Piece { team: Team::White, rank: Rank::Pawn })
    } else if y == 6 {
        Some(Piece { team: Team::Black, rank: Rank::Pawn })
    } else if y == 7 {
        Some(Piece { team: Team::Black, rank: back_rank_piece(x) })
    } else {
        None
    }
}

/// The standard starting position as a board sequence.
pub open spec fn initial_board() -> Seq<Option<Piece>> {
    Seq::new(64, |i: int| initial_square(i % 8, i / 8))
}

/// On the starting board, every square holds what `initial_square` says.
pub proof fn lemma_initial_board_at(x: int, y: int)
    requires
        in_bounds(x, y),
    ensures
        at(initial_board(), x, y) == initial_square(x, y),
{
    assert((x + 8 * y) % 8 == x && (x + 8 * y) / 8 == y) by (nonlinear_arith)
        requires
            0 <= x < 8 && 0 <= y < 8,
    ;
}

/// An 8x8 grid of squares, each holding an optional piece. Pure data: lookup
/// and placement only, no legality logic.
pub struct Board {
    grid: Vec<Option<Piece>>,
}

impl View for Board {
    type V = Seq<Option<Piece>>;

    closed spec fn view(&self) -> Seq<Option<Piece>> {
        self.grid@
    }
}

impl Board {
    /// A board holds exactly 64 squares.
    pub open spec fn wf(&self) -> bool {
        self@.len() == 64
    }

    /// A board with no pieces on it.
    pub fn empty() -> (b: Board)
        ensures
            b.wf(),
            forall|x: int, y: int| in_bounds(x, y) ==> at(b@, x, y) is None,
    {
        let mut grid: Vec<Option<Piece>> = Vec::new();
        let mut i: usize = 0;
        while i < 64
            invariant
                i <= 64,
                grid@.len() == i,
                forall|j: int| 0 <= j < i ==> grid@[j] is None,
            decreases 64 - i,
        {
            grid.push(None);
            i = i + 1;
        }
        Board { grid }
    }

    /// The standard starting position.
    pub fn starting() -> (b: Board)
        ensures
            b.wf(),
            b@ == initial_board(),
    {
        let mut grid: Vec<Option<Piece>> = Vec::new();
        let mut i: usize = 0;
        while i < 64
            invariant
                i <= 64,
                grid@.len() == i,
                forall|j: int| 0 <= j < i ==> grid@[j] == initial_square(j % 8, j / 8),
            decreases 64 - i,
        {
            let x = (i % 8) as isize;
            let y = (i / 8) as isize;
            grid.push(initial_piece(x, y));
            i = i + 1;
        }
        let b = Board { grid };
        assert(b@ =~= initial_board());
        b
    }

    /// The piece on the given square, if any.
    pub fn piece_at(&self, pos: BoardPosition) -> (r: Option<Piece>)
        requires
            self.wf(),
            in_bounds(pos.x as int, pos.y as int),
        ensures
            r == at(self@, pos.x as int, pos.y as int),
    {
        self.grid[(pos.x + 8 * pos.y) as usize]
    }

    /// Put `p` (or nothing) on the given square, replacing what was there.
    pub fn place(&mut self, pos: BoardPosition, p: Option<Piece>)
        requires
            old(self).wf(),
            in_bounds(pos.x as int, pos.y as int),
        ensures
            final(self).wf(),
            final(self)@ == old(self)@.update(sq(pos.x as int, pos.y as int), p),
    {
        let i = (pos.x + 8 * pos.y) as usize;
        self.grid[i] = p;
    }

    /// A fresh copy of this board, square for square.
    pub fn duplicate(&self) -> (r: Board)
        requires
            self.wf(),
        ensures
            r.wf(),
            r@ == self@,
    {
        let mut grid: Vec<Option<Piece>> = Vec::new();
        let mut i: usize = 0;
        while i < 64
            invariant
                i <= 64,
                self.wf(),
                grid@.len() == i,
                forall|j: int| 0 <= j < i ==> grid@[j] == self@[j],
            decreases 64 - i,
        {
            grid.push(self.grid[i]);
            i = i + 1;
        }
        let r = Board { grid };
        assert(r@ =~= self@);
        r
    }
}

/// The piece that the standard starting position puts on (x, y).
fn initial_piece(x: isize, y: isize) -> (r: Option<Piece>)
    requires
        in_bounds(x as int, y as int),
    ensures
        r == initial_square(x as int, y as int),
{
    if y == 1 {
        Some(Piece { team: Team::White, rank: Rank::Pawn })
    } else if y == 6 {
        Some(Piece { team: Team::Black, rank: Rank::Pawn })
    } else if y == 0 || y == 7 {
        let team = if y == 0 {
            Team::White
        } else {
            Team::Black
        };
        let rank = if x == 0 || x == 7 {
            Rank::Rook
        } else if x == 1 || x == 6 {
            Rank::Knight
        } else if x == 2 || x == 5 {
            Rank::Bishop
        } else if x == 3 {
            Rank::Queen
        } else {
            Rank::King
        };
        Some(Piece { team, rank })
    } else {
        None
    }
}

} // verus!
