//! Notation: conversion between board coordinates and algebraic strings
//! (file letter a-h plus 1-based row digit), and rendering of performed
//! actions in standard short algebraic form.

use vstd::prelude::*;
use vstd::string::*;

use crate::board::at;
use crate::board::in_bounds;
use crate::board::occupied_by;
use crate::board::opp;
use crate::board::Board;
use crate::board::BoardPosition;
use crate::board::Piece;
use crate::board::Rank;
use crate::moves::dest_kind;
use crate::moves::dest_kind_exec;
use crate::moves::Action;
use crate::moves::ActionType;

verus! {

/// The letter of file `x`: a-h.
pub open spec fn file_char(x: int) -> char {
    if x == 0 {
        'a'
    } else if x == 1 {
        'b'
    } else if x == 2 {
        'c'
    } else if x == 3 {
        'd'
    } else if x == 4 {
        'e'
    } else if x == 5 {
        'f'
    } else if x == 6 {
        'g'
    } else {
        'h'
    }
}

/// The 1-based digit of row `y`: '1'-'8'.
pub open spec fn row_char(y: int) -> char {
    if y == 0 {
        '1'
    } else if y == 1 {
        '2'
    } else if y == 2 {
        '3'
    } else if y == 3 {
        '4'
    } else if y == 4 {
        '5'
    } else if y == 5 {
        '6'
    } else if y == 6 {
        '7'
    } else {
        '8'
    }
}

/// The algebraic name of square (x, y): file letter then 1-based row digit.
pub open spec fn coord_seq(x: int, y: int) -> Seq<char> {
    seq![file_char(x), row_char(y)]
}

/// Distinct in-bounds squares have distinct algebraic names, so the
/// algebraic name determines the coordinate.
pub proof fn lemma_coord_seq_injective(x1: int, y1: int, x2: int, y2: int)
    requires
        in_bounds(x1, y1),
        in_bounds(x2, y2),
        coord_seq(x1, y1) == coord_seq(x2, y2),
    ensures
        x1 == x2,
        y1 == y2,
{
    assert(coord_seq(x1, y1)[0] == coord_seq(x2, y2)[0]);
    assert(coord_seq(x1, y1)[1] == coord_seq(x2, y2)[1]);
}

/// The file letter of `x` as a string slice.
fn file_str(x: isize) -> (r: &'static str)
    requires
        0 <= x < 8,
    ensures
        r@ == seq![file_char(x as int)],
{
    proof {
        reveal_strlit("a");
        reveal_strlit("b");
        reveal_strlit("c");
        reveal_strlit("d");
        reveal_strlit("e");
        reveal_strlit("f");
        reveal_strlit("g");
        reveal_strlit("h");
    }
    let r = if x == 0 {
        "a"
    } else if x == 1 {
        "b"
    } else if x == 2 {
        "c"
    } else if x == 3 {
        "d"
    } else if x == 4 {
        "e"
    } else if x == 5 {
        "f"
    } else if x == 6 {
        "g"
    } else {
        "h"
    };
    assert(r@ =~= seq![file_char(x as int)]);
    r
}

/// Convert a coordinate to its algebraic name, e.g. (4, 0) to "e1".
pub fn to_algebraic(pos: BoardPosition) -> (r: String)
    requires
        in_bounds(pos.x as int, pos.y as int),
    ensures
        r@ == coord_seq(pos.x as int, pos.y as int),
{
    proof {
        reveal_strlit("1");
        reveal_strlit("2");
        reveal_strlit("3");
        reveal_strlit("4");
        reveal_strlit("5");
        reveal_strlit("6");
        reveal_strlit("7");
        reveal_strlit("8");
    }
    let f = file_str(pos.x);
    let row: &str = if pos.y == 0 {
        "1"
    } else if pos.y == 1 {
        "2"
    } else if pos.y == 2 {
        "3"
    } else if pos.y == 3 {
        "4"
    } else if pos.y == 4 {
        "5"
    } else if pos.y == 5 {
        "6"
    } else if pos.y == 6 {
        "7"
    } else {
        "8"
    };
    let s = String::from_str(f).concat(row);
    assert(s@ =~= coord_seq(pos.x as int, pos.y as int));
    s
}

/// Parse an algebraic square name back to its coordinate: the inverse of
/// `to_algebraic`. Returns `None` exactly when the string names no square.
pub fn from_algebraic(s: &str) -> (r: Option<BoardPosition>)
    ensures
        match r {
            Some(p) => in_bounds(p.x as int, p.y as int) && s@ == coord_seq(
                p.x as int,
                p.y as int,
            ),
            None => forall|x: int, y: int| in_bounds(x, y) ==> s@ != coord_seq(x, y),
        },
{
    let len = s.unicode_len();
    if len != 2 {
        return None;
    }
    let c0 = s.get_char(0);
    let c1 = s.get_char(1);
    let x: isize = if c0 == 'a' {
        0
    } else if c0 == 'b' {
        1
    } else if c0 == 'c' {
        2
    } else if c0 == 'd' {
        3
    } else if c0 == 'e' {
        4
    } else if c0 == 'f' {
        5
    } else if c0 == 'g' {
        6
    } else if c0 == 'h' {
        7
    } else {
        proof {
            assert forall|x: int, y: int| in_bounds(x, y) implies s@ != coord_seq(x, y) by {
                assert(coord_seq(x, y)[0] == file_char(x));
            }
        }
        return None;
    };
    let y: isize = if c1 == '1' {
        0
    } else if c1 == '2' {
        1
    } else if c1 == '3' {
        2
    } else if c1 == '4' {
        3
    } else if c1 == '5' {
        4
    } else if c1 == '6' {
        5
    } else if c1 == '7' {
        6
    } else if c1 == '8' {
        7
    } else {
        proof {
            assert forall|x2: int, y2: int| in_bounds(x2, y2) implies s@ != coord_seq(x2, y2) by {
                assert(coord_seq(x2, y2)[1] == row_char(y2));
            }
        }
        return None;
    };
    let p = BoardPosition { x, y };
    assert(s@ =~= coord_seq(x as int, y as int));
    Some(p)
}

/// Converting a coordinate to algebraic and parsing it back recovers the
/// coordinate, for every square of the board.
pub fn algebraic_round_trip(pos: BoardPosition) -> (r: BoardPosition)
    requires
        in_bounds(pos.x as int, pos.y as int),
    ensures
        r == pos,
{
    let s = to_algebraic(pos);
    match from_algebraic(s.as_str()) {
        Some(q) => {
            proof {
                lemma_coord_seq_injective(q.x as int, q.y as int, pos.x as int, pos.y as int);
            }
            q
        },
        None => {
            proof {
                assert(false);
            }
            pos
        },
    }
}

/// The algebraic name of a coordinate pair, e.g. (0, 0) to "a1".
pub fn coordinate_to_string(coordinate: (isize, isize)) -> (r: String)
    requires
        in_bounds(coordinate.0 as int, coordinate.1 as int),
    ensures
        r@ == coord_seq(coordinate.0 as int, coordinate.1 as int),
{
    to_algebraic(BoardPosition { x: coordinate.0, y: coordinate.1 })
}

impl BoardPosition {
    /// The algebraic name of this coordinate: file letter followed by the
    /// 1-based row digit, e.g. the coordinate (0, 0) gives "a1".
    pub fn to_letter(&self) -> (r: String)
        requires
            in_bounds(self.x as int, self.y as int),
        ensures
            r@ == coord_seq(self.x as int, self.y as int),
    {
        let f = file_str(self.x);
        let row = row_str(self.y);
        let s = String::from_str(f).concat(row);
        assert(s@ =~= coord_seq(self.x as int, self.y as int));
        s
    }
}

/// The letter standard notation uses for a piece class; pawns have none.
pub open spec fn rank_letter(r: Rank) -> Seq<char> {
    match r {
        Rank::King => seq!['K'],
        Rank::Queen => seq!['Q'],
        Rank::Rook => seq!['R'],
        Rank::Bishop => seq!['B'],
        Rank::Knight => seq!['N'],
        Rank::Pawn => seq![],
    }
}

/// Another piece identical to the moving one (same team and class) stands
/// on (ox, oy) and could also reach the action's destination by movement
/// rules alone.
pub open spec fn other_reaches(b: Seq<Option<Piece>>, a: Action, ox: int, oy: int) -> bool {
    &&& in_bounds(ox, oy)
    &&& !(ox == a.from.x as int && oy == a.from.y as int)
    &&& at(b, ox, oy) == at(b, a.from.x as int, a.from.y as int)
    &&& dest_kind(b, Seq::empty(), ox, oy, a.to.x as int, a.to.y as int) is Some
}

/// Some identical piece elsewhere could also reach the destination; the
/// flags restrict the rival to the mover's file or row.
pub open spec fn ambiguous_like(
    b: Seq<Option<Piece>>,
    a: Action,
    need_file: bool,
    need_row: bool,
) -> bool {
    exists|ox: int, oy: int|
        #[trigger] other_reaches(b, a, ox, oy) && (need_file ==> ox == a.from.x as int) && (
        need_row ==> oy == a.from.y as int)
}

/// The disambiguation inserted after the piece letter: the origin file when
/// it singles the mover out, else the origin row, else both.
pub open spec fn disambig(b: Seq<Option<Piece>>, a: Action) -> Seq<char> {
    if !ambiguous_like(b, a, false, false) {
        seq![]
    } else if !ambiguous_like(b, a, true, false) {
        seq![file_char(a.from.x as int)]
    } else if !ambiguous_like(b, a, false, true) {
        seq![row_char(a.from.y as int)]
    } else {
        seq![file_char(a.from.x as int), row_char(a.from.y as int)]
    }
}

/// Standard short algebraic form of `a` on the board it is about to be
/// played on: castle symbols, or piece letter (origin file for pawn
/// captures), disambiguation, capture marker, destination, and promotion
/// suffix.
pub open spec fn describe_spec(b: Seq<Option<Piece>>, a: Action, promo: Option<Rank>) -> Seq<
    char,
> {
    if a.action_type == ActionType::Castle {
        if a.to.x == 6 {
            seq!['O', '-', 'O']
        } else {
            seq!['O', '-', 'O', '-', 'O']
        }
    } else {
        match at(b, a.from.x as int, a.from.y as int) {
            None => seq![],
            Some(p) => {
                let capture = a.action_type == ActionType::Capture || a.action_type
                    == ActionType::EnPassant || (a.action_type == ActionType::Promotion
                    && occupied_by(b, opp(p.team), a.to.x as int, a.to.y as int));
                let dest = coord_seq(a.to.x as int, a.to.y as int);
                if p.rank == Rank::Pawn {
                    let head = if capture {
                        seq![file_char(a.from.x as int), 'x']
                    } else {
                        seq![]
                    };
                    let tail = if a.action_type == ActionType::Promotion {
                        match promo {
                            Some(pr) => seq!['='] + rank_letter(pr),
                            None => seq![],
                        }
                    } else {
                        seq![]
                    };
                    head + dest + tail
                } else {
                    rank_letter(p.rank) + disambig(b, a) + (if capture {
                        seq!['x']
                    } else {
                        seq![]
                    }) + dest
                }
            },
        }
    }
}

/// The 1-based digit of a row as a string slice.
fn row_str(y: isize) -> (r: &'static str)
    requires
        0 <= y < 8,
    ensures
        r@ == seq![row_char(y as int)],
{
    proof {
        reveal_strlit("1");
        reveal_strlit("2");
        reveal_strlit("3");
        reveal_strlit("4");
        reveal_strlit("5");
        reveal_strlit("6");
        reveal_strlit("7");
        reveal_strlit("8");
    }
    let r = if y == 0 {
        "1"
    } else if y == 1 {
        "2"
    } else if y == 2 {
        "3"
    } else if y == 3 {
        "4"
    } else if y == 4 {
        "5"
    } else if y == 5 {
        "6"
    } else if y == 6 {
        "7"
    } else {
        "8"
    };
    assert(r@ =~= seq![row_char(y as int)]);
    r
}

/// The notation letter of a piece class as a string slice.
fn rank_letter_str(r: Rank) -> (s: &'static str)
    ensures
        s@ == rank_letter(r),
{
    proof {
        reveal_strlit("K");
        reveal_strlit("Q");
        reveal_strlit("R");
        reveal_strlit("B");
        reveal_strlit("N");
        reveal_strlit("");
    }
    let s = match r {
        Rank::King => "K",
        Rank::Queen => "Q",
        Rank::Rook => "R",
        Rank::Bishop => "B",
        Rank::Knight => "N",
        Rank::Pawn => "",
    };
    assert(s@ =~= rank_letter(r));
    s
}

/// Scan the board for an identical piece elsewhere that could also reach
/// the action's destination, optionally confined to the mover's file or
/// row.
fn any_other_reaches(b: &Board, a: Action, need_file: bool, need_row: bool) -> (r: bool)
    requires
        b.wf(),
        in_bounds(a.from.x as int, a.from.y as int),
        in_bounds(a.to.x as int, a.to.y as int),
    ensures
        r == ambiguous_like(b@, a, need_file, need_row),
{
    let empty_h: Vec<Action> = Vec::new();
    proof {
        assert(empty_h@ =~= Seq::<Action>::empty());
    }
    let mut i: usize = 0;
    while i < 64
        invariant
            b.wf(),
            in_bounds(a.from.x as int, a.from.y as int),
            in_bounds(a.to.x as int, a.to.y as int),
            empty_h@ == Seq::<Action>::empty(),
            i <= 64,
            forall|ox: int, oy: int|
                in_bounds(ox, oy) && crate::board::sq(ox, oy) < i ==> !(#[trigger] other_reaches(
                    b@,
                    a,
                    ox,
                    oy,
                ) && (need_file ==> ox == a.from.x as int) && (need_row ==> oy
                    == a.from.y as int)),
        decreases 64 - i,
    {
        let ox = (i % 8) as isize;
        let oy = (i / 8) as isize;
        let mut hit = false;
        if !(ox == a.from.x && oy == a.from.y) && (!need_file || ox == a.from.x) && (!need_row
            || oy == a.from.y) {
            let here = b.piece_at(BoardPosition { x: ox, y: oy });
            let origin = b.piece_at(a.from);
            let same = match (here, origin) {
                (Some(h), Some(o)) => h == o,
                (None, None) => true,
                _ => false,
            };
            if same {
                if dest_kind_exec(b, &empty_h, ox, oy, a.to.x, a.to.y).is_some() {
                    assert(other_reaches(b@, a, ox as int, oy as int));
                    hit = true;
                }
            }
        }
        if hit {
            return true;
        }
        proof {
            assert(forall|px: int, py: int|
                in_bounds(px, py) && crate::board::sq(px, py) == i ==> px == i % 8 && py == i
                    / 8);
        }
        i = i + 1;
    }
    proof {
        if ambiguous_like(b@, a, need_file, need_row) {
            let (ox, oy) = choose|ox: int, oy: int|
                #[trigger] other_reaches(b@, a, ox, oy) && (need_file ==> ox == a.from.x as int)
                    && (need_row ==> oy == a.from.y as int);
            assert(crate::board::sq(ox, oy) < 64);
        }
    }
    false
}

/// Render a performed action in standard short algebraic form, from the
/// board state immediately before it; `promo` is the pending promotion
/// class for a Promotion action.
pub fn describe(action: Action, board_before: &Board, promo: Option<Rank>) -> (r: String)
    requires
        board_before.wf(),
        in_bounds(action.from.x as int, action.from.y as int),
        in_bounds(action.to.x as int, action.to.y as int),
    ensures
        r@ == describe_spec(board_before@, action, promo),
{
    proof {
        reveal_strlit("O-O");
        reveal_strlit("O-O-O");
        reveal_strlit("x");
        reveal_strlit("=");
        reveal_strlit("");
    }
    if action.action_type == ActionType::Castle {
        let s = if action.to.x == 6 {
            String::from_str("O-O")
        } else {
            String::from_str("O-O-O")
        };
        assert(s@ =~= describe_spec(board_before@, action, promo));
        return s;
    }
    let p = match board_before.piece_at(action.from) {
        Some(p) => p,
        None => {
            let s = String::from_str("");
            assert(s@ =~= describe_spec(board_before@, action, promo));
            return s;
        },
    };
    let promo_captures = action.action_type == ActionType::Promotion && (match board_before
        .piece_at(action.to) {
        Some(q) => q.team != p.team,
        None => false,
    });
    let capture = action.action_type == ActionType::Capture || action.action_type
        == ActionType::EnPassant || promo_captures;
    let dest = to_algebraic(action.to);
    if p.rank == Rank::Pawn {
        let mut s = String::from_str("");
        if capture {
            s = s.concat(file_str(action.from.x));
            s = s.concat("x");
        }
        s = s.concat(dest.as_str());
        if action.action_type == ActionType::Promotion {
            match promo {
                Some(pr) => {
                    s = s.concat("=");
                    s = s.concat(rank_letter_str(pr));
                },
                None => {},
            }
        }
        assert(s@ =~= describe_spec(board_before@, action, promo));
        s
    } else {
        let mut s = String::from_str(rank_letter_str(p.rank));
        if any_other_reaches(board_before, action, false, false) {
            if !any_other_reaches(board_before, action, true, false) {
                s = s.concat(file_str(action.from.x));
            } else if !any_other_reaches(board_before, action, false, true) {
                s = s.concat(row_str(action.from.y));
            } else {
                s = s.concat(file_str(action.from.x));
                s = s.concat(row_str(action.from.y));
            }
        }
        if capture {
            s = s.concat("x");
        }
        s = s.concat(dest.as_str());
        assert(s@ =~= describe_spec(board_before@, action, promo));
        s
    }
}

} // verus!
