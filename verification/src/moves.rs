//! Move generation and attack computation: pseudo-legal destination
//! enumeration per piece class, the attack query used for check detection,
//! board application of an action, and the legality filter that discards
//! moves leaving the mover's own King attacked.

use vstd::prelude::*;

use crate::board::at;
use crate::board::empty_at;
use crate::board::in_bounds;
use crate::board::occupied_by;
use crate::board::opp;
use crate::board::sq;
use crate::board::Board;
use crate::board::BoardPosition;
use crate::board::Piece;
use crate::board::Rank;
use crate::board::Team;

verus! {

/// How an action changes the board beyond moving one piece.
#[derive(Clone, Copy, PartialEq, Eq, Structural, Debug)]
pub enum ActionType {
    Normal,
    Capture,
    Castle,
    EnPassant,
    Promotion,
}

/// A proposed or applied move: origin, destination, and special-move
/// classification.
#[derive(Clone, Copy, PartialEq, Eq, Structural, Debug)]
pub struct Action {
    pub from: BoardPosition,
    pub to: BoardPosition,
    pub action_type: ActionType,
}

/// Absolute difference from zero.
pub open spec fn delta(d: int) -> int {
    if d < 0 {
        -d
    } else {
        d
    }
}

/// One step toward a target: -1, 0 or 1.
pub open spec fn step(d: int) -> int {
    if d > 0 {
        1
    } else if d < 0 {
        -1
    } else {
        0
    }
}

/// The direction a pawn of team `t` advances in.
pub open spec fn pawn_dir(t: Team) -> int {
    match t {
        Team::White => 1,
        Team::Black => -1,
    }
}

/// The row a team's pawns start on.
pub open spec fn pawn_start_row(t: Team) -> int {
    match t {
        Team::White => 1,
        Team::Black => 6,
    }
}

/// The farthest row for a team's pawns: landing there promotes.
pub open spec fn promotion_row(t: Team) -> int {
    match t {
        Team::White => 7,
        Team::Black => 0,
    }
}

/// The row a team's King and Rooks start on.
pub open spec fn home_row(t: Team) -> int {
    match t {
        Team::White => 0,
        Team::Black => 7,
    }
}

/// Every square strictly between (x, y) and (tx, ty), walking one step at a
/// time toward the target, is empty.
pub open spec fn path_clear(b: Seq<Option<Piece>>, x: int, y: int, tx: int, ty: int) -> bool
    decreases delta(tx - x) + delta(ty - y),
{
    if x == tx && y == ty {
        true
    } else {
        let nx = x + step(tx - x);
        let ny = y + step(ty - y);
        if nx == tx && ny == ty {
            true
        } else {
            at(b, nx, ny) is None && path_clear(b, nx, ny, tx, ty)
        }
    }
}

/// Piece `p` standing on (sx, sy) attacks (tx, ty) in one pseudo-legal move.
/// For pawns this is the diagonal capture pattern alone; castling is not an
/// attack.
pub open spec fn piece_attacks(
    b: Seq<Option<Piece>>,
    p: Piece,
    sx: int,
    sy: int,
    tx: int,
    ty: int,
) -> bool {
    let dx = tx - sx;
    let dy = ty - sy;
    in_bounds(sx, sy) && in_bounds(tx, ty) && !(dx == 0 && dy == 0) && match p.rank {
        Rank::Knight => (delta(dx) == 1 && delta(dy) == 2) || (delta(dx) == 2 && delta(dy) == 1),
        Rank::King => delta(dx) <= 1 && delta(dy) <= 1,
        Rank::Pawn => dy == pawn_dir(p.team) && delta(dx) == 1,
        Rank::Rook => (dx == 0 || dy == 0) && path_clear(b, sx, sy, tx, ty),
        Rank::Bishop => delta(dx) == delta(dy) && path_clear(b, sx, sy, tx, ty),
        Rank::Queen => (dx == 0 || dy == 0 || delta(dx) == delta(dy)) && path_clear(
            b,
            sx,
            sy,
            tx,
            ty,
        ),
    }
}

/// A piece of team `t` stands on (sx, sy) and attacks (tx, ty).
pub open spec fn attacker_at(
    b: Seq<Option<Piece>>,
    t: Team,
    sx: int,
    sy: int,
    tx: int,
    ty: int,
) -> bool {
    in_bounds(sx, sy) && (at(b, sx, sy) matches Some(p) && p.team == t && piece_attacks(
        b,
        p,
        sx,
        sy,
        tx,
        ty,
    ))
}

/// Team `t` attacks square (tx, ty): some piece of `t` reaches it in one
/// pseudo-legal move.
pub open spec fn attacked(b: Seq<Option<Piece>>, t: Team, tx: int, ty: int) -> bool {
    exists|sx: int, sy: int| #[trigger] attacker_at(b, t, sx, sy, tx, ty)
}

/// A King of team `t` stands on (x, y).
pub open spec fn is_king_at(b: Seq<Option<Piece>>, t: Team, x: int, y: int) -> bool {
    in_bounds(x, y) && at(b, x, y) == Some(Piece { team: t, rank: Rank::King })
}

/// Team `t` is in check: one of its Kings stands on a square the opponent
/// attacks.
pub open spec fn in_check(b: Seq<Option<Piece>>, t: Team) -> bool {
    exists|x: int, y: int| #[trigger] is_king_at(b, t, x, y) && attacked(b, opp(t), x, y)
}

/// Walk the squares strictly between (x, y) and (tx, ty) and report whether
/// all of them are empty.
pub fn path_clear_exec(b: &Board, x: isize, y: isize, tx: isize, ty: isize) -> (r: bool)
    requires
        b.wf(),
        in_bounds(x as int, y as int),
        in_bounds(tx as int, ty as int),
        tx == x || ty == y || delta(tx - x) == delta(ty - y),
    ensures
        r == path_clear(b@, x as int, y as int, tx as int, ty as int),
    decreases delta(tx - x) + delta(ty - y),
{
    if x == tx && y == ty {
        true
    } else {
        let ux: isize = if tx > x {
            1
        } else if tx < x {
            -1
        } else {
            0
        };
        let uy: isize = if ty > y {
            1
        } else if ty < y {
            -1
        } else {
            0
        };
        let nx = x + ux;
        let ny = y + uy;
        if nx == tx && ny == ty {
            true
        } else {
            let here = b.piece_at(BoardPosition { x: nx, y: ny });
            here.is_none() && path_clear_exec(b, nx, ny, tx, ty)
        }
    }
}

/// Decide whether piece `p` on (sx, sy) attacks (tx, ty).
pub fn piece_attacks_exec(b: &Board, p: Piece, sx: isize, sy: isize, tx: isize, ty: isize) -> (r:
    bool)
    requires
        b.wf(),
        in_bounds(sx as int, sy as int),
        in_bounds(tx as int, ty as int),
    ensures
        r == piece_attacks(b@, p, sx as int, sy as int, tx as int, ty as int),
{
    let dx = tx - sx;
    let dy = ty - sy;
    if dx == 0 && dy == 0 {
        return false;
    }
    let adx: isize = if dx < 0 {
        -dx
    } else {
        dx
    };
    let ady: isize = if dy < 0 {
        -dy
    } else {
        dy
    };
    match p.rank {
        Rank::Knight => (adx == 1 && ady == 2) || (adx == 2 && ady == 1),
        Rank::King => adx <= 1 && ady <= 1,
        Rank::Pawn => {
            let d: isize = if p.team == Team::White {
                1
            } else {
                -1
            };
            dy == d && adx == 1
        },
        Rank::Rook => (dx == 0 || dy == 0) && path_clear_exec(b, sx, sy, tx, ty),
        Rank::Bishop => adx == ady && path_clear_exec(b, sx, sy, tx, ty),
        Rank::Queen => (dx == 0 || dy == 0 || adx == ady) && path_clear_exec(b, sx, sy, tx, ty),
    }
}

/// Answer the attack query: does team `t` attack square (tx, ty)?
pub fn attacked_exec(b: &Board, t: Team, tx: isize, ty: isize) -> (r: bool)
    requires
        b.wf(),
        in_bounds(tx as int, ty as int),
    ensures
        r == attacked(b@, t, tx as int, ty as int),
{
    let mut i: usize = 0;
    while i < 64
        invariant
            b.wf(),
            in_bounds(tx as int, ty as int),
            i <= 64,
            forall|x: int, y: int|
                in_bounds(x, y) && sq(x, y) < i ==> !attacker_at(
                    b@,
                    t,
                    x,
                    y,
                    tx as int,
                    ty as int,
                ),
        decreases 64 - i,
    {
        let x = (i % 8) as isize;
        let y = (i / 8) as isize;
        if let Some(p) = b.piece_at(BoardPosition { x, y }) {
            if p.team == t && piece_attacks_exec(b, p, x, y, tx, ty) {
                assert(attacker_at(b@, t, x as int, y as int, tx as int, ty as int));
                return true;
            }
        }
        assert(forall|px: int, py: int|
            in_bounds(px, py) && sq(px, py) == i ==> px == i % 8 && py == i / 8);
        i = i + 1;
    }
    proof {
        if attacked(b@, t, tx as int, ty as int) {
            let (sx, sy) = choose|sx: int, sy: int|
                #[trigger] attacker_at(b@, t, sx, sy, tx as int, ty as int);
            assert(in_bounds(sx, sy));
            assert(sq(sx, sy) < 64);
            assert(!attacker_at(b@, t, sx, sy, tx as int, ty as int));
        }
    }
    false
}

/// Decide whether team `t` is in check on board `b`.
pub fn in_check_exec(b: &Board, t: Team) -> (r: bool)
    requires
        b.wf(),
    ensures
        r == in_check(b@, t),
{
    let mut i: usize = 0;
    while i < 64
        invariant
            b.wf(),
            i <= 64,
            forall|x: int, y: int|
                in_bounds(x, y) && sq(x, y) < i ==> !(is_king_at(b@, t, x, y) && attacked(
                    b@,
                    opp(t),
                    x,
                    y,
                )),
        decreases 64 - i,
    {
        let x = (i % 8) as isize;
        let y = (i / 8) as isize;
        if let Some(p) = b.piece_at(BoardPosition { x, y }) {
            if p.team == t && matches!(p.rank, Rank::King) {
                let enemy = match t {
                    Team::White => Team::Black,
                    Team::Black => Team::White,
                };
                if attacked_exec(b, enemy, x, y) {
                    assert(is_king_at(b@, t, x as int, y as int));
                    return true;
                }
            }
        }
        assert(forall|px: int, py: int|
            in_bounds(px, py) && sq(px, py) == i ==> px == i % 8 && py == i / 8);
        i = i + 1;
    }
    proof {
        if in_check(b@, t) {
            let (x, y) = choose|x: int, y: int|
                #[trigger] is_king_at(b@, t, x, y) && attacked(b@, opp(t), x, y);
            assert(sq(x, y) < 64);
        }
    }
    false
}

/// Action `a` has (x, y) as its origin or destination.
pub open spec fn touches(a: Action, x: int, y: int) -> bool {
    (a.from.x == x && a.from.y == y) || (a.to.x == x && a.to.y == y)
}

/// No action in the history moved a piece from or onto (x, y); the piece
/// that started there (if any) has never moved.
pub open spec fn square_untouched(h: Seq<Action>, x: int, y: int) -> bool {
    forall|i: int| 0 <= i < h.len() ==> !touches(#[trigger] h[i], x, y)
}

/// A pawn of team `t` on (sx, sy) may capture en passant onto (tx, ty):
/// the square passed over by an enemy pawn that advanced two squares on the
/// immediately preceding move, landing beside the mover's pawn.
pub open spec fn ep_available(
    b: Seq<Option<Piece>>,
    h: Seq<Action>,
    t: Team,
    sx: int,
    sy: int,
    tx: int,
    ty: int,
) -> bool {
    &&& h.len() > 0
    &&& ty == sy + pawn_dir(t)
    &&& delta(tx - sx) == 1
    &&& at(b, tx, ty) is None
    &&& at(b, tx, sy) == Some(Piece { team: opp(t), rank: Rank::Pawn })
    &&& h.last().from.x == tx
    &&& h.last().from.y == sy + 2 * pawn_dir(t)
    &&& h.last().to.x == tx
    &&& h.last().to.y == sy
}

/// Team `t` may castle on the given side: King and the relevant Rook stand
/// on their home squares and have never moved, the squares between them are
/// empty, and none of the King's start, transit and destination squares is
/// attacked by the opponent.
pub open spec fn castle_ok(
    b: Seq<Option<Piece>>,
    h: Seq<Action>,
    t: Team,
    kingside: bool,
) -> bool {
    let y = home_row(t);
    let rx: int = if kingside {
        7
    } else {
        0
    };
    &&& at(b, 4, y) == Some(Piece { team: t, rank: Rank::King })
    &&& at(b, rx, y) == Some(Piece { team: t, rank: Rank::Rook })
    &&& square_untouched(h, 4, y)
    &&& square_untouched(h, rx, y)
    &&& if kingside {
        &&& empty_at(b, 5, y)
        &&& empty_at(b, 6, y)
        &&& !attacked(b, opp(t), 4, y)
        &&& !attacked(b, opp(t), 5, y)
        &&& !attacked(b, opp(t), 6, y)
    } else {
        &&& empty_at(b, 1, y)
        &&& empty_at(b, 2, y)
        &&& empty_at(b, 3, y)
        &&& !attacked(b, opp(t), 4, y)
        &&& !attacked(b, opp(t), 3, y)
        &&& !attacked(b, opp(t), 2, y)
    }
}

/// Pseudo-legal destination classification for a pawn of team `t` on
/// (sx, sy) moving to (tx, ty): single step onto an empty square, double
/// step from the start row over an empty square, diagonal capture onto an
/// enemy piece, or en passant; landing on the farthest row promotes.
pub open spec fn pawn_dest_kind(
    b: Seq<Option<Piece>>,
    h: Seq<Action>,
    t: Team,
    sx: int,
    sy: int,
    tx: int,
    ty: int,
) -> Option<ActionType> {
    let d = pawn_dir(t);
    if tx == sx && ty == sy + d && at(b, tx, ty) is None {
        Some(
            if ty == promotion_row(t) {
                ActionType::Promotion
            } else {
                ActionType::Normal
            },
        )
    } else if tx == sx && ty == sy + 2 * d && sy == pawn_start_row(t) && at(b, sx, sy + d) is None
        && at(b, tx, ty) is None {
        Some(ActionType::Normal)
    } else if delta(tx - sx) == 1 && ty == sy + d && occupied_by(b, opp(t), tx, ty) {
        Some(
            if ty == promotion_row(t) {
                ActionType::Promotion
            } else {
                ActionType::Capture
            },
        )
    } else if ep_available(b, h, t, sx, sy, tx, ty) {
        Some(ActionType::EnPassant)
    } else {
        None
    }
}

/// Pseudo-legal destination classification: `Some(kind)` when the piece on
/// (sx, sy) may move to (tx, ty) by per-piece movement rules (not yet
/// filtered against leaving its own King attacked), and what kind of action
/// that move is; `None` otherwise.
pub open spec fn dest_kind(
    b: Seq<Option<Piece>>,
    h: Seq<Action>,
    sx: int,
    sy: int,
    tx: int,
    ty: int,
) -> Option<ActionType> {
    if !in_bounds(sx, sy) || !in_bounds(tx, ty) || (sx == tx && sy == ty) {
        None
    } else {
        match at(b, sx, sy) {
            None => None,
            Some(p) => {
                let t = p.team;
                if occupied_by(b, t, tx, ty) {
                    None
                } else {
                    match p.rank {
                        Rank::Pawn => pawn_dest_kind(b, h, t, sx, sy, tx, ty),
                        Rank::King => {
                            if piece_attacks(b, p, sx, sy, tx, ty) {
                                Some(
                                    if occupied_by(b, opp(t), tx, ty) {
                                        ActionType::Capture
                                    } else {
                                        ActionType::Normal
                                    },
                                )
                            } else if sx == 4 && sy == home_row(t) && ty == sy && tx == 6
                                && castle_ok(b, h, t, true) {
                                Some(ActionType::Castle)
                            } else if sx == 4 && sy == home_row(t) && ty == sy && tx == 2
                                && castle_ok(b, h, t, false) {
                                Some(ActionType::Castle)
                            } else {
                                None
                            }
                        },
                        _ => {
                            if piece_attacks(b, p, sx, sy, tx, ty) {
                                Some(
                                    if occupied_by(b, opp(t), tx, ty) {
                                        ActionType::Capture
                                    } else {
                                        ActionType::Normal
                                    },
                                )
                            } else {
                                None
                            }
                        },
                    }
                }
            },
        }
    }
}

/// The board after applying action `a`: the moved piece leaves its origin
/// and lands on its destination (substituted by `promo` on a Promotion); en
/// passant also removes the captured pawn, castling also relocates the Rook.
pub open spec fn board_apply(b: Seq<Option<Piece>>, a: Action, promo: Rank) -> Seq<Option<Piece>> {
    let fx = a.from.x as int;
    let fy = a.from.y as int;
    let tx = a.to.x as int;
    let ty = a.to.y as int;
    let p = at(b, fx, fy);
    let moved = if a.action_type == ActionType::Promotion {
        match p {
            Some(q) => Some(Piece { team: q.team, rank: promo }),
            None => None,
        }
    } else {
        p
    };
    let b1 = b.update(sq(fx, fy), None).update(sq(tx, ty), moved);
    match a.action_type {
        ActionType::EnPassant => b1.update(sq(tx, fy), None),
        ActionType::Castle => {
            let rook = match p {
                Some(q) => Some(Piece { team: q.team, rank: Rank::Rook }),
                None => None,
            };
            if tx == 6 {
                b1.update(sq(7, ty), None).update(sq(5, ty), rook)
            } else {
                b1.update(sq(0, ty), None).update(sq(3, ty), rook)
            }
        },
        _ => b1,
    }
}

/// The action value that moves (sx, sy) -> (tx, ty) with kind `k`.
pub open spec fn sim_action(sx: int, sy: int, tx: int, ty: int, k: ActionType) -> Action {
    Action {
        from: BoardPosition { x: sx as isize, y: sy as isize },
        to: BoardPosition { x: tx as isize, y: ty as isize },
        action_type: k,
    }
}

/// The move (sx, sy) -> (tx, ty) of kind `k` is legal: it is pseudo-legal,
/// and after hypothetically applying it the mover's own King is not attacked
/// by the opponent. (For the hypothetical application of a promotion the
/// substituted class is immaterial to the mover's King's safety; Queen is
/// used.)
pub open spec fn legal_dest(
    b: Seq<Option<Piece>>,
    h: Seq<Action>,
    sx: int,
    sy: int,
    tx: int,
    ty: int,
    k: ActionType,
) -> bool {
    &&& dest_kind(b, h, sx, sy, tx, ty) == Some(k)
    &&& (at(b, sx, sy) matches Some(p) && !in_check(
        board_apply(b, sim_action(sx, sy, tx, ty, k), Rank::Queen),
        p.team,
    ))
}

/// Some element of `s` has (tx, ty) as its destination.
pub open spec fn has_dest(s: Seq<Action>, tx: int, ty: int) -> bool {
    exists|i: int| 0 <= i < s.len() && (#[trigger] s[i]).to.x == tx && s[i].to.y == ty
}

/// Some element of `s` equals `a`.
pub open spec fn has_action(s: Seq<Action>, a: Action) -> bool {
    exists|i: int| 0 <= i < s.len() && s[i] == a
}

/// Decide whether the piece that started on (x, y) has ever moved, by
/// scanning the move history.
pub fn untouched_exec(h: &Vec<Action>, x: isize, y: isize) -> (r: bool)
    ensures
        r == square_untouched(h@, x as int, y as int),
{
    let mut j: usize = 0;
    while j < h.len()
        invariant
            j <= h@.len(),
            forall|i: int| 0 <= i < j ==> !touches(#[trigger] h@[i], x as int, y as int),
        decreases h@.len() - j,
    {
        let a = h[j];
        if (a.from.x == x && a.from.y == y) || (a.to.x == x && a.to.y == y) {
            assert(touches(h@[j as int], x as int, y as int));
            return false;
        }
        j = j + 1;
    }
    true
}

/// Decide whether team `t` may castle on the given side.
fn castle_ok_exec(b: &Board, h: &Vec<Action>, t: Team, kingside: bool) -> (r: bool)
    requires
        b.wf(),
    ensures
        r == castle_ok(b@, h@, t, kingside),
{
    let y: isize = match t {
        Team::White => 0,
        Team::Black => 7,
    };
    let rx: isize = if kingside {
        7
    } else {
        0
    };
    let enemy = match t {
        Team::White => Team::Black,
        Team::Black => Team::White,
    };
    let king_home = match b.piece_at(BoardPosition { x: 4, y }) {
        Some(p) => p == Piece { team: t, rank: Rank::King },
        None => false,
    };
    if !king_home {
        return false;
    }
    let rook_home = match b.piece_at(BoardPosition { x: rx, y }) {
        Some(p) => p == Piece { team: t, rank: Rank::Rook },
        None => false,
    };
    if !rook_home {
        return false;
    }
    if !untouched_exec(h, 4, y) {
        return false;
    }
    if !untouched_exec(h, rx, y) {
        return false;
    }
    if kingside {
        b.piece_at(BoardPosition { x: 5, y }).is_none() && b.piece_at(
            BoardPosition { x: 6, y },
        ).is_none() && !attacked_exec(b, enemy, 4, y) && !attacked_exec(b, enemy, 5, y)
            && !attacked_exec(b, enemy, 6, y)
    } else {
        b.piece_at(BoardPosition { x: 1, y }).is_none() && b.piece_at(
            BoardPosition { x: 2, y },
        ).is_none() && b.piece_at(BoardPosition { x: 3, y }).is_none() && !attacked_exec(
            b,
            enemy,
            4,
            y,
        ) && !attacked_exec(b, enemy, 3, y) && !attacked_exec(b, enemy, 2, y)
    }
}

/// Classify a pawn move (sx, sy) -> (tx, ty) of team `t`.
fn pawn_dest_kind_exec(b: &Board, h: &Vec<Action>, t: Team, sx: isize, sy: isize, tx: isize, ty:
    isize) -> (r: Option<ActionType>)
    requires
        b.wf(),
        in_bounds(sx as int, sy as int),
        in_bounds(tx as int, ty as int),
    ensures
        r == pawn_dest_kind(b@, h@, t, sx as int, sy as int, tx as int, ty as int),
{
    let d: isize = match t {
        Team::White => 1,
        Team::Black => -1,
    };
    let promo_row: isize = match t {
        Team::White => 7,
        Team::Black => 0,
    };
    let start_row: isize = match t {
        Team::White => 1,
        Team::Black => 6,
    };
    let enemy = match t {
        Team::White => Team::Black,
        Team::Black => Team::White,
    };
    let adx: isize = if tx - sx < 0 {
        sx - tx
    } else {
        tx - sx
    };
    let target = b.piece_at(BoardPosition { x: tx, y: ty });
    if tx == sx && ty == sy + d && target.is_none() {
        Some(
            if ty == promo_row {
                ActionType::Promotion
            } else {
                ActionType::Normal
            },
        )
    } else if tx == sx && ty == sy + 2 * d && sy == start_row && b.piece_at(
        BoardPosition { x: sx, y: sy + d },
    ).is_none() && target.is_none() {
        Some(ActionType::Normal)
    } else if adx == 1 && ty == sy + d && (match target {
        Some(q) => q.team == enemy,
        None => false,
    }) {
        Some(
            if ty == promo_row {
                ActionType::Promotion
            } else {
                ActionType::Capture
            },
        )
    } else if h.len() > 0 {
        let last = h[h.len() - 1];
        let passed = match b.piece_at(BoardPosition { x: tx, y: sy }) {
            Some(q) => q == Piece { team: enemy, rank: Rank::Pawn },
            None => false,
        };
        if ty == sy + d && adx == 1 && target.is_none() && passed && last.from.x == tx
            && last.from.y == sy + 2 * d && last.to.x == tx && last.to.y == sy {
            Some(ActionType::EnPassant)
        } else {
            None
        }
    } else {
        None
    }
}

/// Classify the move (sx, sy) -> (tx, ty): `Some(kind)` when the piece on
/// (sx, sy) may move there by per-piece movement rules, `None` otherwise.
pub fn dest_kind_exec(b: &Board, h: &Vec<Action>, sx: isize, sy: isize, tx: isize, ty: isize) -> (r:
    Option<ActionType>)
    requires
        b.wf(),
        in_bounds(sx as int, sy as int),
        in_bounds(tx as int, ty as int),
    ensures
        r == dest_kind(b@, h@, sx as int, sy as int, tx as int, ty as int),
{
    if sx == tx && sy == ty {
        return None;
    }
    let p = match b.piece_at(BoardPosition { x: sx, y: sy }) {
        Some(p) => p,
        None => {
            return None;
        },
    };
    let t = p.team;
    let enemy = match t {
        Team::White => Team::Black,
        Team::Black => Team::White,
    };
    let target = b.piece_at(BoardPosition { x: tx, y: ty });
    if let Some(q) = target {
        if q.team == t {
            return None;
        }
    }
    let capture_kind = if target.is_some() {
        ActionType::Capture
    } else {
        ActionType::Normal
    };
    match p.rank {
        Rank::Pawn => pawn_dest_kind_exec(b, h, t, sx, sy, tx, ty),
        Rank::King => {
            let home: isize = match t {
                Team::White => 0,
                Team::Black => 7,
            };
            if piece_attacks_exec(b, p, sx, sy, tx, ty) {
                Some(capture_kind)
            } else if sx == 4 && sy == home && ty == sy && tx == 6 && castle_ok_exec(b, h, t, true)
             {
                Some(ActionType::Castle)
            } else if sx == 4 && sy == home && ty == sy && tx == 2 && castle_ok_exec(
                b,
                h,
                t,
                false,
            ) {
                Some(ActionType::Castle)
            } else {
                None
            }
        },
        _ => {
            if piece_attacks_exec(b, p, sx, sy, tx, ty) {
                Some(capture_kind)
            } else {
                None
            }
        },
    }
}

/// Apply action `a` to a scratch copy of `src` and return the new board;
/// `promo` is the class substituted for a promoting pawn.
pub fn board_apply_exec(src: &Board, a: Action, promo: Rank) -> (r: Board)
    requires
        src.wf(),
        in_bounds(a.from.x as int, a.from.y as int),
        in_bounds(a.to.x as int, a.to.y as int),
    ensures
        r.wf(),
        r@ == board_apply(src@, a, promo),
{
    let mut b = src.duplicate();
    let p = b.piece_at(a.from);
    let moved = if a.action_type == ActionType::Promotion {
        match p {
            Some(q) => Some(Piece { team: q.team, rank: promo }),
            None => None,
        }
    } else {
        p
    };
    b.place(a.from, None);
    b.place(a.to, moved);
    match a.action_type {
        ActionType::EnPassant => {
            b.place(BoardPosition { x: a.to.x, y: a.from.y }, None);
        },
        ActionType::Castle => {
            let rook = match p {
                Some(q) => Some(Piece { team: q.team, rank: Rank::Rook }),
                None => None,
            };
            if a.to.x == 6 {
                b.place(BoardPosition { x: 7, y: a.to.y }, None);
                b.place(BoardPosition { x: 5, y: a.to.y }, rook);
            } else {
                b.place(BoardPosition { x: 0, y: a.to.y }, None);
                b.place(BoardPosition { x: 3, y: a.to.y }, rook);
            }
        },
        _ => {},
    }
    b
}

/// All pseudo-legal actions of the piece on `from`: one action per
/// destination square that `dest_kind` accepts.
pub fn pseudo_actions(b: &Board, h: &Vec<Action>, from: BoardPosition) -> (r: Vec<Action>)
    requires
        b.wf(),
        in_bounds(from.x as int, from.y as int),
    ensures
        forall|i: int|
            0 <= i < r@.len() ==> (#[trigger] r@[i]).from == from && in_bounds(
                r@[i].to.x as int,
                r@[i].to.y as int,
            ) && dest_kind(
                b@,
                h@,
                from.x as int,
                from.y as int,
                r@[i].to.x as int,
                r@[i].to.y as int,
            ) == Some(r@[i].action_type),
        forall|tx: int, ty: int|
            in_bounds(tx, ty) && (#[trigger] dest_kind(
                b@,
                h@,
                from.x as int,
                from.y as int,
                tx,
                ty,
            )) is Some ==> has_dest(r@, tx, ty),
        forall|i: int, j: int|
            #![trigger r@[i], r@[j]]
            0 <= i < j < r@.len() ==> !(r@[i].to.x == r@[j].to.x && r@[i].to.y == r@[j].to.y),
{
    let mut r: Vec<Action> = Vec::new();
    let mut i: usize = 0;
    while i < 64
        invariant
            b.wf(),
            in_bounds(from.x as int, from.y as int),
            i <= 64,
            forall|j: int|
                0 <= j < r@.len() ==> (#[trigger] r@[j]).from == from && in_bounds(
                    r@[j].to.x as int,
                    r@[j].to.y as int,
                ) && dest_kind(
                    b@,
                    h@,
                    from.x as int,
                    from.y as int,
                    r@[j].to.x as int,
                    r@[j].to.y as int,
                ) == Some(r@[j].action_type),
            forall|tx: int, ty: int|
                in_bounds(tx, ty) && sq(tx, ty) < i && (#[trigger] dest_kind(
                    b@,
                    h@,
                    from.x as int,
                    from.y as int,
                    tx,
                    ty,
                )) is Some ==> has_dest(r@, tx, ty),
            forall|j: int|
                0 <= j < r@.len() ==> sq((#[trigger] r@[j]).to.x as int, r@[j].to.y as int) < i,
            forall|j1: int, j2: int|
                #![trigger r@[j1], r@[j2]]
                0 <= j1 < j2 < r@.len() ==> sq(r@[j1].to.x as int, r@[j1].to.y as int) < sq(
                    r@[j2].to.x as int,
                    r@[j2].to.y as int,
                ),
        decreases 64 - i,
    {
        let tx = (i % 8) as isize;
        let ty = (i / 8) as isize;
        let ghost old_r = r@;
        if let Some(k) = dest_kind_exec(b, h, from.x, from.y, tx, ty) {
            r.push(Action { from, to: BoardPosition { x: tx, y: ty }, action_type: k });
            assert(r@[r@.len() - 1].to.x == tx as int && r@[r@.len() - 1].to.y == ty as int);
            assert(sq(tx as int, ty as int) == i);
        }
        proof {
            assert forall|tx2: int, ty2: int|
                has_dest(old_r, tx2, ty2) implies has_dest(r@, tx2, ty2) by {
                let j = choose|j: int|
                    0 <= j < old_r.len() && (#[trigger] old_r[j]).to.x == tx2 && old_r[j].to.y
                        == ty2;
                assert(r@[j] == old_r[j]);
            }
            assert(forall|px: int, py: int|
                in_bounds(px, py) && sq(px, py) == i ==> px == i % 8 && py == i / 8);
        }
        i = i + 1;
    }
    r
}

/// The piece on (sx, sy) has at least one legal destination.
pub open spec fn square_has_legal(b: Seq<Option<Piece>>, h: Seq<Action>, sx: int, sy: int) -> bool {
    exists|tx: int, ty: int, k: ActionType| #[trigger] legal_dest(b, h, sx, sy, tx, ty, k)
}

/// The side `t` has at least one legal action somewhere on the board.
pub open spec fn side_has_legal_action(b: Seq<Option<Piece>>, h: Seq<Action>, t: Team) -> bool {
    exists|sx: int, sy: int|
        #![trigger occupied_by(b, t, sx, sy)]
        occupied_by(b, t, sx, sy) && square_has_legal(b, h, sx, sy)
}

/// All legal actions of the piece on `from`: the pseudo-legal actions minus
/// those that would leave the mover's own King attacked, decided by
/// simulating each on a scratch copy of the board.
pub fn legal_actions_from(b: &Board, h: &Vec<Action>, from: BoardPosition) -> (r: Vec<Action>)
    requires
        b.wf(),
        in_bounds(from.x as int, from.y as int),
    ensures
        forall|i: int|
            0 <= i < r@.len() ==> (#[trigger] r@[i]).from == from && in_bounds(
                r@[i].to.x as int,
                r@[i].to.y as int,
            ) && legal_dest(
                b@,
                h@,
                from.x as int,
                from.y as int,
                r@[i].to.x as int,
                r@[i].to.y as int,
                r@[i].action_type,
            ),
        forall|tx: int, ty: int, k: ActionType|
            in_bounds(tx, ty) && #[trigger] legal_dest(
                b@,
                h@,
                from.x as int,
                from.y as int,
                tx,
                ty,
                k,
            ) ==> has_action(
                r@,
                Action {
                    from,
                    to: BoardPosition { x: tx as isize, y: ty as isize },
                    action_type: k,
                },
            ),
        forall|i: int, j: int|
            #![trigger r@[i], r@[j]]
            0 <= i < j < r@.len() ==> !(r@[i].to.x == r@[j].to.x && r@[i].to.y == r@[j].to.y),
{
    let mover = match b.piece_at(from) {
        Some(p) => p,
        None => {
            // an empty origin has no pseudo-legal move, so no legal one
            let r: Vec<Action> = Vec::new();
            proof {
                assert forall|tx: int, ty: int, k: ActionType|
                    in_bounds(tx, ty) && #[trigger] legal_dest(
                        b@,
                        h@,
                        from.x as int,
                        from.y as int,
                        tx,
                        ty,
                        k,
                    ) implies has_action(
                    r@,
                    Action {
                        from,
                        to: BoardPosition { x: tx as isize, y: ty as isize },
                        action_type: k,
                    },
                ) by {
                    assert(dest_kind(b@, h@, from.x as int, from.y as int, tx, ty) is None);
                }
            }
            return r;
        },
    };
    let mut r: Vec<Action> = Vec::new();
    let mut i: usize = 0;
    while i < 64
        invariant
            b.wf(),
            in_bounds(from.x as int, from.y as int),
            at(b@, from.x as int, from.y as int) == Some(mover),
            i <= 64,
            forall|j: int|
                0 <= j < r@.len() ==> (#[trigger] r@[j]).from == from && in_bounds(
                    r@[j].to.x as int,
                    r@[j].to.y as int,
                ) && legal_dest(
                    b@,
                    h@,
                    from.x as int,
                    from.y as int,
                    r@[j].to.x as int,
                    r@[j].to.y as int,
                    r@[j].action_type,
                ),
            forall|tx: int, ty: int, k: ActionType|
                in_bounds(tx, ty) && sq(tx, ty) < i && #[trigger] legal_dest(
                    b@,
                    h@,
                    from.x as int,
                    from.y as int,
                    tx,
                    ty,
                    k,
                ) ==> has_action(
                    r@,
                    Action {
                        from,
                        to: BoardPosition { x: tx as isize, y: ty as isize },
                        action_type: k,
                    },
                ),
            forall|j: int|
                0 <= j < r@.len() ==> sq((#[trigger] r@[j]).to.x as int, r@[j].to.y as int) < i,
            forall|j1: int, j2: int|
                #![trigger r@[j1], r@[j2]]
                0 <= j1 < j2 < r@.len() ==> sq(r@[j1].to.x as int, r@[j1].to.y as int) < sq(
                    r@[j2].to.x as int,
                    r@[j2].to.y as int,
                ),
        decreases 64 - i,
    {
        let tx = (i % 8) as isize;
        let ty = (i / 8) as isize;
        let ghost old_r = r@;
        if let Some(k) = dest_kind_exec(b, h, from.x, from.y, tx, ty) {
            let a = Action { from, to: BoardPosition { x: tx, y: ty }, action_type: k };
            let sim = board_apply_exec(b, a, Rank::Queen);
            proof {
                assert(a == sim_action(from.x as int, from.y as int, tx as int, ty as int, k));
            }
            if !in_check_exec(&sim, mover.team) {
                r.push(a);
                assert(r@[r@.len() - 1] == a);
                assert(sq(tx as int, ty as int) == i);
            }
        }
        proof {
            assert forall|a2: Action| has_action(old_r, a2) implies has_action(r@, a2) by {
                let j = choose|j: int| 0 <= j < old_r.len() && old_r[j] == a2;
                assert(r@[j] == old_r[j]);
            }
            assert(forall|px: int, py: int|
                in_bounds(px, py) && sq(px, py) == i ==> px == i % 8 && py == i / 8);
        }
        i = i + 1;
    }
    r
}

/// Decide whether side `t` has at least one legal action.
pub fn side_has_legal_action_exec(b: &Board, h: &Vec<Action>, t: Team) -> (r: bool)
    requires
        b.wf(),
    ensures
        r == side_has_legal_action(b@, h@, t),
{
    let mut i: usize = 0;
    while i < 64
        invariant
            b.wf(),
            i <= 64,
            forall|sx: int, sy: int|
                in_bounds(sx, sy) && sq(sx, sy) < i ==> !(occupied_by(b@, t, sx, sy)
                    && square_has_legal(b@, h@, sx, sy)),
        decreases 64 - i,
    {
        let x = (i % 8) as isize;
        let y = (i / 8) as isize;
        let pos = BoardPosition { x, y };
        let mut found = false;
        if let Some(p) = b.piece_at(pos) {
            if p.team == t {
                let acts = legal_actions_from(b, h, pos);
                if acts.len() > 0 {
                    proof {
                        assert(legal_dest(
                            b@,
                            h@,
                            x as int,
                            y as int,
                            acts@[0].to.x as int,
                            acts@[0].to.y as int,
                            acts@[0].action_type,
                        ));
                        assert(occupied_by(b@, t, x as int, y as int));
                    }
                    found = true;
                } else {
                    proof {
                        assert forall|tx: int, ty: int, k: ActionType| !(#[trigger] legal_dest(
                            b@,
                            h@,
                            x as int,
                            y as int,
                            tx,
                            ty,
                            k,
                        )) by {
                            if legal_dest(b@, h@, x as int, y as int, tx, ty, k) {
                                assert(dest_kind(b@, h@, x as int, y as int, tx, ty) == Some(k));
                                assert(in_bounds(tx, ty));
                                assert(has_action(acts@, Action {
                                    from: pos,
                                    to: BoardPosition { x: tx as isize, y: ty as isize },
                                    action_type: k,
                                }));
                            }
                        }
                    }
                }
            }
        }
        if found {
            return true;
        }
        proof {
            assert(forall|px: int, py: int|
                in_bounds(px, py) && sq(px, py) == i ==> px == i % 8 && py == i / 8);
        }
        i = i + 1;
    }
    proof {
        if side_has_legal_action(b@, h@, t) {
            let (sx, sy) = choose|sx: int, sy: int|
                #![trigger occupied_by(b@, t, sx, sy)]
                occupied_by(b@, t, sx, sy) && square_has_legal(b@, h@, sx, sy);
            assert(sq(sx, sy) < 64);
        }
    }
    false
}

/// Distinct in-bounds coordinates index distinct squares.
pub proof fn lemma_sq_injective(x1: int, y1: int, x2: int, y2: int)
    requires
        in_bounds(x1, y1),
        in_bounds(x2, y2),
        sq(x1, y1) == sq(x2, y2),
    ensures
        x1 == x2 && y1 == y2,
{
}

/// Two boards with the same occupancy (square-for-square, occupied or not)
/// have the same clear paths.
proof fn lemma_path_clear_occupancy(
    b1: Seq<Option<Piece>>,
    b2: Seq<Option<Piece>>,
    x: int,
    y: int,
    tx: int,
    ty: int,
)
    requires
        forall|px: int, py: int|
            in_bounds(px, py) ==> (at(b1, px, py) is Some <==> at(b2, px, py) is Some),
        in_bounds(x, y),
        in_bounds(tx, ty),
    ensures
        path_clear(b1, x, y, tx, ty) == path_clear(b2, x, y, tx, ty),
    decreases delta(tx - x) + delta(ty - y),
{
    if x == tx && y == ty {
    } else {
        let nx = x + step(tx - x);
        let ny = y + step(ty - y);
        if nx == tx && ny == ty {
        } else {
            assert(in_bounds(nx, ny));
            lemma_path_clear_occupancy(b1, b2, nx, ny, tx, ty);
        }
    }
}

/// Two boards with the same occupancy give every piece the same attacks.
proof fn lemma_piece_attacks_occupancy(
    b1: Seq<Option<Piece>>,
    b2: Seq<Option<Piece>>,
    p: Piece,
    sx: int,
    sy: int,
    tx: int,
    ty: int,
)
    requires
        forall|px: int, py: int|
            in_bounds(px, py) ==> (at(b1, px, py) is Some <==> at(b2, px, py) is Some),
    ensures
        piece_attacks(b1, p, sx, sy, tx, ty) == piece_attacks(b2, p, sx, sy, tx, ty),
{
    if in_bounds(sx, sy) && in_bounds(tx, ty) {
        match p.rank {
            Rank::Rook | Rank::Bishop | Rank::Queen => {
                lemma_path_clear_occupancy(b1, b2, sx, sy, tx, ty);
            },
            _ => {},
        }
    }
}

/// If two boards agree on every square but one, and that square holds a
/// non-King piece of team `t` in both, then team `t` is in check on one
/// exactly when it is on the other.
proof fn lemma_in_check_one_square(
    b1: Seq<Option<Piece>>,
    b2: Seq<Option<Piece>>,
    t: Team,
    ex: int,
    ey: int,
)
    requires
        in_bounds(ex, ey),
        forall|x: int, y: int|
            in_bounds(x, y) && !(x == ex && y == ey) ==> at(b1, x, y) == at(b2, x, y),
        at(b1, ex, ey) matches Some(p) && p.team == t && p.rank != Rank::King,
        at(b2, ex, ey) matches Some(p) && p.team == t && p.rank != Rank::King,
    ensures
        in_check(b1, t) == in_check(b2, t),
{
    lemma_in_check_one_square_dir(b1, b2, t, ex, ey);
    lemma_in_check_one_square_dir(b2, b1, t, ex, ey);
}

/// One direction of `lemma_in_check_one_square`.
proof fn lemma_in_check_one_square_dir(
    b1: Seq<Option<Piece>>,
    b2: Seq<Option<Piece>>,
    t: Team,
    ex: int,
    ey: int,
)
    requires
        in_bounds(ex, ey),
        forall|x: int, y: int|
            in_bounds(x, y) && !(x == ex && y == ey) ==> at(b1, x, y) == at(b2, x, y),
        at(b1, ex, ey) matches Some(p) && p.team == t && p.rank != Rank::King,
        at(b2, ex, ey) matches Some(p) && p.team == t && p.rank != Rank::King,
    ensures
        in_check(b1, t) ==> in_check(b2, t),
{
    assert(forall|px: int, py: int|
        in_bounds(px, py) ==> (at(b1, px, py) is Some <==> at(b2, px, py) is Some));
    if in_check(b1, t) {
        let (kx, ky) = choose|x: int, y: int|
            #[trigger] is_king_at(b1, t, x, y) && attacked(b1, opp(t), x, y);
        assert(!(kx == ex && ky == ey));
        assert(is_king_at(b2, t, kx, ky));
        let (ax, ay) = choose|sx: int, sy: int| #[trigger] attacker_at(b1, opp(t), sx, sy, kx, ky);
        assert(!(ax == ex && ay == ey));
        let q = at(b1, ax, ay)->Some_0;
        lemma_piece_attacks_occupancy(b1, b2, q, ax, ay, kx, ky);
        assert(attacker_at(b2, opp(t), ax, ay, kx, ky));
        assert(in_check(b2, t));
    }
}

/// The class a promoting pawn is exchanged for (as long as it is not a
/// King) has no bearing on whether the mover's own King ends up attacked:
/// the legality filter may simulate any substitute.
pub proof fn lemma_promotion_choice_preserves_king_safety(
    b: Seq<Option<Piece>>,
    a: Action,
    r1: Rank,
    r2: Rank,
    t: Team,
)
    requires
        b.len() == 64,
        in_bounds(a.from.x as int, a.from.y as int),
        in_bounds(a.to.x as int, a.to.y as int),
        !(a.from.x == a.to.x && a.from.y == a.to.y),
        at(b, a.from.x as int, a.from.y as int) matches Some(p) && p.team == t,
        r1 != Rank::King,
        r2 != Rank::King,
    ensures
        in_check(board_apply(b, a, r1), t) == in_check(board_apply(b, a, r2), t),
{
    if a.action_type == ActionType::Promotion {
        let fx = a.from.x as int;
        let fy = a.from.y as int;
        let tx = a.to.x as int;
        let ty = a.to.y as int;
        let b1 = board_apply(b, a, r1);
        let b2 = board_apply(b, a, r2);
        assert forall|x: int, y: int|
            in_bounds(x, y) && !(x == tx && y == ty) implies at(b1, x, y) == at(b2, x, y) by {
            if sq(x, y) == sq(tx, ty) {
                lemma_sq_injective(x, y, tx, ty);
            }
        }
        assert(at(b1, tx, ty) matches Some(p) && p.team == t && p.rank != Rank::King);
        assert(at(b2, tx, ty) matches Some(p) && p.team == t && p.rank != Rank::King);
        lemma_in_check_one_square(b1, b2, t, tx, ty);
    }
}

/// After any legal action, the mover's own King does not stand on a square
/// attacked by the opponent — whatever class a promoting pawn was exchanged
/// for.
pub proof fn lemma_legal_action_keeps_king_safe(
    b: Seq<Option<Piece>>,
    h: Seq<Action>,
    a: Action,
    t: Team,
    promo: Rank,
)
    requires
        b.len() == 64,
        in_bounds(a.from.x as int, a.from.y as int),
        in_bounds(a.to.x as int, a.to.y as int),
        occupied_by(b, t, a.from.x as int, a.from.y as int),
        legal_dest(
            b,
            h,
            a.from.x as int,
            a.from.y as int,
            a.to.x as int,
            a.to.y as int,
            a.action_type,
        ),
        promo != Rank::King,
    ensures
        !in_check(board_apply(b, a, promo), t),
{
    let fx = a.from.x as int;
    let fy = a.from.y as int;
    let tx = a.to.x as int;
    let ty = a.to.y as int;
    assert(a == sim_action(fx, fy, tx, ty, a.action_type));
    assert(!in_check(board_apply(b, a, Rank::Queen), t));
    assert(!(a.from.x == a.to.x && a.from.y == a.to.y));
    lemma_promotion_choice_preserves_king_safety(b, a, Rank::Queen, promo, t);
}

/// A pawn standing on its start row with both squares ahead empty has the
/// single- and the double-step destination among its pseudo-legal moves.
pub proof fn lemma_pawn_double_step(
    b: Seq<Option<Piece>>,
    h: Seq<Action>,
    t: Team,
    sx: int,
    sy: int,
)
    requires
        in_bounds(sx, sy),
        at(b, sx, sy) == Some(Piece { team: t, rank: Rank::Pawn }),
        sy == pawn_start_row(t),
        at(b, sx, sy + pawn_dir(t)) is None,
        at(b, sx, sy + 2 * pawn_dir(t)) is None,
    ensures
        dest_kind(b, h, sx, sy, sx, sy + pawn_dir(t)) == Some(ActionType::Normal),
        dest_kind(b, h, sx, sy, sx, sy + 2 * pawn_dir(t)) == Some(ActionType::Normal),
{
}

/// As `lemma_pawn_double_step`, and when neither step exposes the pawn's
/// own King (the pawn is not pinned) both destinations are in the legal
/// set.
pub proof fn lemma_pawn_double_step_legal(
    b: Seq<Option<Piece>>,
    h: Seq<Action>,
    t: Team,
    sx: int,
    sy: int,
)
    requires
        in_bounds(sx, sy),
        at(b, sx, sy) == Some(Piece { team: t, rank: Rank::Pawn }),
        sy == pawn_start_row(t),
        at(b, sx, sy + pawn_dir(t)) is None,
        at(b, sx, sy + 2 * pawn_dir(t)) is None,
        !in_check(
            board_apply(
                b,
                sim_action(sx, sy, sx, sy + pawn_dir(t), ActionType::Normal),
                Rank::Queen,
            ),
            t,
        ),
        !in_check(
            board_apply(
                b,
                sim_action(sx, sy, sx, sy + 2 * pawn_dir(t), ActionType::Normal),
                Rank::Queen,
            ),
            t,
        ),
    ensures
        legal_dest(b, h, sx, sy, sx, sy + pawn_dir(t), ActionType::Normal),
        legal_dest(b, h, sx, sy, sx, sy + 2 * pawn_dir(t), ActionType::Normal),
{
    lemma_pawn_double_step(b, h, t, sx, sy);
}

/// Only a pawn still standing on its start row ever has a destination two
/// rows away: a pawn that has moved (and so left that row) cannot step
/// double.
pub proof fn lemma_double_step_only_from_start(
    b: Seq<Option<Piece>>,
    h: Seq<Action>,
    sx: int,
    sy: int,
    tx: int,
    ty: int,
    k: ActionType,
)
    requires
        at(b, sx, sy) matches Some(p) && p.rank == Rank::Pawn,
        dest_kind(b, h, sx, sy, tx, ty) == Some(k),
        delta(ty - sy) == 2,
    ensures
        sy == pawn_start_row(at(b, sx, sy)->Some_0.team),
        tx == sx,
        k == ActionType::Normal,
        at(b, sx, sy + pawn_dir(at(b, sx, sy)->Some_0.team)) is None,
        at(b, tx, ty) is None,
{
}

/// An en passant destination is offered only immediately after the
/// opponent's two-square pawn advance that landed beside the mover's pawn:
/// the last applied action must be exactly that advance. Once any other
/// action is appended to the history, the destination disappears.
pub proof fn lemma_en_passant_immediate(
    b: Seq<Option<Piece>>,
    h: Seq<Action>,
    sx: int,
    sy: int,
    tx: int,
    ty: int,
)
    requires
        dest_kind(b, h, sx, sy, tx, ty) == Some(ActionType::EnPassant),
    ensures
        at(b, sx, sy) matches Some(p) && p.rank == Rank::Pawn && {
            let t = p.team;
            &&& h.len() > 0
            &&& h.last().from.x == tx
            &&& h.last().to.x == tx
            &&& h.last().to.y == sy
            &&& h.last().from.y == sy + 2 * pawn_dir(t)
            &&& delta(tx - sx) == 1
            &&& ty == sy + pawn_dir(t)
            &&& at(b, tx, sy) == Some(Piece { team: opp(t), rank: Rank::Pawn })
        },
{
}

/// Once a further action `a` is appended to the history, en passant is
/// offered only where `a` itself was the adjacent two-square pawn advance:
/// the destination granted by an earlier advance disappears on the
/// following move.
pub proof fn lemma_en_passant_expires(
    b: Seq<Option<Piece>>,
    h: Seq<Action>,
    a: Action,
    sx: int,
    sy: int,
    tx: int,
    ty: int,
)
    requires
        dest_kind(b, h.push(a), sx, sy, tx, ty) == Some(ActionType::EnPassant),
    ensures
        at(b, sx, sy) matches Some(p) && a.from.x == tx && a.to.x == tx && a.to.y == sy
            && a.from.y == sy + 2 * pawn_dir(p.team),
{
    lemma_en_passant_immediate(b, h.push(a), sx, sy, tx, ty);
    assert(h.push(a).last() == a);
}

/// Board `b` holds at most one King of team `t`.
pub open spec fn at_most_one_king(b: Seq<Option<Piece>>, t: Team) -> bool {
    forall|x1: int, y1: int, x2: int, y2: int|
        #[trigger] is_king_at(b, t, x1, y1) && #[trigger] is_king_at(b, t, x2, y2) ==> x1 == x2
            && y1 == y2
}

/// Where a King of team `t` on the board after an action can have come
/// from: it is the moved piece (then a King of `t` stood on the origin), or
/// it already stood there, untouched.
proof fn lemma_king_source(b: Seq<Option<Piece>>, a: Action, promo: Rank, t: Team, x: int, y: int)
    requires
        b.len() == 64,
        in_bounds(a.from.x as int, a.from.y as int),
        in_bounds(a.to.x as int, a.to.y as int),
        !(a.from.x == a.to.x && a.from.y == a.to.y),
        promo != Rank::King,
        is_king_at(board_apply(b, a, promo), t, x, y),
    ensures
        (x == a.to.x as int && y == a.to.y as int && is_king_at(
            b,
            t,
            a.from.x as int,
            a.from.y as int,
        )) || (!(x == a.to.x as int && y == a.to.y as int) && !(x == a.from.x as int && y
            == a.from.y as int) && is_king_at(b, t, x, y)),
{
    let fx = a.from.x as int;
    let fy = a.from.y as int;
    let tx = a.to.x as int;
    let ty = a.to.y as int;
    if sq(x, y) == sq(fx, fy) {
        lemma_sq_injective(x, y, fx, fy);
    }
    if sq(x, y) == sq(tx, ty) {
        lemma_sq_injective(x, y, tx, ty);
    }
    if sq(x, y) == sq(tx, fy) {
        lemma_sq_injective(x, y, tx, fy);
    }
    if sq(x, y) == sq(7, ty) {
        lemma_sq_injective(x, y, 7, ty);
    }
    if sq(x, y) == sq(5, ty) {
        lemma_sq_injective(x, y, 5, ty);
    }
    if sq(x, y) == sq(0, ty) {
        lemma_sq_injective(x, y, 0, ty);
    }
    if sq(x, y) == sq(3, ty) {
        lemma_sq_injective(x, y, 3, ty);
    }
}

/// Applying an action never duplicates a King: a board holding at most one
/// King of each team still does after any action whose promotion substitute
/// is not a King.
pub proof fn lemma_apply_preserves_king_uniqueness(
    b: Seq<Option<Piece>>,
    a: Action,
    promo: Rank,
    t: Team,
)
    requires
        b.len() == 64,
        in_bounds(a.from.x as int, a.from.y as int),
        in_bounds(a.to.x as int, a.to.y as int),
        !(a.from.x == a.to.x && a.from.y == a.to.y),
        promo != Rank::King,
        at_most_one_king(b, t),
    ensures
        at_most_one_king(board_apply(b, a, promo), t),
{
    let b2 = board_apply(b, a, promo);
    assert forall|x1: int, y1: int, x2: int, y2: int|
        #[trigger] is_king_at(b2, t, x1, y1) && #[trigger] is_king_at(b2, t, x2, y2) implies x1
        == x2 && y1 == y2 by {
        lemma_king_source(b, a, promo, t, x1, y1);
        lemma_king_source(b, a, promo, t, x2, y2);
    }
}

} // verus!
