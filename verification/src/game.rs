//! Game orchestration: turn state, move history, the pending promotion
//! choice, selection of legal actions, action application, and the derived
//! game state (Active / Check / Checkmate / Stalemate).

use vstd::prelude::*;

use crate::board::in_bounds;
use crate::board::initial_board;
use crate::board::occupied_by;
use crate::board::opp;
use crate::board::Board;
use crate::board::BoardPosition;
use crate::board::Rank;
use crate::board::Team;
use crate::moves::board_apply;
use crate::moves::board_apply_exec;
use crate::moves::dest_kind_exec;
use crate::moves::in_check;
use crate::moves::in_check_exec;
use crate::moves::legal_actions_from;
use crate::moves::legal_dest;
use crate::moves::lemma_legal_action_keeps_king_safe;
use crate::moves::side_has_legal_action;
use crate::moves::side_has_legal_action_exec;
use crate::moves::sim_action;
use crate::moves::Action;
use crate::moves::ActionType;

verus! {

/// The derived state of a game, recomputed from the position after every
/// applied action; Checkmate and Stalemate are terminal.
#[derive(Clone, Copy, PartialEq, Eq, Structural, Debug)]
pub enum GameState {
    Active,
    Check,
    Checkmate,
    Stalemate,
}

/// The recoverable errors the engine reports.
#[derive(Clone, Copy, PartialEq, Eq, Structural, Debug)]
pub enum Error {
    /// The selected square holds no piece of the side to move.
    NoSelectablePiece,
    /// The action is not a legal action of the current position.
    IllegalAction,
    /// A Promotion action was applied before a promotion class was chosen.
    PromotionPieceUnset,
}

/// The derived game state of the position: the side `t` to move is
/// checkmated when it has no legal action while in check, stalemated when it
/// has no legal action out of check, and otherwise merely in check or
/// active.
pub open spec fn game_status(
    b: Seq<Option<crate::board::Piece>>,
    h: Seq<Action>,
    t: Team,
) -> GameState {
    if side_has_legal_action(b, h, t) {
        if in_check(b, t) {
            GameState::Check
        } else {
            GameState::Active
        }
    } else if in_check(b, t) {
        GameState::Checkmate
    } else {
        GameState::Stalemate
    }
}

/// A playthrough: the board, the side to move, the append-only history of
/// applied actions, and the pending promotion class (chosen out-of-band
/// before a Promotion action can be completed).
pub struct Game {
    pub board: Board,
    pub player: Team,
    pub history: Vec<Action>,
    pub promotion_piece: Option<Rank>,
}

/// Action `a` is a legal action of game `g`: its origin holds a piece of
/// the side to move, and the move is pseudo-legal and leaves the mover's
/// King safe.
pub open spec fn legal_action(g: Game, a: Action) -> bool {
    &&& occupied_by(g.board@, g.player, a.from.x as int, a.from.y as int)
    &&& legal_dest(
        g.board@,
        g.history@,
        a.from.x as int,
        a.from.y as int,
        a.to.x as int,
        a.to.y as int,
        a.action_type,
    )
}

/// The class substituted for the pawn when `g` applies `a`: the pending
/// promotion choice for a Promotion, immaterial (Queen) otherwise.
pub open spec fn applied_promo(g: Game, a: Action) -> Rank {
    if a.action_type == ActionType::Promotion {
        match g.promotion_piece {
            Some(r) => r,
            None => Rank::Queen,
        }
    } else {
        Rank::Queen
    }
}

/// What `select` reports for the square (x, y) of game `g`: an error
/// exactly when the square holds no piece of the side to move, and
/// otherwise precisely the legal actions from that square.
pub open spec fn select_spec(g: Game, x: int, y: int, r: Result<Vec<Action>, Error>) -> bool {
    match r {
        Err(e) => e == Error::NoSelectablePiece && !occupied_by(g.board@, g.player, x, y),
        Ok(v) => {
            &&& occupied_by(g.board@, g.player, x, y)
            &&& forall|i: int|
                0 <= i < v@.len() ==> (#[trigger] v@[i]).from.x == x && v@[i].from.y == y
                    && in_bounds(v@[i].to.x as int, v@[i].to.y as int) && legal_dest(
                    g.board@,
                    g.history@,
                    x,
                    y,
                    v@[i].to.x as int,
                    v@[i].to.y as int,
                    v@[i].action_type,
                )
            &&& forall|tx: int, ty: int, k: ActionType|
                in_bounds(tx, ty) && #[trigger] legal_dest(g.board@, g.history@, x, y, tx, ty, k)
                    ==> crate::moves::has_action(
                    v@,
                    Action {
                        from: BoardPosition { x: x as isize, y: y as isize },
                        to: BoardPosition { x: tx as isize, y: ty as isize },
                        action_type: k,
                    },
                )
            &&& forall|i: int, j: int|
                #![trigger v@[i], v@[j]]
                0 <= i < j < v@.len() ==> !(v@[i].to.x == v@[j].to.x && v@[i].to.y == v@[j].to.y)
        },
    }
}

impl Game {
    /// A game is well formed when its board has 64 squares and any pending
    /// promotion class is one a pawn may be exchanged for.
    pub open spec fn wf(&self) -> bool {
        &&& self.board.wf()
        &&& (self.promotion_piece matches Some(r) ==> r != Rank::King && r != Rank::Pawn)
    }

    /// A new game: the standard starting position, White to move, no
    /// history, no pending promotion choice.
    pub fn new() -> (g: Game)
        ensures
            g.wf(),
            g.board@ == initial_board(),
            g.player == Team::White,
            g.history@.len() == 0,
            g.promotion_piece is None,
    {
        Game {
            board: Board::starting(),
            player: Team::White,
            history: Vec::new(),
            promotion_piece: None,
        }
    }

    /// A game starting from an arbitrary constructed position with the
    /// given side to move.
    pub fn from_position(board: Board, player: Team) -> (g: Game)
        requires
            board.wf(),
        ensures
            g.wf(),
            g.board@ == board@,
            g.player == player,
            g.history@.len() == 0,
            g.promotion_piece is None,
    {
        Game { board, player, history: Vec::new(), promotion_piece: None }
    }

    /// All legal actions of the piece on `pos`, or `NoSelectablePiece` when
    /// the square is empty or holds an opponent's piece. The returned set
    /// may be empty (a blocked or pinned piece).
    pub fn select(&self, pos: BoardPosition) -> (r: Result<Vec<Action>, Error>)
        requires
            self.wf(),
            in_bounds(pos.x as int, pos.y as int),
        ensures
            select_spec(*self, pos.x as int, pos.y as int, r),
    {
        let selectable = match self.board.piece_at(pos) {
            Some(p) => p.team == self.player,
            None => false,
        };
        if !selectable {
            return Err(Error::NoSelectablePiece);
        }
        Ok(legal_actions_from(&self.board, &self.history, pos))
    }

    /// Store the class to substitute for a pawn on its next completed
    /// Promotion action. Has no effect on the board until such an action is
    /// applied.
    pub fn set_promotion_piece(&mut self, rank: Rank)
        requires
            old(self).wf(),
            rank != Rank::King,
            rank != Rank::Pawn,
        ensures
            final(self).wf(),
            final(self).promotion_piece == Some(rank),
            final(self).board@ == old(self).board@,
            final(self).player == old(self).player,
            final(self).history@ == old(self).history@,
    {
        self.promotion_piece = Some(rank);
    }

    /// Apply a legal action: mutate the board (including rook relocation
    /// for Castle, captured-pawn removal for EnPassant and piece
    /// substitution for Promotion), append it to the history, flip the side
    /// to move and clear the pending promotion choice. A Promotion action
    /// fails with `PromotionPieceUnset` until a class is chosen; an action
    /// that is not legal in the current position fails with
    /// `IllegalAction`. On failure the game is left unmodified.
    pub fn perform_action(&mut self, action: Action) -> (r: Result<(), Error>)
        requires
            old(self).wf(),
            in_bounds(action.from.x as int, action.from.y as int),
            in_bounds(action.to.x as int, action.to.y as int),
        ensures
            final(self).wf(),
            r == Err::<(), Error>(Error::PromotionPieceUnset) <==> (action.action_type
                == ActionType::Promotion && old(self).promotion_piece is None),
            r is Ok <==> (!(action.action_type == ActionType::Promotion && old(
                self,
            ).promotion_piece is None) && legal_action(*old(self), action)),
            r is Err ==> final(self).board@ == old(self).board@ && final(self).player == old(
                self,
            ).player && final(self).history@ == old(self).history@ && final(self).promotion_piece
                == old(self).promotion_piece,
            r is Ok ==> final(self).board@ == board_apply(
                old(self).board@,
                action,
                applied_promo(*old(self), action),
            ) && final(self).player == opp(old(self).player) && final(self).history@ == old(
                self,
            ).history@.push(action) && final(self).promotion_piece is None,
            r is Ok ==> !in_check(final(self).board@, old(self).player),
            r is Ok ==> forall|t: Team|
                #[trigger] crate::moves::at_most_one_king(old(self).board@, t)
                    ==> crate::moves::at_most_one_king(final(self).board@, t),
    {
        if action.action_type == ActionType::Promotion && self.promotion_piece.is_none() {
            return Err(Error::PromotionPieceUnset);
        }
        let legal = match self.board.piece_at(action.from) {
            None => false,
            Some(p) => {
                if p.team != self.player {
                    false
                } else {
                    match dest_kind_exec(
                        &self.board,
                        &self.history,
                        action.from.x,
                        action.from.y,
                        action.to.x,
                        action.to.y,
                    ) {
                        Some(k) => {
                            if k == action.action_type {
                                let sim = board_apply_exec(&self.board, action, Rank::Queen);
                                proof {
                                    assert(action == sim_action(
                                        action.from.x as int,
                                        action.from.y as int,
                                        action.to.x as int,
                                        action.to.y as int,
                                        action.action_type,
                                    ));
                                }
                                !in_check_exec(&sim, self.player)
                            } else {
                                false
                            }
                        },
                        None => false,
                    }
                }
            },
        };
        if !legal {
            return Err(Error::IllegalAction);
        }
        let promo = match self.promotion_piece {
            Some(r) => r,
            None => Rank::Queen,
        };
        let nb = board_apply_exec(&self.board, action, promo);
        proof {
            lemma_legal_action_keeps_king_safe(
                self.board@,
                self.history@,
                action,
                self.player,
                promo,
            );
            assert forall|t: Team|
                #[trigger] crate::moves::at_most_one_king(self.board@, t) implies
                crate::moves::at_most_one_king(nb@, t) by {
                crate::moves::lemma_apply_preserves_king_uniqueness(
                    self.board@,
                    action,
                    promo,
                    t,
                );
            }
        }
        self.board = nb;
        self.history.push(action);
        self.player = match self.player {
            Team::White => Team::Black,
            Team::Black => Team::White,
        };
        self.promotion_piece = None;
        Ok(())
    }

    /// Select by algebraic square name, e.g. "e2": parse the name and
    /// return the legal actions from that square. A string that names no
    /// square, an empty square, or an opponent's piece gives
    /// `NoSelectablePiece`.
    pub fn move_from_string(&self, s: &str) -> (r: Result<Vec<Action>, Error>)
        requires
            self.wf(),
        ensures
            forall|x: int, y: int|
                in_bounds(x, y) && s@ == crate::pgn::coord_seq(x, y) ==> select_spec(
                    *self,
                    x,
                    y,
                    r,
                ),
            (forall|x: int, y: int| in_bounds(x, y) ==> s@ != crate::pgn::coord_seq(x, y)) ==> r
                == Err::<Vec<Action>, Error>(Error::NoSelectablePiece),
    {
        match crate::pgn::from_algebraic(s) {
            Some(pos) => {
                let r = self.select(pos);
                proof {
                    assert forall|x: int, y: int|
                        in_bounds(x, y) && s@ == crate::pgn::coord_seq(x, y) implies select_spec(
                        *self,
                        x,
                        y,
                        r,
                    ) by {
                        crate::pgn::lemma_coord_seq_injective(x, y, pos.x as int, pos.y as int);
                    }
                }
                r
            },
            None => Err(Error::NoSelectablePiece),
        }
    }

    /// The derived game state for the side to move, recomputed from the
    /// position.
    pub fn get_game_state(&self) -> (s: GameState)
        requires
            self.wf(),
        ensures
            s == game_status(self.board@, self.history@, self.player),
    {
        let has = side_has_legal_action_exec(&self.board, &self.history, self.player);
        let check = in_check_exec(&self.board, self.player);
        if has {
            if check {
                GameState::Check
            } else {
                GameState::Active
            }
        } else if check {
            GameState::Checkmate
        } else {
            GameState::Stalemate
        }
    }
}

} // verus!
