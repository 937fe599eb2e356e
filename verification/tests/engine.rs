use chess::board::{Board, BoardPosition, Piece, Rank, Team};
use chess::game::{Error, Game, GameState};
use chess::moves::{pseudo_actions, Action, ActionType};

fn pos(x: isize, y: isize) -> BoardPosition {
    BoardPosition::new((x, y))
}

fn action(fx: isize, fy: isize, tx: isize, ty: isize, kind: ActionType) -> Action {
    Action {
        from: pos(fx, fy),
        to: pos(tx, ty),
        action_type: kind,
    }
}

fn apply(g: &mut Game, fx: isize, fy: isize, tx: isize, ty: isize, kind: ActionType) {
    g.perform_action(action(fx, fy, tx, ty, kind)).unwrap();
}

fn destinations(g: &Game, x: isize, y: isize) -> Vec<(isize, isize)> {
    g.select(pos(x, y))
        .unwrap()
        .iter()
        .map(|a| (a.to.x, a.to.y))
        .collect()
}

fn put(b: &mut Board, x: isize, y: isize, team: Team, rank: Rank) {
    b.place(pos(x, y), Some(Piece { team, rank }));
}

#[test]
fn initial_position_arrangement() {
    let g = Game::new();
    assert_eq!(g.player, Team::White);
    let back = [
        Rank::Rook,
        Rank::Knight,
        Rank::Bishop,
        Rank::Queen,
        Rank::King,
        Rank::Bishop,
        Rank::Knight,
        Rank::Rook,
    ];
    let mut white_pawns = 0;
    let mut black_pawns = 0;
    let mut white_pieces = 0;
    let mut black_pieces = 0;
    for x in 0..8 {
        for y in 0..8 {
            let p = g.board.piece_at(pos(x, y));
            match y {
                0 => assert_eq!(
                    p,
                    Some(Piece {
                        team: Team::White,
                        rank: back[x as usize]
                    })
                ),
                1 => assert_eq!(
                    p,
                    Some(Piece {
                        team: Team::White,
                        rank: Rank::Pawn
                    })
                ),
                6 => assert_eq!(
                    p,
                    Some(Piece {
                        team: Team::Black,
                        rank: Rank::Pawn
                    })
                ),
                7 => assert_eq!(
                    p,
                    Some(Piece {
                        team: Team::Black,
                        rank: back[x as usize]
                    })
                ),
                _ => assert_eq!(p, None),
            }
            match p {
                Some(Piece {
                    team: Team::White,
                    rank: Rank::Pawn,
                }) => white_pawns += 1,
                Some(Piece {
                    team: Team::Black,
                    rank: Rank::Pawn,
                }) => black_pawns += 1,
                Some(Piece {
                    team: Team::White, ..
                }) => white_pieces += 1,
                Some(Piece {
                    team: Team::Black, ..
                }) => black_pieces += 1,
                None => {}
            }
        }
    }
    assert_eq!((white_pawns, black_pawns), (8, 8));
    assert_eq!((white_pieces, black_pieces), (8, 8));
    assert_eq!(g.get_game_state(), GameState::Active);
}

#[test]
fn select_empty_square_fails() {
    let g = Game::new();
    assert_eq!(g.select(pos(4, 4)), Err(Error::NoSelectablePiece));
}

#[test]
fn select_opponent_piece_fails() {
    let g = Game::new();
    assert_eq!(g.select(pos(0, 7)), Err(Error::NoSelectablePiece));
    assert_eq!(g.select(pos(3, 6)), Err(Error::NoSelectablePiece));
}

#[test]
fn pawn_single_and_double_step_from_start() {
    let g = Game::new();
    let dests = destinations(&g, 4, 1);
    assert!(dests.contains(&(4, 2)));
    assert!(dests.contains(&(4, 3)));
    assert_eq!(dests.len(), 2);
}

#[test]
fn pawn_no_double_step_after_moving() {
    let mut g = Game::new();
    apply(&mut g, 4, 1, 4, 3, ActionType::Normal);
    apply(&mut g, 0, 6, 0, 5, ActionType::Normal);
    let dests = destinations(&g, 4, 3);
    assert!(dests.contains(&(4, 4)));
    assert!(!dests.contains(&(4, 5)));
    assert_eq!(dests.len(), 1);
}

#[test]
fn pawn_blocked_double_step() {
    let mut b = Board::empty();
    put(&mut b, 4, 0, Team::White, Rank::King);
    put(&mut b, 4, 7, Team::Black, Rank::King);
    put(&mut b, 0, 1, Team::White, Rank::Pawn);
    put(&mut b, 0, 3, Team::Black, Rank::Knight);
    let g = Game::from_position(b, Team::White);
    let dests = destinations(&g, 0, 1);
    assert!(dests.contains(&(0, 2)));
    assert!(!dests.contains(&(0, 3)));
}

#[test]
fn en_passant_appears_after_double_advance() {
    let mut g = Game::new();
    apply(&mut g, 4, 1, 4, 3, ActionType::Normal);
    apply(&mut g, 0, 6, 0, 5, ActionType::Normal);
    apply(&mut g, 4, 3, 4, 4, ActionType::Normal);
    apply(&mut g, 3, 6, 3, 4, ActionType::Normal);
    let actions = g.select(pos(4, 4)).unwrap();
    let ep: Vec<&Action> = actions
        .iter()
        .filter(|a| a.action_type == ActionType::EnPassant)
        .collect();
    assert_eq!(ep.len(), 1);
    assert_eq!((ep[0].to.x, ep[0].to.y), (3, 5));
    let mut g2 = g;
    g2.perform_action(action(4, 4, 3, 5, ActionType::EnPassant))
        .unwrap();
    assert_eq!(g2.board.piece_at(pos(3, 4)), None);
    assert_eq!(
        g2.board.piece_at(pos(3, 5)),
        Some(Piece {
            team: Team::White,
            rank: Rank::Pawn
        })
    );
}

#[test]
fn en_passant_disappears_next_move() {
    let mut g = Game::new();
    apply(&mut g, 4, 1, 4, 3, ActionType::Normal);
    apply(&mut g, 0, 6, 0, 5, ActionType::Normal);
    apply(&mut g, 4, 3, 4, 4, ActionType::Normal);
    apply(&mut g, 3, 6, 3, 4, ActionType::Normal);
    apply(&mut g, 0, 1, 0, 2, ActionType::Normal);
    apply(&mut g, 0, 5, 0, 4, ActionType::Normal);
    let actions = g.select(pos(4, 4)).unwrap();
    assert!(actions
        .iter()
        .all(|a| a.action_type != ActionType::EnPassant));
}

#[test]
fn promotion_needs_piece_set_first() {
    let mut b = Board::empty();
    put(&mut b, 4, 0, Team::White, Rank::King);
    put(&mut b, 7, 4, Team::Black, Rank::King);
    put(&mut b, 0, 6, Team::White, Rank::Pawn);
    let mut g = Game::from_position(b, Team::White);
    let actions = g.select(pos(0, 6)).unwrap();
    assert!(actions
        .iter()
        .any(|a| a.action_type == ActionType::Promotion && (a.to.x, a.to.y) == (0, 7)));
    let promote = action(0, 6, 0, 7, ActionType::Promotion);
    assert_eq!(g.perform_action(promote), Err(Error::PromotionPieceUnset));
    assert_eq!(
        g.board.piece_at(pos(0, 6)),
        Some(Piece {
            team: Team::White,
            rank: Rank::Pawn
        })
    );
    assert_eq!(g.board.piece_at(pos(0, 7)), None);
    assert_eq!(g.player, Team::White);
    g.set_promotion_piece(Rank::Knight);
    g.perform_action(promote).unwrap();
    assert_eq!(g.board.piece_at(pos(0, 6)), None);
    assert_eq!(
        g.board.piece_at(pos(0, 7)),
        Some(Piece {
            team: Team::White,
            rank: Rank::Knight
        })
    );
    assert_eq!(g.player, Team::Black);
    assert_eq!(g.promotion_piece, None);
}

#[test]
fn pinned_rook_cannot_expose_king() {
    let mut b = Board::empty();
    put(&mut b, 4, 0, Team::White, Rank::King);
    put(&mut b, 4, 1, Team::White, Rank::Rook);
    put(&mut b, 4, 7, Team::Black, Rank::Rook);
    put(&mut b, 0, 7, Team::Black, Rank::King);
    let g = Game::from_position(b, Team::White);
    let actions = g.select(pos(4, 1)).unwrap();
    assert!(!actions.is_empty());
    for a in &actions {
        assert_eq!(a.to.x, 4, "pinned rook may only move along the file");
    }
    assert!(actions
        .iter()
        .any(|a| (a.to.x, a.to.y) == (4, 7) && a.action_type == ActionType::Capture));
}

#[test]
fn pinned_rook_still_has_pseudo_legal_sideways_moves() {
    let mut b = Board::empty();
    put(&mut b, 4, 0, Team::White, Rank::King);
    put(&mut b, 4, 1, Team::White, Rank::Rook);
    put(&mut b, 4, 7, Team::Black, Rank::Rook);
    put(&mut b, 0, 7, Team::Black, Rank::King);
    let g = Game::from_position(b, Team::White);
    let pseudo = pseudo_actions(&g.board, &g.history, pos(4, 1));
    assert!(pseudo.iter().any(|a| (a.to.x, a.to.y) == (3, 1)));
    let legal = g.select(pos(4, 1)).unwrap();
    assert!(legal.iter().all(|a| (a.to.x, a.to.y) != (3, 1)));
    assert!(pseudo.len() > legal.len());
}

#[test]
fn illegal_action_is_rejected() {
    let mut b = Board::empty();
    put(&mut b, 4, 0, Team::White, Rank::King);
    put(&mut b, 4, 1, Team::White, Rank::Rook);
    put(&mut b, 4, 7, Team::Black, Rank::Rook);
    put(&mut b, 0, 7, Team::Black, Rank::King);
    let mut g = Game::from_position(b, Team::White);
    let sideways = action(4, 1, 3, 1, ActionType::Normal);
    assert_eq!(g.perform_action(sideways), Err(Error::IllegalAction));
    assert_eq!(
        g.board.piece_at(pos(4, 1)),
        Some(Piece {
            team: Team::White,
            rank: Rank::Rook
        })
    );
    assert_eq!(g.player, Team::White);
}

#[test]
fn back_rank_checkmate() {
    let mut b = Board::empty();
    put(&mut b, 6, 7, Team::Black, Rank::King);
    put(&mut b, 5, 6, Team::Black, Rank::Pawn);
    put(&mut b, 6, 6, Team::Black, Rank::Pawn);
    put(&mut b, 7, 6, Team::Black, Rank::Pawn);
    put(&mut b, 0, 7, Team::White, Rank::Rook);
    put(&mut b, 0, 0, Team::White, Rank::King);
    let g = Game::from_position(b, Team::Black);
    assert_eq!(g.get_game_state(), GameState::Checkmate);
}

#[test]
fn cornered_king_stalemate() {
    let mut b = Board::empty();
    put(&mut b, 0, 7, Team::Black, Rank::King);
    put(&mut b, 1, 5, Team::White, Rank::Queen);
    put(&mut b, 3, 3, Team::White, Rank::King);
    let g = Game::from_position(b, Team::Black);
    assert_eq!(g.get_game_state(), GameState::Stalemate);
}

#[test]
fn check_is_reported() {
    let mut b = Board::empty();
    put(&mut b, 4, 0, Team::White, Rank::King);
    put(&mut b, 4, 7, Team::Black, Rank::Rook);
    put(&mut b, 0, 7, Team::Black, Rank::King);
    let g = Game::from_position(b, Team::White);
    assert_eq!(g.get_game_state(), GameState::Check);
}

#[test]
fn castling_both_sides_when_clear() {
    let mut b = Board::empty();
    put(&mut b, 4, 0, Team::White, Rank::King);
    put(&mut b, 0, 0, Team::White, Rank::Rook);
    put(&mut b, 7, 0, Team::White, Rank::Rook);
    put(&mut b, 4, 7, Team::Black, Rank::King);
    let mut g = Game::from_position(b, Team::White);
    let actions = g.select(pos(4, 0)).unwrap();
    assert!(actions
        .iter()
        .any(|a| a.action_type == ActionType::Castle && (a.to.x, a.to.y) == (6, 0)));
    assert!(actions
        .iter()
        .any(|a| a.action_type == ActionType::Castle && (a.to.x, a.to.y) == (2, 0)));
    g.perform_action(action(4, 0, 6, 0, ActionType::Castle))
        .unwrap();
    assert_eq!(
        g.board.piece_at(pos(6, 0)),
        Some(Piece {
            team: Team::White,
            rank: Rank::King
        })
    );
    assert_eq!(
        g.board.piece_at(pos(5, 0)),
        Some(Piece {
            team: Team::White,
            rank: Rank::Rook
        })
    );
    assert_eq!(g.board.piece_at(pos(7, 0)), None);
    assert_eq!(g.board.piece_at(pos(4, 0)), None);
}

#[test]
fn castling_blocked_through_attacked_square() {
    let mut b = Board::empty();
    put(&mut b, 4, 0, Team::White, Rank::King);
    put(&mut b, 0, 0, Team::White, Rank::Rook);
    put(&mut b, 7, 0, Team::White, Rank::Rook);
    put(&mut b, 4, 7, Team::Black, Rank::King);
    put(&mut b, 5, 6, Team::Black, Rank::Rook);
    let g = Game::from_position(b, Team::White);
    let actions = g.select(pos(4, 0)).unwrap();
    assert!(!actions
        .iter()
        .any(|a| a.action_type == ActionType::Castle && (a.to.x, a.to.y) == (6, 0)));
    assert!(actions
        .iter()
        .any(|a| a.action_type == ActionType::Castle && (a.to.x, a.to.y) == (2, 0)));
}

#[test]
fn castling_lost_after_rook_moved() {
    let mut b = Board::empty();
    put(&mut b, 4, 0, Team::White, Rank::King);
    put(&mut b, 7, 0, Team::White, Rank::Rook);
    put(&mut b, 4, 7, Team::Black, Rank::King);
    let mut g = Game::from_position(b, Team::White);
    apply(&mut g, 7, 0, 7, 1, ActionType::Normal);
    apply(&mut g, 4, 7, 4, 6, ActionType::Normal);
    apply(&mut g, 7, 1, 7, 0, ActionType::Normal);
    apply(&mut g, 4, 6, 4, 7, ActionType::Normal);
    let actions = g.select(pos(4, 0)).unwrap();
    assert!(actions.iter().all(|a| a.action_type != ActionType::Castle));
}

#[test]
fn move_from_string_selects() {
    let g = Game::new();
    let actions = g.move_from_string("e2").unwrap();
    assert_eq!(actions.len(), 2);
    assert_eq!(g.move_from_string("e4"), Err(Error::NoSelectablePiece));
    assert_eq!(g.move_from_string("x9"), Err(Error::NoSelectablePiece));
    assert_eq!(g.move_from_string(""), Err(Error::NoSelectablePiece));
}

#[test]
fn capture_removes_piece_and_flips_turn() {
    let mut g = Game::new();
    apply(&mut g, 4, 1, 4, 3, ActionType::Normal);
    apply(&mut g, 3, 6, 3, 4, ActionType::Normal);
    apply(&mut g, 4, 3, 3, 4, ActionType::Capture);
    assert_eq!(
        g.board.piece_at(pos(3, 4)),
        Some(Piece {
            team: Team::White,
            rank: Rank::Pawn
        })
    );
    assert_eq!(g.board.piece_at(pos(4, 3)), None);
    assert_eq!(g.player, Team::Black);
    assert_eq!(g.history.len(), 3);
}
