use chess::board::{Board, BoardPosition, Piece, Rank, Team, Tile};
use chess::moves::{Action, ActionType};
use chess::pgn::{
    algebraic_round_trip, coordinate_to_string, describe, from_algebraic, to_algebraic,
};

fn pos(x: isize, y: isize) -> BoardPosition {
    BoardPosition::new((x, y))
}

fn action(fx: isize, fy: isize, tx: isize, ty: isize, kind: ActionType) -> Action {
    Action {
        from: pos(fx, fy),
        to: pos(tx, ty),
        action_type: kind,
    }
}

fn put(b: &mut Board, x: isize, y: isize, team: Team, rank: Rank) {
    b.place(pos(x, y), Some(Piece { team, rank }));
}

#[test]
fn algebraic_corners() {
    assert_eq!(to_algebraic(pos(0, 0)), "a1");
    assert_eq!(to_algebraic(pos(7, 7)), "h8");
    assert_eq!(to_algebraic(pos(4, 0)), "e1");
    assert_eq!(to_algebraic(pos(3, 4)), "d5");
}

#[test]
fn round_trip_all_squares() {
    for x in 0..8 {
        for y in 0..8 {
            let p = pos(x, y);
            let s = to_algebraic(p);
            assert_eq!(from_algebraic(s.as_str()), Some(p));
            assert_eq!(algebraic_round_trip(p), p);
        }
    }
}

#[test]
fn parser_rejects_non_squares() {
    assert_eq!(from_algebraic(""), None);
    assert_eq!(from_algebraic("e"), None);
    assert_eq!(from_algebraic("e10"), None);
    assert_eq!(from_algebraic("i1"), None);
    assert_eq!(from_algebraic("a9"), None);
    assert_eq!(from_algebraic("11"), None);
}

#[test]
fn coordinate_to_string_matches_algebraic() {
    assert_eq!(coordinate_to_string((0, 0)), "a1");
    assert_eq!(coordinate_to_string((7, 6)), "h7");
    for x in 0..8 {
        for y in 0..8 {
            assert_eq!(coordinate_to_string((x, y)), to_algebraic(pos(x, y)));
        }
    }
}

#[test]
fn to_letter_gives_algebraic_name() {
    assert_eq!(pos(0, 0).to_letter(), "a1");
    assert_eq!(pos(7, 7).to_letter(), "h8");
    assert_eq!(pos(4, 1).to_letter(), "e2");
    for x in 0..8 {
        for y in 0..8 {
            assert_eq!(pos(x, y).to_letter(), to_algebraic(pos(x, y)));
        }
    }
}

#[test]
fn tile_wraps_position() {
    let t = Tile { pos: pos(2, 3) };
    assert_eq!(t, Tile { pos: pos(2, 3) });
    assert_eq!(t.pos.to_letter(), "c4");
}

#[test]
fn describe_pawn_push() {
    let b = Board::starting();
    let s = describe(action(4, 1, 4, 3, ActionType::Normal), &b, None);
    assert_eq!(s, "e4");
}

#[test]
fn describe_knight_capture() {
    let mut b = Board::empty();
    put(&mut b, 6, 0, Team::White, Rank::Knight);
    put(&mut b, 5, 2, Team::Black, Rank::Pawn);
    let s = describe(action(6, 0, 5, 2, ActionType::Capture), &b, None);
    assert_eq!(s, "Nxf3");
}

#[test]
fn describe_pawn_capture_names_origin_file() {
    let mut b = Board::empty();
    put(&mut b, 4, 3, Team::White, Rank::Pawn);
    put(&mut b, 3, 4, Team::Black, Rank::Pawn);
    let s = describe(action(4, 3, 3, 4, ActionType::Capture), &b, None);
    assert_eq!(s, "exd5");
}

#[test]
fn describe_castles() {
    let b = Board::starting();
    assert_eq!(
        describe(action(4, 0, 6, 0, ActionType::Castle), &b, None),
        "O-O"
    );
    assert_eq!(
        describe(action(4, 0, 2, 0, ActionType::Castle), &b, None),
        "O-O-O"
    );
}

#[test]
fn describe_promotion_suffix() {
    let mut b = Board::empty();
    put(&mut b, 0, 6, Team::White, Rank::Pawn);
    let s = describe(
        action(0, 6, 0, 7, ActionType::Promotion),
        &b,
        Some(Rank::Queen),
    );
    assert_eq!(s, "a8=Q");
}

#[test]
fn describe_capturing_promotion_keeps_capture_marker() {
    let mut b = Board::empty();
    put(&mut b, 1, 6, Team::White, Rank::Pawn);
    put(&mut b, 0, 7, Team::Black, Rank::Rook);
    let s = describe(
        action(1, 6, 0, 7, ActionType::Promotion),
        &b,
        Some(Rank::Queen),
    );
    assert_eq!(s, "bxa8=Q");
}

#[test]
fn describe_disambiguates_by_file() {
    let mut b = Board::empty();
    put(&mut b, 0, 0, Team::White, Rank::Rook);
    put(&mut b, 7, 0, Team::White, Rank::Rook);
    let s = describe(action(0, 0, 3, 0, ActionType::Normal), &b, None);
    assert_eq!(s, "Rad1");
}

#[test]
fn describe_disambiguates_by_row() {
    let mut b = Board::empty();
    put(&mut b, 0, 0, Team::White, Rank::Rook);
    put(&mut b, 0, 4, Team::White, Rank::Rook);
    let s = describe(action(0, 0, 0, 2, ActionType::Normal), &b, None);
    assert_eq!(s, "R1a3");
}

#[test]
fn describe_unique_piece_needs_no_disambiguation() {
    let mut b = Board::empty();
    put(&mut b, 0, 0, Team::White, Rank::Rook);
    let s = describe(action(0, 0, 3, 0, ActionType::Normal), &b, None);
    assert_eq!(s, "Rd1");
}

#[test]
fn describe_en_passant_as_pawn_capture() {
    let mut b = Board::empty();
    put(&mut b, 4, 4, Team::White, Rank::Pawn);
    put(&mut b, 3, 4, Team::Black, Rank::Pawn);
    let s = describe(action(4, 4, 3, 5, ActionType::EnPassant), &b, None);
    assert_eq!(s, "exd6");
}
