//! A chess rules engine: board representation, legal-move generation,
//! check/checkmate/stalemate detection, special moves (castling, en passant,
//! promotion), and algebraic notation.

pub mod board;
pub mod game;
pub mod moves;
pub mod pgn;
