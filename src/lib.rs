//! A rules engine for standard chess: pseudo-legal move generation for each
//! piece type, a legality filter that simulates a move and checks the safety
//! of the mover's king, and detection of a side that has no legal move.

pub mod game;
pub mod piece;
pub mod rules;
pub mod square;

pub use game::{Board, Game, MoveError};
pub use piece::{Color, GameState, Piece, PieceType, Player};
pub use square::{convert_row_column_to_output, parse_square, row_column_to_square, square_to_row_column};
