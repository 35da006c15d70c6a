use vstd::prelude::*;

verus! {

/// The status label a game carries.
#[derive(Copy, Clone, Debug, PartialEq, Eq, Structural)]
pub enum GameState {
    InProgress,
    Check,
    GameOver,
}

/// The side whose turn it is.
#[derive(Copy, Clone, Debug, PartialEq, Eq, Structural)]
pub enum Player {
    WhitePlayer,
    BlackPlayer,
}

/// The color a piece belongs to.
#[derive(Copy, Clone, Debug, PartialEq, Eq, Structural)]
pub enum Color {
    White,
    Black,
}

/// The kind of a piece; movement rules are a function of this tag.
#[derive(Copy, Clone, Debug, PartialEq, Eq, Structural)]
pub enum PieceType {
    Pawn,
    Rook,
    Knight,
    Bishop,
    Queen,
    King,
}

/// An immutable pair of a color and a piece type.
#[derive(Copy, Clone, Debug, PartialEq, Eq, Structural)]
pub struct Piece {
    pub color: Color,
    pub piece_type: PieceType,
}

/// The color that plays against `c`.
pub open spec fn opponent(c: Color) -> Color {
    match c {
        Color::White => Color::Black,
        Color::Black => Color::White,
    }
}

/// The color of the pieces that `p` moves.
pub open spec fn color_of(p: Player) -> Color {
    match p {
        Player::WhitePlayer => Color::White,
        Player::BlackPlayer => Color::Black,
    }
}

impl Piece {
    pub fn new(color: Color, piece_type: PieceType) -> (r: Piece)
        ensures
            r == (Piece { color, piece_type }),
    {
        Piece { color, piece_type }
    }

    pub fn get_color(&self) -> (r: Color)
        ensures
            r == self.color,
    {
        self.color
    }
}

impl Player {
    /// The color of the pieces this player moves.
    pub fn color(&self) -> (r: Color)
        ensures
            r == color_of(*self),
    {
        match self {
            Player::WhitePlayer => Color::White,
            Player::BlackPlayer => Color::Black,
        }
    }
}

} // verus!
