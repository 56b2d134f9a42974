//! Piece data: colors, piece kinds, and the piece value itself.

use vstd::prelude::*;

verus! {

/// One of the two sides of a chess game.
#[derive(Clone, Copy, PartialEq, Eq, Structural, Debug)]
pub enum Color {
    White,
    Black,
}

/// The side opposing `c`.
pub open spec fn opposite_color(c: Color) -> Color {
    match c {
        Color::White => Color::Black,
        Color::Black => Color::White,
    }
}

impl Color {
    /// The opposing side.
    pub fn opposite(&self) -> (r: Self)
        ensures
            r == opposite_color(*self),
    {
        match self {
            Color::White => Color::Black,
            Color::Black => Color::White,
        }
    }
}

/// Taking the opposite side twice gives back the side one started with:
/// `opposite` is an involution.
pub proof fn lemma_opposite_involution(c: Color)
    ensures
        opposite_color(opposite_color(c)) == c,
{
}

/// The six kinds of chess piece.
#[derive(Clone, Copy, PartialEq, Eq, Structural, Debug)]
pub enum PieceType {
    Pawn,
    Knight,
    Bishop,
    Rook,
    Queen,
    King,
}

/// A piece is a kind together with the side it belongs to.  Two pieces of the
/// same kind and color are interchangeable.
#[derive(Clone, Copy, PartialEq, Eq, Structural, Debug)]
pub struct Piece {
    pub piece_type: PieceType,
    pub color: Color,
}

/// The figurine that stands for a piece.
pub open spec fn symbol_view(p: Piece) -> Seq<char> {
    match (p.piece_type, p.color) {
        (PieceType::Pawn, Color::White) => "♙"@,
        (PieceType::Knight, Color::White) => "♘"@,
        (PieceType::Bishop, Color::White) => "♗"@,
        (PieceType::Rook, Color::White) => "♖"@,
        (PieceType::Queen, Color::White) => "♕"@,
        (PieceType::King, Color::White) => "♔"@,
        (PieceType::Pawn, Color::Black) => "♟"@,
        (PieceType::Knight, Color::Black) => "♞"@,
        (PieceType::Bishop, Color::Black) => "♝"@,
        (PieceType::Rook, Color::Black) => "♜"@,
        (PieceType::Queen, Color::Black) => "♛"@,
        (PieceType::King, Color::Black) => "♚"@,
    }
}

impl Piece {
    /// The figurine character for this piece, as a one-character string.
    pub fn symbol(&self) -> (r: &'static str)
        ensures
            r@ == symbol_view(*self),
    {
        match (self.piece_type, self.color) {
            (PieceType::Pawn, Color::White) => "♙",
            (PieceType::Knight, Color::White) => "♘",
            (PieceType::Bishop, Color::White) => "♗",
            (PieceType::Rook, Color::White) => "♖",
            (PieceType::Queen, Color::White) => "♕",
            (PieceType::King, Color::White) => "♔",
            (PieceType::Pawn, Color::Black) => "♟",
            (PieceType::Knight, Color::Black) => "♞",
            (PieceType::Bishop, Color::Black) => "♝",
            (PieceType::Rook, Color::Black) => "♜",
            (PieceType::Queen, Color::Black) => "♛",
            (PieceType::King, Color::Black) => "♚",
        }
    }
}

} // verus!
