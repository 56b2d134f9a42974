//! Asset lookup for a presentation layer: the image path of each piece.

use vstd::prelude::*;

use crate::pieces::{Color, Piece, PieceType};
use vstd::string::StringExecFns;

verus! {

/// The color tag used in asset file names.
pub open spec fn color_tag(c: Color) -> Seq<char> {
    if c is White {
        "w"@
    } else {
        "b"@
    }
}

/// The piece-kind tag used in asset file names.
pub open spec fn piece_tag(t: PieceType) -> Seq<char> {
    match t {
        PieceType::Pawn => "p"@,
        PieceType::Knight => "n"@,
        PieceType::Bishop => "b"@,
        PieceType::Rook => "r"@,
        PieceType::Queen => "q"@,
        PieceType::King => "k"@,
    }
}

/// The path of the image for `piece`.
pub open spec fn piece_path_view(piece: Piece) -> Seq<char> {
    "assets/2/"@ + color_tag(piece.color) + piece_tag(piece.piece_type) + ".png"@
}

/// The image file a presentation layer should draw for `piece`.
pub fn piece_path(piece: Piece) -> (path: String)
    ensures
        path@ == piece_path_view(piece),
{
    let color_piece = match piece.color {
        Color::White => "w",
        Color::Black => "b",
    };
    let type_piece = match piece.piece_type {
        PieceType::Pawn => "p",
        PieceType::Knight => "n",
        PieceType::Bishop => "b",
        PieceType::Rook => "r",
        PieceType::Queen => "q",
        PieceType::King => "k",
    };
    let mut path = String::from_str("assets/2/");
    path.append(color_piece);
    path.append(type_piece);
    path.append(".png");
    path
}

} // verus!
