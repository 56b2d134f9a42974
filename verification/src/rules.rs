//! The mathematical model of the movement rules: pseudo-legal destinations
//! per piece kind, square attack, check, castling conditions, and the
//! relocation test used by the legality filter.

use vstd::prelude::*;

use crate::pieces::{opposite_color, Color, Piece, PieceType};
use crate::state::{StateView, BLACK_KINGSIDE, BLACK_QUEENSIDE, WHITE_KINGSIDE, WHITE_QUEENSIDE};

verus! {

/// True when `(r, f)` is a rank and file on the 8 by 8 board.
pub open spec fn on_board_rf(r: int, f: int) -> bool {
    0 <= r < 8 && 0 <= f < 8
}

/// The index of the square at rank `r`, file `f`.
pub open spec fn square_at(r: int, f: int) -> int {
    8 * r + f
}

/// The rank of square index `i`.
pub open spec fn rank_of(i: int) -> int {
    i / 8
}

/// The file of square index `i`.
pub open spec fn file_of(i: int) -> int {
    i % 8
}

/// The square `k` unit steps from `from` along direction `(dr, df)`.
pub open spec fn ray_square(from: int, dr: int, df: int, k: int) -> int {
    square_at(rank_of(from) + k * dr, file_of(from) + k * df)
}

/// The square `k` steps along the ray still lies on the board.
pub open spec fn ray_on_board(from: int, dr: int, df: int, k: int) -> bool {
    on_board_rf(rank_of(from) + k * dr, file_of(from) + k * df)
}

/// Square `i` holds a piece of color `c`.
pub open spec fn holds_color(b: Seq<Option<Piece>>, i: int, c: Color) -> bool {
    b[i] matches Some(p) && p.color == c
}

/// A piece of color `c` may land on `i`: the square is empty or holds an
/// enemy piece (a capture).
pub open spec fn can_land(b: Seq<Option<Piece>>, i: int, c: Color) -> bool {
    !holds_color(b, i, c)
}

/// Destination of one sliding ray: `to` lies `k >= 1` unit steps from `from`
/// along `(dr, df)` without leaving the board, every strictly intermediate
/// square is empty, and the mover of color `c` may land on it.
pub open spec fn ray_dest(
    b: Seq<Option<Piece>>,
    from: int,
    dr: int,
    df: int,
    to: int,
    c: Color,
) -> bool {
    exists|k: int|
        {
            &&& 1 <= k <= 7
            &&& to == #[trigger] ray_square(from, dr, df, k)
            &&& ray_on_board(from, dr, df, k)
            &&& forall|j: int| 1 <= j < k ==> b[#[trigger] ray_square(from, dr, df, j)] is None
            &&& can_land(b, to, c)
        }
}

/// A rook slides along the four orthogonal rays.
pub open spec fn rook_dest(b: Seq<Option<Piece>>, from: int, to: int, c: Color) -> bool {
    ||| ray_dest(b, from, -1, 0, to, c)
    ||| ray_dest(b, from, 1, 0, to, c)
    ||| ray_dest(b, from, 0, 1, to, c)
    ||| ray_dest(b, from, 0, -1, to, c)
}

/// A bishop slides along the four diagonal rays.
pub open spec fn bishop_dest(b: Seq<Option<Piece>>, from: int, to: int, c: Color) -> bool {
    ||| ray_dest(b, from, -1, -1, to, c)
    ||| ray_dest(b, from, -1, 1, to, c)
    ||| ray_dest(b, from, 1, -1, to, c)
    ||| ray_dest(b, from, 1, 1, to, c)
}

/// A queen slides along all eight rays.
pub open spec fn queen_dest(b: Seq<Option<Piece>>, from: int, to: int, c: Color) -> bool {
    bishop_dest(b, from, to, c) || rook_dest(b, from, to, c)
}

/// A fixed-offset destination: `to` is the square one `(dr, df)` step from
/// `from`, on the board, and the mover may land there.
pub open spec fn step_dest(
    b: Seq<Option<Piece>>,
    from: int,
    dr: int,
    df: int,
    to: int,
    c: Color,
) -> bool {
    &&& to == square_at(rank_of(from) + dr, file_of(from) + df)
    &&& on_board_rf(rank_of(from) + dr, file_of(from) + df)
    &&& can_land(b, to, c)
}

/// A knight jumps by one of its eight fixed offsets.
pub open spec fn knight_dest(b: Seq<Option<Piece>>, from: int, to: int, c: Color) -> bool {
    ||| step_dest(b, from, -1, -2, to, c)
    ||| step_dest(b, from, -2, -1, to, c)
    ||| step_dest(b, from, 2, 1, to, c)
    ||| step_dest(b, from, 1, 2, to, c)
    ||| step_dest(b, from, 1, -2, to, c)
    ||| step_dest(b, from, 2, -1, to, c)
    ||| step_dest(b, from, -1, 2, to, c)
    ||| step_dest(b, from, -2, 1, to, c)
}

/// A king steps to one of the eight adjacent squares.
pub open spec fn king_step_dest(b: Seq<Option<Piece>>, from: int, to: int, c: Color) -> bool {
    ||| step_dest(b, from, -1, -1, to, c)
    ||| step_dest(b, from, -1, 0, to, c)
    ||| step_dest(b, from, -1, 1, to, c)
    ||| step_dest(b, from, 1, 0, to, c)
    ||| step_dest(b, from, 1, 1, to, c)
    ||| step_dest(b, from, 0, 1, to, c)
    ||| step_dest(b, from, 1, -1, to, c)
    ||| step_dest(b, from, 0, -1, to, c)
}

/// The direction a pawn of color `c` advances: White up the ranks, Black down.
pub open spec fn pawn_forward(c: Color) -> int {
    if c is White {
        1
    } else {
        -1
    }
}

/// The rank from which a pawn of color `c` may advance two squares.
pub open spec fn pawn_start_rank(c: Color) -> int {
    if c is White {
        1
    } else {
        6
    }
}

/// A pawn capture one file to the side given by `df`: the target holds an
/// enemy piece, or it is empty and equals the current en-passant target.
pub open spec fn pawn_capture(
    b: Seq<Option<Piece>>,
    ep: Option<int>,
    from: int,
    to: int,
    c: Color,
    df: int,
) -> bool {
    &&& to == square_at(rank_of(from) + pawn_forward(c), file_of(from) + df)
    &&& on_board_rf(rank_of(from) + pawn_forward(c), file_of(from) + df)
    &&& (holds_color(b, to, opposite_color(c)) || (b[to] is None && ep == Some(to)))
}

/// A pawn destination: one square forward onto an empty square; two squares
/// forward from the home rank across two empty squares; or a diagonal
/// capture, ordinary or en passant.
pub open spec fn pawn_dest(
    b: Seq<Option<Piece>>,
    ep: Option<int>,
    from: int,
    to: int,
    c: Color,
) -> bool {
    let fr = rank_of(from);
    let ff = file_of(from);
    let fwd = pawn_forward(c);
    ||| (to == square_at(fr + fwd, ff) && on_board_rf(fr + fwd, ff) && b[to] is None)
    ||| (fr == pawn_start_rank(c) && to == square_at(fr + 2 * fwd, ff) && b[square_at(
        fr + fwd,
        ff,
    )] is None && b[to] is None)
    ||| pawn_capture(b, ep, from, to, c, -1)
    ||| pawn_capture(b, ep, from, to, c, 1)
}

/// Pseudo-legal destination with castling excluded: the movement pattern of
/// the piece standing on `from`, respecting occupancy but ignoring whether
/// the move would leave its own king in check.
pub open spec fn pseudo_dest_basic(v: StateView, from: int, to: int) -> bool {
    &&& 0 <= from < 64
    &&& 0 <= to < 64
    &&& v.board[from] matches Some(p) && match p.piece_type {
        PieceType::Rook => rook_dest(v.board, from, to, p.color),
        PieceType::Bishop => bishop_dest(v.board, from, to, p.color),
        PieceType::Queen => queen_dest(v.board, from, to, p.color),
        PieceType::Knight => knight_dest(v.board, from, to, p.color),
        PieceType::King => king_step_dest(v.board, from, to, p.color),
        PieceType::Pawn => pawn_dest(v.board, v.en_passant_target, from, to, p.color),
    }
}

/// Square `t` is attacked by side `by`: some piece of that color has `t`
/// among its pseudo-legal destinations, castling excluded.
pub open spec fn attacked(v: StateView, t: int, by: Color) -> bool {
    exists|i: int| 0 <= i < 64 && holds_color(v.board, i, by) && #[trigger] pseudo_dest_basic(
        v,
        i,
        t,
    )
}

/// Side `c` is in check: one of its kings stands on a square attacked by the
/// opposite color.
pub open spec fn in_check(v: StateView, c: Color) -> bool {
    exists|k: int|
        0 <= k < 64 && v.board[k] == Some(Piece { piece_type: PieceType::King, color: c })
            && #[trigger] attacked(v, k, opposite_color(c))
}

/// The king-side castling-rights bit of color `c` is still set.
pub open spec fn has_kingside_right(cr: u8, c: Color) -> bool {
    if c is White {
        cr & WHITE_KINGSIDE != 0
    } else {
        cr & BLACK_KINGSIDE != 0
    }
}

/// The queen-side castling-rights bit of color `c` is still set.
pub open spec fn has_queenside_right(cr: u8, c: Color) -> bool {
    if c is White {
        cr & WHITE_QUEENSIDE != 0
    } else {
        cr & BLACK_QUEENSIDE != 0
    }
}

/// A castling destination for the king of color `c` standing on `from`.  The
/// king must not currently be attacked; the rights bit for the wing must
/// still be set; the squares between king and rook must be empty; and no
/// square the king crosses or lands on may be attacked.  On the queen side
/// the square next to the rook is merely crossed by the rook, so it need
/// only be empty.  Offsets are taken from the king's actual square, as the
/// engine computes them, and the bound conjuncts keep them on the board.
pub open spec fn castle_dest(v: StateView, from: int, to: int, c: Color) -> bool {
    &&& !attacked(v, from, opposite_color(c))
    &&& {
        ||| (has_kingside_right(v.castling_rights, c) && from + 2 < 64 && to == from + 2
            && v.board[from + 1] is None && v.board[from + 2] is None && !attacked(
            v,
            from + 1,
            opposite_color(c),
        ) && !attacked(v, from + 2, opposite_color(c)))
        ||| (has_queenside_right(v.castling_rights, c) && from - 3 >= 0 && to == from - 2
            && v.board[from - 3] is None && v.board[from - 2] is None && v.board[from
            - 1] is None && !attacked(v, from - 2, opposite_color(c)) && !attacked(
            v,
            from - 1,
            opposite_color(c),
        ))
    }
}

/// Pseudo-legal destination; with `include_castling` the king's castling
/// destinations are considered as well.
pub open spec fn pseudo_dest(v: StateView, from: int, to: int, include_castling: bool) -> bool {
    ||| pseudo_dest_basic(v, from, to)
    ||| {
        &&& include_castling
        &&& 0 <= from < 64
        &&& 0 <= to < 64
        &&& v.board[from] matches Some(p) && p.piece_type is King && castle_dest(
            v,
            from,
            to,
            p.color,
        )
    }
}

/// The state after lifting the piece on `from` and setting it down on `to`,
/// with no other effect.  This is the position whose king safety the
/// legality filter tests.
pub open spec fn relocated(v: StateView, from: int, to: int) -> StateView {
    StateView { board: v.board.update(from, None).update(to, v.board[from]), ..v }
}

/// A legal destination: pseudo-legal with castling included, and relocating
/// the piece does not leave the mover's own king in check.
pub open spec fn legal_dest(v: StateView, from: int, to: int) -> bool {
    pseudo_dest(v, from, to, true) && !in_check(
        relocated(v, from, to),
        v.board[from].unwrap().color,
    )
}

/// Some piece of the side to move has at least one legal destination.
pub open spec fn has_any_legal_move(v: StateView) -> bool {
    exists|i: int, t: int|
        0 <= i < 64 && holds_color(v.board, i, v.turn) && #[trigger] legal_dest(v, i, t)
}

} // verus!
