//! Engine-wide laws, stated and proved over the mathematical model: the
//! legality filter excludes self-check, en-passant bookkeeping, the
//! monotonicity of castling rights, the promotion policy, and the
//! precedence of clock timeout.

use vstd::prelude::*;

use crate::logic::{
    en_passant_victim_square, promotion_type, rights_after_piece_move, state_after_move,
    status_of, GameStatus,
};
use crate::pieces::{opposite_color, Color, Piece, PieceType};
use crate::rules::{
    attacked, file_of, holds_color, in_check, legal_dest, pawn_forward, pseudo_dest_basic,
    rank_of, relocated, square_at,
};
use crate::state::StateView;

verus! {

/// The legality filter excludes self-check: a legal destination, applied as
/// a bare relocation the way the filter simulates it, never leaves the
/// mover's own king in check.
pub proof fn lemma_legal_move_not_self_check(v: StateView, from: int, to: int)
    requires
        legal_dest(v, from, to),
    ensures
        !in_check(relocated(v, from, to), v.board[from].unwrap().color),
{
}

/// Whether a side is in check depends only on the board, not on the
/// en-passant target: a king square is occupied, and the en-passant clause
/// of the pawn rule speaks only of empty squares.
pub proof fn lemma_in_check_ignores_en_passant(v1: StateView, v2: StateView, c: Color)
    requires
        v1.board == v2.board,
    ensures
        in_check(v1, c) == in_check(v2, c),
{
    assert forall|k: int, by: Color|
        #![trigger attacked(v1, k, by)]
        #![trigger attacked(v2, k, by)]
        0 <= k < 64 && v1.board[k] is Some implies attacked(v1, k, by) == attacked(v2, k, by) by {
        assert forall|i: int|
            #![trigger pseudo_dest_basic(v1, i, k)]
            #![trigger pseudo_dest_basic(v2, i, k)]
            0 <= i < 64 implies pseudo_dest_basic(v1, i, k) == pseudo_dest_basic(v2, i, k) by {}
        if attacked(v1, k, by) {
            let i = choose|i: int|
                0 <= i < 64 && holds_color(v1.board, i, by) && #[trigger] pseudo_dest_basic(
                    v1,
                    i,
                    k,
                );
            assert(pseudo_dest_basic(v2, i, k));
            assert(attacked(v2, k, by));
        }
        if attacked(v2, k, by) {
            let i = choose|i: int|
                0 <= i < 64 && holds_color(v2.board, i, by) && #[trigger] pseudo_dest_basic(
                    v2,
                    i,
                    k,
                );
            assert(pseudo_dest_basic(v1, i, k));
            assert(attacked(v1, k, by));
        }
    }
    if in_check(v1, c) {
        let k = choose|k: int|
            0 <= k < 64 && v1.board[k] == Some(Piece { piece_type: PieceType::King, color: c })
                && #[trigger] attacked(v1, k, opposite_color(c));
        assert(attacked(v2, k, opposite_color(c)));
        assert(in_check(v2, c));
    }
    if in_check(v2, c) {
        let k = choose|k: int|
            0 <= k < 64 && v2.board[k] == Some(Piece { piece_type: PieceType::King, color: c })
                && #[trigger] attacked(v2, k, opposite_color(c));
        assert(attacked(v1, k, opposite_color(c)));
        assert(in_check(v1, c));
    }
}

/// A legal move that is neither an en-passant capture nor castling leaves
/// the mover's side out of check once fully applied: the applied board is
/// the filter's relocation, except that a promoted pawn may change kind in
/// place, which moves no piece and opens no line.
pub proof fn lemma_applied_move_keeps_king_safe(
    v: StateView,
    from: int,
    to: int,
    promo: Option<PieceType>,
)
    requires
        v.board.len() == 64,
        legal_dest(v, from, to),
        v.board[from] is Some,
        !(v.board[from].unwrap().piece_type is Pawn && v.en_passant_target == Some(to)),
        !(v.board[from].unwrap().piece_type is King && file_of(from) == 4 && (file_of(to) == 6
            || file_of(to) == 2)),
    ensures
        !in_check(state_after_move(v, from, to, promo), v.board[from].unwrap().color),
{
    let p = v.board[from].unwrap();
    let w = state_after_move(v, from, to, promo);
    let rel = relocated(v, from, to);
    assert(0 <= from < 64 && 0 <= to < 64);
    if p.piece_type is Pawn && (rank_of(to) == 0 || rank_of(to) == 7) {
        let q = Piece { piece_type: promotion_type(promo), color: p.color };
        let mid = StateView { board: rel.board.update(to, Some(q)), ..rel };
        assert(w.board =~= mid.board);
        assert(rel.board[to] == Some(p));
        lemma_in_check_ignores_piece_kind_swap(rel, mid, to, p.color);
        lemma_in_check_ignores_en_passant(mid, w, p.color);
    } else {
        assert(w.board =~= rel.board);
        lemma_in_check_ignores_en_passant(rel, w, p.color);
    }
}

/// Whether a side is in check is unchanged when one non-king piece changes
/// kind in place, keeping its square and color: occupancy and piece colors
/// are untouched, so every line and every attack pattern onto an occupied
/// square is the same.
pub proof fn lemma_in_check_ignores_piece_kind_swap(
    v1: StateView,
    v2: StateView,
    at: int,
    c: Color,
)
    requires
        0 <= at < 64,
        v1.board.len() == 64,
        v2.board.len() == 64,
        v1.en_passant_target == v2.en_passant_target,
        forall|x: int| 0 <= x < 64 && x != at ==> v1.board[x] == v2.board[x],
        v1.board[at] matches Some(p1) && !(p1.piece_type is King),
        v2.board[at] matches Some(p2) && !(p2.piece_type is King),
        v1.board[at].unwrap().color == c,
        v2.board[at].unwrap().color == c,
    ensures
        in_check(v1, c) == in_check(v2, c),
{
    let by = opposite_color(c);
    assert(by != c);
    assert forall|x: int| 0 <= x < 64 implies (v1.board[x] is None <==> v2.board[x] is None) by {}
    assert forall|x: int, col: Color|
        #![trigger holds_color(v1.board, x, col)]
        #![trigger holds_color(v2.board, x, col)]
        0 <= x < 64 implies holds_color(v1.board, x, col) == holds_color(v2.board, x, col) by {}
    assert forall|i: int, k: int|
        #![trigger pseudo_dest_basic(v1, i, k)]
        #![trigger pseudo_dest_basic(v2, i, k)]
        0 <= i < 64 && 0 <= k < 64 && i != at implies pseudo_dest_basic(v1, i, k)
            == pseudo_dest_basic(v2, i, k) by {}
    assert forall|k: int|
        #![trigger attacked(v1, k, by)]
        #![trigger attacked(v2, k, by)]
        0 <= k < 64 implies attacked(v1, k, by) == attacked(v2, k, by) by {
        if attacked(v1, k, by) {
            let i = choose|i: int|
                0 <= i < 64 && holds_color(v1.board, i, by) && #[trigger] pseudo_dest_basic(
                    v1,
                    i,
                    k,
                );
            assert(i != at);
            assert(pseudo_dest_basic(v2, i, k));
            assert(attacked(v2, k, by));
        }
        if attacked(v2, k, by) {
            let i = choose|i: int|
                0 <= i < 64 && holds_color(v2.board, i, by) && #[trigger] pseudo_dest_basic(
                    v2,
                    i,
                    k,
                );
            assert(i != at);
            assert(pseudo_dest_basic(v1, i, k));
            assert(attacked(v1, k, by));
        }
    }
    if in_check(v1, c) {
        let k = choose|k: int|
            0 <= k < 64 && v1.board[k] == Some(Piece { piece_type: PieceType::King, color: c })
                && #[trigger] attacked(v1, k, by);
        assert(k != at);
        assert(v2.board[k] == Some(Piece { piece_type: PieceType::King, color: c }));
        assert(attacked(v2, k, by));
        assert(in_check(v2, c));
    }
    if in_check(v2, c) {
        let k = choose|k: int|
            0 <= k < 64 && v2.board[k] == Some(Piece { piece_type: PieceType::King, color: c })
                && #[trigger] attacked(v2, k, by);
        assert(k != at);
        assert(v1.board[k] == Some(Piece { piece_type: PieceType::King, color: c }));
        assert(attacked(v1, k, by));
        assert(in_check(v1, c));
    }
}

/// Castling rights are monotone: a move never sets a rights bit.  Once a
/// bit is cleared — the king moved, the rook left its corner, or something
/// landed on that corner — it stays cleared for the rest of the game.
pub proof fn lemma_castling_rights_monotone(
    v: StateView,
    from: int,
    to: int,
    promo: Option<PieceType>,
    bit: u8,
)
    requires
        v.board[from] is Some,
    ensures
        state_after_move(v, from, to, promo).castling_rights & bit != 0 ==> v.castling_rights
            & bit != 0,
{
    let p = v.board[from].unwrap();
    let cr = v.castling_rights;
    let cr1 = rights_after_piece_move(cr, p, from);
    lemma_mask_keeps_clear(cr, 0b0011, bit);
    lemma_mask_keeps_clear(cr, 0b1100, bit);
    lemma_mask_keeps_clear(cr, 0b1011, bit);
    lemma_mask_keeps_clear(cr, 0b0111, bit);
    lemma_mask_keeps_clear(cr, 0b1110, bit);
    lemma_mask_keeps_clear(cr, 0b1101, bit);
    if p.piece_type is King {
        let crk = if p.color is White {
            cr & 0b0011
        } else {
            cr & 0b1100
        };
        lemma_mask_keeps_clear(crk, 0b1011, bit);
        lemma_mask_keeps_clear(crk, 0b0111, bit);
        lemma_mask_keeps_clear(crk, 0b1110, bit);
        lemma_mask_keeps_clear(crk, 0b1101, bit);
    }
    lemma_mask_keeps_clear(cr1, 0b1011, bit);
    lemma_mask_keeps_clear(cr1, 0b0111, bit);
    lemma_mask_keeps_clear(cr1, 0b1110, bit);
    lemma_mask_keeps_clear(cr1, 0b1101, bit);
}

/// Masking can only clear bits: if a bit survives `x & m`, it was set in `x`.
proof fn lemma_mask_keeps_clear(x: u8, m: u8, bit: u8)
    ensures
        (x & m) & bit != 0 ==> x & bit != 0,
{
    assert((x & m) & bit != 0 ==> x & bit != 0) by (bit_vector);
}

/// A pawn double-advance records the skipped square — the one directly
/// behind the pawn's new position — as the en-passant target.
pub proof fn lemma_double_advance_sets_en_passant(
    v: StateView,
    from: int,
    to: int,
    promo: Option<PieceType>,
)
    requires
        v.board[from] matches Some(p) && p.piece_type is Pawn,
        legal_dest(v, from, to),
        (rank_of(from) == 1 && rank_of(to) == 3) || (rank_of(from) == 6 && rank_of(to) == 4),
    ensures
        state_after_move(v, from, to, promo).en_passant_target == Some(
            square_at(
                rank_of(from) + pawn_forward(v.board[from].unwrap().color),
                file_of(from),
            ),
        ),
{
    let p = v.board[from].unwrap();
    assert(pseudo_dest_basic(v, from, to));
    assert(to == square_at(rank_of(from) + 2 * pawn_forward(p.color), file_of(from)));
    assert((from + to) / 2 == square_at(
        rank_of(from) + pawn_forward(p.color),
        file_of(from),
    ));
}

/// An en-passant capture removes the enemy pawn on the rank behind the
/// destination, not anything on the destination square itself: afterwards
/// the square behind is empty and the moved pawn stands on the target.
pub proof fn lemma_en_passant_capture(
    v: StateView,
    from: int,
    to: int,
    promo: Option<PieceType>,
)
    requires
        v.board.len() == 64,
        v.board[from] matches Some(p) && p.piece_type is Pawn,
        v.en_passant_target == Some(to),
        legal_dest(v, from, to),
    ensures
        state_after_move(v, from, to, promo).board[en_passant_victim_square(
            to,
            v.board[from].unwrap().color,
        )] is None,
        state_after_move(v, from, to, promo).board[to] matches Some(q) && q.color
            == v.board[from].unwrap().color,
        rank_of(to) != 0 && rank_of(to) != 7 ==> state_after_move(v, from, to, promo).board[to]
            == Some(v.board[from].unwrap()),
{
    let p = v.board[from].unwrap();
    assert(pseudo_dest_basic(v, from, to));
    if p.color is White {
        assert(rank_of(to) >= 1);
    } else {
        assert(rank_of(to) <= 6);
    }
    assert(0 <= en_passant_victim_square(to, p.color) < 64);
}

/// A pawn reaching the last rank leaves the move as the piece the
/// promotion policy picks, standing on the destination square.
pub proof fn lemma_promotion_applies(
    v: StateView,
    from: int,
    to: int,
    promo: Option<PieceType>,
)
    requires
        v.board.len() == 64,
        v.board[from] matches Some(p) && p.piece_type is Pawn,
        legal_dest(v, from, to),
        rank_of(to) == 0 || rank_of(to) == 7,
    ensures
        state_after_move(v, from, to, promo).board[to] == Some(
            Piece {
                piece_type: promotion_type(promo),
                color: v.board[from].unwrap().color,
            },
        ),
{
    let p = v.board[from].unwrap();
    assert(pseudo_dest_basic(v, from, to));
}

/// The promotion policy: an absent request yields a Queen; Knight, Bishop
/// and Rook requests are honored; a King or Pawn request yields a Queen.
pub proof fn lemma_promotion_policy()
    ensures
        promotion_type(None) == PieceType::Queen,
        promotion_type(Some(PieceType::Knight)) == PieceType::Knight,
        promotion_type(Some(PieceType::Bishop)) == PieceType::Bishop,
        promotion_type(Some(PieceType::Rook)) == PieceType::Rook,
        promotion_type(Some(PieceType::Queen)) == PieceType::Queen,
        promotion_type(Some(PieceType::King)) == PieceType::Queen,
        promotion_type(Some(PieceType::Pawn)) == PieceType::Queen,
{
}

/// A non-positive clock times its side out before anything else is
/// considered, whatever stands on the board and even mid-check; White's
/// clock is examined first.
pub proof fn lemma_timeout_precedence(v: StateView)
    ensures
        v.white_timer <= 0 ==> status_of(v) == GameStatus::Timeout(Color::White),
        v.white_timer > 0 && v.black_timer <= 0 ==> status_of(v) == GameStatus::Timeout(
            Color::Black,
        ),
{
}

} // verus!
