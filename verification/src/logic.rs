//! Move application and game-status resolution: the `Logic` trait, its
//! errors, the status classification, and the functional model of one
//! applied ply.

use vstd::prelude::*;

use crate::moves::contains_square;
use crate::pieces::{opposite_color, Color, Piece, PieceType};
use crate::rules::{
    file_of, has_any_legal_move, in_check, legal_dest, on_board_rf, pseudo_dest, rank_of,
    square_at,
};
use crate::state::{GameState, StateView};
use vstd::string::StringExecFns;

verus! {

/// Why a move was rejected.  All are non-fatal: a rejected move leaves the
/// game state untouched.
#[derive(Debug, PartialEq, Eq, Structural, Clone, Copy)]
pub enum ChessError {
    IllegalMove,
    NotYourTurn,
    OutOfBounds,
    EmptySquare,
}

/// The classification of a position for the side to move.
#[derive(Debug, PartialEq, Eq, Structural, Clone, Copy)]
pub enum GameStatus {
    Ongoing,
    Check,
    Checkmate,
    Stalemate,
    Timeout(Color),
}

/// Audio cues a presentation layer may attach to events.  The engine never
/// plays them; the enum only names the occasions.
#[derive(Debug, Clone, Copy)]
pub enum Sound {
    Move,
    Capture,
    Castle,
    Win,
    Check,
}

/// The piece kind a promoting pawn becomes: the requested kind when it is
/// Rook, Bishop or Knight; otherwise a Queen.  An absent or invalid request
/// is never an error, it silently defaults.
pub open spec fn promotion_type(requested: Option<PieceType>) -> PieceType {
    match requested {
        Some(PieceType::Rook) => PieceType::Rook,
        Some(PieceType::Bishop) => PieceType::Bishop,
        Some(PieceType::Knight) => PieceType::Knight,
        _ => PieceType::Queen,
    }
}

/// The square holding the pawn captured en passant when a pawn of color `c`
/// lands on the en-passant target `to`: one rank behind the destination.
pub open spec fn en_passant_victim_square(to: int, c: Color) -> int {
    if c is White {
        to - 8
    } else {
        to + 8
    }
}

/// The en-passant target after a move of `p` from `from` to `to`: the
/// skipped square of a pawn double-advance, otherwise cleared.
pub open spec fn en_passant_target_after(from: int, to: int, p: Piece) -> Option<int> {
    if p.piece_type is Pawn && ((rank_of(from) == 1 && rank_of(to) == 3) || (rank_of(from) == 6
        && rank_of(to) == 4)) {
        Some((from + to) / 2)
    } else {
        None
    }
}

/// Castling-rights bits surviving a move of piece `p` off square `from`:
/// a king move clears both of its side's bits; a rook move off a corner
/// clears the bit of that corner.
pub open spec fn rights_after_piece_move(cr: u8, p: Piece, from: int) -> u8 {
    let cr1 = if p.piece_type is King {
        if p.color is White {
            cr & 0b0011
        } else {
            cr & 0b1100
        }
    } else {
        cr
    };
    if p.piece_type is Rook {
        if from == 0 {
            cr1 & 0b1011
        } else if from == 7 {
            cr1 & 0b0111
        } else if from == 56 {
            cr1 & 0b1110
        } else if from == 63 {
            cr1 & 0b1101
        } else {
            cr1
        }
    } else {
        cr1
    }
}

/// Castling-rights bits surviving a landing on `to`: a move onto a corner
/// clears that corner's bit, whatever was captured there.
pub open spec fn rights_after_landing(cr: u8, to: int) -> u8 {
    if to == 0 {
        cr & 0b1011
    } else if to == 7 {
        cr & 0b0111
    } else if to == 56 {
        cr & 0b1110
    } else if to == 63 {
        cr & 0b1101
    } else {
        cr
    }
}

/// The board after the validated move `from -> to` of piece `p`: the piece
/// is lifted and set down, an en-passant victim is removed, a pawn on the
/// last rank is promoted, and a castling king's rook is relocated.
pub open spec fn board_after_move(
    v: StateView,
    from: int,
    to: int,
    p: Piece,
    promo: Option<PieceType>,
) -> Seq<Option<Piece>> {
    let b1 = v.board.update(from, None);
    let b2 = if p.piece_type is Pawn && v.en_passant_target == Some(to) {
        b1.update(en_passant_victim_square(to, p.color), None)
    } else {
        b1
    };
    let b3 = b2.update(to, Some(p));
    let b4 = if p.piece_type is Pawn && (rank_of(to) == 0 || rank_of(to) == 7) {
        b3.update(to, Some(Piece { piece_type: promotion_type(promo), color: p.color }))
    } else {
        b3
    };
    if p.piece_type is King && file_of(from) == 4 && file_of(to) == 6 {
        b4.update(from + 3, None).update(from + 1, b4[from + 3])
    } else if p.piece_type is King && file_of(from) == 4 && file_of(to) == 2 {
        b4.update(from - 4, None).update(from - 1, b4[from - 4])
    } else {
        b4
    }
}

/// The whole state after the validated move `from -> to` with promotion
/// request `promo`: the new board, flipped turn, refreshed en-passant
/// target and castling rights.  Timers and the active flag are untouched.
pub open spec fn state_after_move(
    v: StateView,
    from: int,
    to: int,
    promo: Option<PieceType>,
) -> StateView
    recommends
        v.board[from] is Some,
{
    let p = v.board[from].unwrap();
    StateView {
        board: board_after_move(v, from, to, p, promo),
        turn: opposite_color(v.turn),
        en_passant_target: en_passant_target_after(from, to, p),
        castling_rights: rights_after_landing(rights_after_piece_move(v.castling_rights, p, from), to),
        white_timer: v.white_timer,
        black_timer: v.black_timer,
        game_active: v.game_active,
    }
}

/// The lowercase letter naming file `f`.
pub open spec fn file_letter(f: int) -> Seq<char> {
    if f == 0 {
        "a"@
    } else if f == 1 {
        "b"@
    } else if f == 2 {
        "c"@
    } else if f == 3 {
        "d"@
    } else if f == 4 {
        "e"@
    } else if f == 5 {
        "f"@
    } else if f == 6 {
        "g"@
    } else {
        "h"@
    }
}

/// The digit naming rank `r`, 1-indexed.
pub open spec fn rank_digit(r: int) -> Seq<char> {
    if r == 0 {
        "1"@
    } else if r == 1 {
        "2"@
    } else if r == 2 {
        "3"@
    } else if r == 3 {
        "4"@
    } else if r == 4 {
        "5"@
    } else if r == 5 {
        "6"@
    } else if r == 6 {
        "7"@
    } else {
        "8"@
    }
}

/// The notation recorded for a move: `<file><rank>-<file><rank>`.  It
/// records geometry only, with no check, capture or promotion annotations.
pub open spec fn notation_view(from: int, to: int) -> Seq<char> {
    file_letter(file_of(from)) + rank_digit(rank_of(from)) + "-"@ + file_letter(file_of(to))
        + rank_digit(rank_of(to))
}

/// The status of a position: a non-positive clock times its side out
/// (White examined first); otherwise the side to move is classified by
/// whether it has a legal move and whether its king is attacked.
pub open spec fn status_of(v: StateView) -> GameStatus {
    if v.white_timer <= 0 {
        GameStatus::Timeout(Color::White)
    } else if v.black_timer <= 0 {
        GameStatus::Timeout(Color::Black)
    } else if has_any_legal_move(v) {
        if in_check(v, v.turn) {
            GameStatus::Check
        } else {
            GameStatus::Ongoing
        }
    } else {
        if in_check(v, v.turn) {
            GameStatus::Checkmate
        } else {
            GameStatus::Stalemate
        }
    }
}

fn file_letter_str(f: u8) -> (s: &'static str)
    requires
        f < 8,
    ensures
        s@ == file_letter(f as int),
{
    match f {
        0 => "a",
        1 => "b",
        2 => "c",
        3 => "d",
        4 => "e",
        5 => "f",
        6 => "g",
        _ => "h",
    }
}

fn rank_digit_str(r: u8) -> (s: &'static str)
    requires
        r < 8,
    ensures
        s@ == rank_digit(r as int),
{
    match r {
        0 => "1",
        1 => "2",
        2 => "3",
        3 => "4",
        4 => "5",
        5 => "6",
        6 => "7",
        _ => "8",
    }
}

/// The operations a chess rules engine offers its callers.
pub trait Logic {
    /// Both coordinates lie on the 8 by 8 board.
    fn is_on_board(rank: u8, file: u8) -> bool;

    /// The legal destinations of the piece at `(rank, file)`, as
    /// `(rank, file)` pairs, for interface highlighting.
    fn get_legal_dest(&self, rank: u8, file: u8) -> Vec<(u8, u8)>;

    /// Validate and apply one ply; the state is mutated on success and left
    /// untouched on any error.
    fn make_move(&mut self, start: (u8, u8), end: (u8, u8), promotion: Option<PieceType>) -> Result<
        String,
        ChessError,
    >;

    /// Classify the current position for the side to move.
    fn get_game_status(&self) -> GameStatus;
}

impl Logic for GameState {
    fn is_on_board(rank: u8, file: u8) -> (r: bool)
        ensures
            r == on_board_rf(rank as int, file as int),
    {
        rank < 8 && file < 8
    }

    fn get_legal_dest(&self, rank: u8, file: u8) -> (dests: Vec<(u8, u8)>)
        ensures
            !on_board_rf(rank as int, file as int) ==> dests@.len() == 0,
            on_board_rf(rank as int, file as int) ==> forall|dest: (u8, u8)|
                #[trigger] dests@.contains(dest) <==> dest.0 < 8 && dest.1 < 8 && legal_dest(
                    self@,
                    square_at(rank as int, file as int),
                    square_at(dest.0 as int, dest.1 as int),
                ),
            dests@.no_duplicates(),
    {
        let mut dests: Vec<(u8, u8)> = Vec::new();
        if !(rank < 8 && file < 8) {
            return dests;
        }
        let idx: usize = (rank as usize) * 8 + (file as usize);
        let valid_moves = self.generate_valid_moves(idx);
        let mut i: usize = 0;
        while i < valid_moves.len()
            invariant
                i <= valid_moves@.len(),
                idx == square_at(rank as int, file as int),
                idx < 64,
                forall|t: usize|
                    #[trigger] valid_moves@.contains(t) <==> legal_dest(
                        self@,
                        idx as int,
                        t as int,
                    ),
                valid_moves@.no_duplicates(),
                dests@.no_duplicates(),
                forall|dest: (u8, u8)|
                    #[trigger] dests@.contains(dest) <==> dest.0 < 8 && dest.1 < 8 && (exists|
                        j: int,
                    |
                        0 <= j < i && valid_moves@[j] == square_at(dest.0 as int, dest.1 as int)),
            decreases valid_moves@.len() - i,
        {
            let t = valid_moves[i];
            proof {
                assert(valid_moves@.contains(t));
            }
            let pair = ((t / 8) as u8, (t % 8) as u8);
            proof {
                assert(square_at(pair.0 as int, pair.1 as int) == t as int);
                assert(!dests@.contains(pair)) by {
                    if dests@.contains(pair) {
                        let j = choose|j: int|
                            0 <= j < i && valid_moves@[j] == square_at(
                                pair.0 as int,
                                pair.1 as int,
                            );
                        assert(valid_moves@[j] == valid_moves@[i as int]);
                    }
                }
                crate::moves::lemma_push_contains(dests@, pair);
                crate::moves::lemma_push_no_duplicates(dests@, pair);
            }
            dests.push(pair);
            proof {
                assert forall|dest: (u8, u8)|
                    #[trigger] dests@.contains(dest) <==> dest.0 < 8 && dest.1 < 8 && (exists|
                        j: int,
                    |
                        0 <= j < i + 1 && valid_moves@[j] == square_at(
                            dest.0 as int,
                            dest.1 as int,
                        )) by {
                    if dest.0 < 8 && dest.1 < 8 && (exists|j: int|
                        0 <= j < i + 1 && valid_moves@[j] == square_at(
                            dest.0 as int,
                            dest.1 as int,
                        )) && !(exists|j: int|
                        0 <= j < i && valid_moves@[j] == square_at(dest.0 as int, dest.1 as int)) {
                        assert(valid_moves@[i as int] == square_at(dest.0 as int, dest.1 as int));
                        assert(dest == pair);
                    }
                    if dest == pair {
                        assert(valid_moves@[i as int] == square_at(dest.0 as int, dest.1 as int));
                    }
                }
            }
            i = i + 1;
        }
        proof {
            assert forall|dest: (u8, u8)|
                #[trigger] dests@.contains(dest) <==> dest.0 < 8 && dest.1 < 8 && legal_dest(
                    self@,
                    square_at(rank as int, file as int),
                    square_at(dest.0 as int, dest.1 as int),
                ) by {
                let ti = square_at(dest.0 as int, dest.1 as int);
                if dest.0 < 8 && dest.1 < 8 {
                    assert(0 <= ti < 64);
                    if legal_dest(self@, idx as int, ti) {
                        assert(valid_moves@.contains(ti as usize));
                    }
                    if exists|j: int| 0 <= j < valid_moves@.len() && valid_moves@[j] == ti {
                        let j = choose|j: int|
                            0 <= j < valid_moves@.len() && valid_moves@[j] == ti;
                        assert(valid_moves@.contains(ti as usize));
                    }
                }
            }
        }
        dests
    }

    #[verifier::rlimit(100)]
    fn make_move(&mut self, start: (u8, u8), end: (u8, u8), promotion: Option<PieceType>) -> (r:
        Result<String, ChessError>)
        ensures
            ({
                let v = old(self)@;
                let sq_start = square_at(start.0 as int, start.1 as int);
                let sq_end = square_at(end.0 as int, end.1 as int);
                let oob = !(on_board_rf(start.0 as int, start.1 as int) && on_board_rf(
                    end.0 as int,
                    end.1 as int,
                ));
                &&& (oob ==> r == Err::<String, ChessError>(ChessError::OutOfBounds)
                    && final(self)@ == v)
                &&& (!oob && v.board[sq_start] is None ==> r == Err::<String, ChessError>(
                    ChessError::EmptySquare,
                ) && final(self)@ == v)
                &&& (v.board[sq_start] matches Some(p) && !oob && p.color != v.turn ==> r == Err::<
                    String,
                    ChessError,
                >(ChessError::NotYourTurn) && final(self)@ == v)
                &&& (v.board[sq_start] matches Some(p) && !oob && p.color == v.turn && !legal_dest(
                    v,
                    sq_start,
                    sq_end,
                ) ==> r == Err::<String, ChessError>(ChessError::IllegalMove) && final(self)@ == v)
                &&& (v.board[sq_start] matches Some(p) && !oob && p.color == v.turn && legal_dest(
                    v,
                    sq_start,
                    sq_end,
                ) ==> (r matches Ok(s) && s@ == notation_view(sq_start, sq_end)) && final(self)@
                    == state_after_move(v, sq_start, sq_end, promotion))
            }),
    {
        if !(start.0 < 8 && start.1 < 8 && end.0 < 8 && end.1 < 8) {
            return Err(ChessError::OutOfBounds);
        }
        let start_idx: usize = (start.0 as usize) * 8 + (start.1 as usize);
        let end_idx: usize = (end.0 as usize) * 8 + (end.1 as usize);
        let piece = match self.board[start_idx] {
            Some(p) => p,
            None => {
                return Err(ChessError::EmptySquare);
            },
        };
        if piece.color != self.turn {
            return Err(ChessError::NotYourTurn);
        }
        let valid_moves = self.generate_valid_moves(start_idx);
        if !contains_square(&valid_moves, end_idx) {
            return Err(ChessError::IllegalMove);
        }
        let ghost v = self@;
        proof {
            assert(legal_dest(v, start_idx as int, end_idx as int));
        }

        self.board[start_idx] = None;
        if piece.piece_type == PieceType::Pawn {
            if let Some(ep_target) = self.en_passant_target {
                if end_idx == ep_target {
                    proof {
                        assert(pseudo_dest(v, start_idx as int, end_idx as int, true));
                        assert(rank_of(end_idx as int) == end.0 as int);
                        if piece.color == Color::White {
                            assert(end.0 >= 1);
                        } else {
                            assert(end.0 <= 6);
                        }
                    }
                    let victim: usize = if piece.color == Color::White {
                        end_idx - 8
                    } else {
                        end_idx + 8
                    };
                    self.board[victim] = None;
                }
            }
        }
        self.board[end_idx] = Some(piece);
        if piece.piece_type == PieceType::Pawn && ((start.0 == 1 && end.0 == 3) || (start.0 == 6
            && end.0 == 4)) {
            self.en_passant_target = Some((start_idx + end_idx) / 2);
        } else {
            self.en_passant_target = None;
        }
        if piece.piece_type == PieceType::Pawn && (end.0 == 0 || end.0 == 7) {
            let new_type = match promotion {
                Some(PieceType::Rook) => PieceType::Rook,
                Some(PieceType::Bishop) => PieceType::Bishop,
                Some(PieceType::Knight) => PieceType::Knight,
                _ => PieceType::Queen,
            };
            self.board[end_idx] = Some(Piece { piece_type: new_type, color: piece.color });
        }
        if piece.piece_type == PieceType::King && start.1 == 4 {
            if end.1 == 6 {
                let rook = self.board[start_idx + 3];
                self.board[start_idx + 3] = None;
                self.board[start_idx + 1] = rook;
            } else if end.1 == 2 {
                let rook = self.board[start_idx - 4];
                self.board[start_idx - 4] = None;
                self.board[start_idx - 1] = rook;
            }
        }
        if piece.piece_type == PieceType::King {
            if piece.color == Color::White {
                self.castling_rights = self.castling_rights & 0b0011;
            } else {
                self.castling_rights = self.castling_rights & 0b1100;
            }
        }
        if piece.piece_type == PieceType::Rook {
            if start_idx == 0 {
                self.castling_rights = self.castling_rights & 0b1011;
            } else if start_idx == 7 {
                self.castling_rights = self.castling_rights & 0b0111;
            } else if start_idx == 56 {
                self.castling_rights = self.castling_rights & 0b1110;
            } else if start_idx == 63 {
                self.castling_rights = self.castling_rights & 0b1101;
            }
        }
        if end_idx == 0 {
            self.castling_rights = self.castling_rights & 0b1011;
        } else if end_idx == 7 {
            self.castling_rights = self.castling_rights & 0b0111;
        } else if end_idx == 56 {
            self.castling_rights = self.castling_rights & 0b1110;
        } else if end_idx == 63 {
            self.castling_rights = self.castling_rights & 0b1101;
        }
        self.turn = self.turn.opposite();
        proof {
            assert(self@.board =~= state_after_move(v, start_idx as int, end_idx as int, promotion).board);
            assert(self@ =~= state_after_move(v, start_idx as int, end_idx as int, promotion));
        }

        let mut notation = String::from_str(file_letter_str(start.1));
        notation.append(rank_digit_str(start.0));
        notation.append("-");
        notation.append(file_letter_str(end.1));
        notation.append(rank_digit_str(end.0));
        Ok(notation)
    }

    fn get_game_status(&self) -> (status: GameStatus)
        ensures
            status == status_of(self@),
    {
        if self.white_timer <= 0 {
            return GameStatus::Timeout(Color::White);
        }
        if self.black_timer <= 0 {
            return GameStatus::Timeout(Color::Black);
        }
        let mut has_legal_moves = false;
        let mut idx: usize = 0;
        while idx < 64 && !has_legal_moves
            invariant
                idx <= 64,
                has_legal_moves ==> has_any_legal_move(self@),
                !has_legal_moves ==> forall|j: int, t: int|
                    0 <= j < idx ==> !(crate::rules::holds_color(self@.board, j, self@.turn)
                        && #[trigger] legal_dest(self@, j, t)),
            decreases 64 - idx + (if has_legal_moves {
                0int
            } else {
                1int
            }),
        {
            if let Some(p) = self.board[idx] {
                if p.color == self.turn {
                    let valid_moves = self.generate_valid_moves(idx);
                    if valid_moves.len() > 0 {
                        has_legal_moves = true;
                        proof {
                            let t0 = valid_moves@[0];
                            assert(valid_moves@.contains(t0));
                            assert(legal_dest(self@, idx as int, t0 as int));
                        }
                    } else {
                        proof {
                            assert forall|t: int| !(crate::rules::holds_color(
                                self@.board,
                                idx as int,
                                self@.turn,
                            ) && #[trigger] legal_dest(self@, idx as int, t)) by {
                                if 0 <= t < 64 {
                                    assert(!valid_moves@.contains(t as usize));
                                }
                            }
                        }
                    }
                }
            }
            idx = idx + 1;
        }
        if has_legal_moves {
            if self.is_in_check(self.turn) {
                return GameStatus::Check;
            }
            GameStatus::Ongoing
        } else {
            proof {
                assert(!has_any_legal_move(self@));
            }
            if self.is_in_check(self.turn) {
                GameStatus::Checkmate
            } else {
                GameStatus::Stalemate
            }
        }
    }
}

} // verus!
