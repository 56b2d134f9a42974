//! The game state: board, side to move, castling rights, en-passant target
//! and clocks, together with the standard-position initializer.

use vstd::prelude::*;

use crate::pieces::{Color, Piece, PieceType};

verus! {

broadcast use vstd::array::group_array_axioms;

/// Castling-rights bit for the white king-side rook.
pub const WHITE_KINGSIDE: u8 = 0b1000;

/// Castling-rights bit for the white queen-side rook.
pub const WHITE_QUEENSIDE: u8 = 0b0100;

/// Castling-rights bit for the black king-side rook.
pub const BLACK_KINGSIDE: u8 = 0b0010;

/// Castling-rights bit for the black queen-side rook.
pub const BLACK_QUEENSIDE: u8 = 0b0001;

/// Milliseconds each side has on the clock at the start of a game.
pub const INITIAL_TIME_MS: i64 = 300_000;

/// The whole state of one game.  The board is a fixed array of 64 optional
/// piece slots, indexed `rank * 8 + file`, with rank 0 the rank nearest
/// White's home row and file 0 the a-file.  The timers hold milliseconds
/// remaining; the engine never decrements them, it only compares them
/// against zero.  An external driver owns the real-time tick and may let
/// them go negative.
#[derive(Clone, Copy, Debug)]
pub struct GameState {
    pub board: [Option<Piece>; 64],
    pub turn: Color,
    pub en_passant_target: Option<usize>,
    pub castling_rights: u8,
    pub white_timer: i64,
    pub black_timer: i64,
    pub game_active: bool,
}

/// The mathematical value of a [`GameState`]: the board as a sequence of 64
/// optional pieces, and the scalar fields as unbounded values.
#[verifier::ext_equal]
pub ghost struct StateView {
    pub board: Seq<Option<Piece>>,
    pub turn: Color,
    pub en_passant_target: Option<int>,
    pub castling_rights: u8,
    pub white_timer: int,
    pub black_timer: int,
    pub game_active: bool,
}

impl View for GameState {
    type V = StateView;

    open spec fn view(&self) -> StateView {
        StateView {
            board: self.board@,
            turn: self.turn,
            en_passant_target: match self.en_passant_target {
                Some(t) => Some(t as int),
                None => None,
            },
            castling_rights: self.castling_rights,
            white_timer: self.white_timer as int,
            black_timer: self.black_timer as int,
            game_active: self.game_active,
        }
    }
}

/// The piece standing on square `i` in the standard starting position.
pub open spec fn start_piece(i: int) -> Option<Piece> {
    if i == 0 || i == 7 {
        Some(Piece { piece_type: PieceType::Rook, color: Color::White })
    } else if i == 1 || i == 6 {
        Some(Piece { piece_type: PieceType::Knight, color: Color::White })
    } else if i == 2 || i == 5 {
        Some(Piece { piece_type: PieceType::Bishop, color: Color::White })
    } else if i == 3 {
        Some(Piece { piece_type: PieceType::Queen, color: Color::White })
    } else if i == 4 {
        Some(Piece { piece_type: PieceType::King, color: Color::White })
    } else if 8 <= i < 16 {
        Some(Piece { piece_type: PieceType::Pawn, color: Color::White })
    } else if i == 56 || i == 63 {
        Some(Piece { piece_type: PieceType::Rook, color: Color::Black })
    } else if i == 57 || i == 62 {
        Some(Piece { piece_type: PieceType::Knight, color: Color::Black })
    } else if i == 58 || i == 61 {
        Some(Piece { piece_type: PieceType::Bishop, color: Color::Black })
    } else if i == 59 {
        Some(Piece { piece_type: PieceType::Queen, color: Color::Black })
    } else if i == 60 {
        Some(Piece { piece_type: PieceType::King, color: Color::Black })
    } else if 48 <= i < 56 {
        Some(Piece { piece_type: PieceType::Pawn, color: Color::Black })
    } else {
        None
    }
}

impl GameState {
    /// A fresh game: all 32 pieces on their home squares, White to move,
    /// full castling rights, no en-passant target, both clocks at the fixed
    /// starting budget, and the game marked active.
    pub fn new() -> (game: Self)
        ensures
            forall|i: int| 0 <= i < 64 ==> #[trigger] game@.board[i] == start_piece(i),
            game@.turn == Color::White,
            game@.en_passant_target is None,
            game@.castling_rights == 0b1111u8,
            game@.white_timer == INITIAL_TIME_MS as int,
            game@.black_timer == INITIAL_TIME_MS as int,
            game@.game_active,
    {
        let mut game = GameState {
            board: [None; 64],
            turn: Color::White,
            en_passant_target: None,
            castling_rights: 0b1111,
            white_timer: INITIAL_TIME_MS,
            black_timer: INITIAL_TIME_MS,
            game_active: true,
        };
        game.setup_initial_position();
        game
    }

    /// Place the 32 pieces of the standard starting position on a blank board.
    fn setup_initial_position(&mut self)
        requires
            forall|j: int| 0 <= j < 64 ==> old(self)@.board[j] is None,
        ensures
            forall|i: int| 0 <= i < 64 ==> #[trigger] final(self)@.board[i] == start_piece(i),
            final(self).turn == old(self).turn,
            final(self).en_passant_target == old(self).en_passant_target,
            final(self).castling_rights == old(self).castling_rights,
            final(self).white_timer == old(self).white_timer,
            final(self).black_timer == old(self).black_timer,
            final(self).game_active == old(self).game_active,
    {
        self.board[0] = Some(Piece { piece_type: PieceType::Rook, color: Color::White });
        self.board[1] = Some(Piece { piece_type: PieceType::Knight, color: Color::White });
        self.board[2] = Some(Piece { piece_type: PieceType::Bishop, color: Color::White });
        self.board[3] = Some(Piece { piece_type: PieceType::Queen, color: Color::White });
        self.board[4] = Some(Piece { piece_type: PieceType::King, color: Color::White });
        self.board[5] = Some(Piece { piece_type: PieceType::Bishop, color: Color::White });
        self.board[6] = Some(Piece { piece_type: PieceType::Knight, color: Color::White });
        self.board[7] = Some(Piece { piece_type: PieceType::Rook, color: Color::White });
        assert forall|j: int| 0 <= j < 8 implies self@.board[j] == start_piece(j) by {
            assert(self@.board[0] == start_piece(0));
        }
        assert forall|j: int| 8 <= j < 64 implies self@.board[j] == old(self)@.board[j] by {
            assert(self@.board[30] == old(self)@.board[30]);
        }
        let mut i: usize = 8;
        while i < 16
            invariant
                8 <= i <= 16,
                forall|j: int| 0 <= j < i ==> self@.board[j] == start_piece(j),
                forall|j: int| i <= j < 64 ==> self@.board[j] == old(self)@.board[j],
                self.turn == old(self).turn,
                self.en_passant_target == old(self).en_passant_target,
                self.castling_rights == old(self).castling_rights,
                self.white_timer == old(self).white_timer,
                self.black_timer == old(self).black_timer,
                self.game_active == old(self).game_active,
            decreases 16 - i,
        {
            self.board[i] = Some(Piece { piece_type: PieceType::Pawn, color: Color::White });
            i = i + 1;
        }
        let mut k: usize = 48;
        while k < 56
            invariant
                48 <= k <= 56,
                forall|j: int| 0 <= j < 16 ==> self@.board[j] == start_piece(j),
                forall|j: int| 48 <= j < k ==> self@.board[j] == start_piece(j),
                forall|j: int| 16 <= j < 48 ==> self@.board[j] == old(self)@.board[j],
                forall|j: int| k <= j < 64 ==> self@.board[j] == old(self)@.board[j],
                self.turn == old(self).turn,
                self.en_passant_target == old(self).en_passant_target,
                self.castling_rights == old(self).castling_rights,
                self.white_timer == old(self).white_timer,
                self.black_timer == old(self).black_timer,
                self.game_active == old(self).game_active,
            decreases 56 - k,
        {
            self.board[k] = Some(Piece { piece_type: PieceType::Pawn, color: Color::Black });
            k = k + 1;
        }
        self.board[56] = Some(Piece { piece_type: PieceType::Rook, color: Color::Black });
        self.board[57] = Some(Piece { piece_type: PieceType::Knight, color: Color::Black });
        self.board[58] = Some(Piece { piece_type: PieceType::Bishop, color: Color::Black });
        self.board[59] = Some(Piece { piece_type: PieceType::Queen, color: Color::Black });
        self.board[60] = Some(Piece { piece_type: PieceType::King, color: Color::Black });
        self.board[61] = Some(Piece { piece_type: PieceType::Bishop, color: Color::Black });
        self.board[62] = Some(Piece { piece_type: PieceType::Knight, color: Color::Black });
        self.board[63] = Some(Piece { piece_type: PieceType::Rook, color: Color::Black });
        assert forall|i: int| 0 <= i < 64 implies self@.board[i] == start_piece(i) by {
            assert(self@.board.len() == 64);
        }
    }
}

impl Default for GameState {
    /// Same as [`GameState::new`].
    fn default() -> (game: Self)
        ensures
            forall|i: int| 0 <= i < 64 ==> #[trigger] game@.board[i] == start_piece(i),
            game@.turn == Color::White,
            game@.en_passant_target is None,
            game@.castling_rights == 0b1111u8,
            game@.white_timer == INITIAL_TIME_MS as int,
            game@.black_timer == INITIAL_TIME_MS as int,
            game@.game_active,
    {
        Self::new()
    }
}

} // verus!
