//! Behavioral tests for the chess rules engine.

use chess_engine::{ChessError, Color, GameState, GameStatus, Logic, Piece, PieceType};

fn sq(rank: usize, file: usize) -> usize {
    rank * 8 + file
}

fn empty_board() -> [Option<Piece>; 64] {
    [None; 64]
}

fn bare_state(board: [Option<Piece>; 64], turn: Color) -> GameState {
    GameState {
        board,
        turn,
        en_passant_target: None,
        castling_rights: 0,
        white_timer: 300_000,
        black_timer: 300_000,
        game_active: true,
    }
}

fn piece(piece_type: PieceType, color: Color) -> Option<Piece> {
    Some(Piece { piece_type, color })
}

#[test]
fn test_new_game_setup() {
    let game = GameState::new();
    assert_eq!(game.board[sq(0, 0)], piece(PieceType::Rook, Color::White));
    assert_eq!(game.board[sq(0, 4)], piece(PieceType::King, Color::White));
    assert_eq!(game.board[sq(1, 3)], piece(PieceType::Pawn, Color::White));
    assert_eq!(game.board[sq(7, 3)], piece(PieceType::Queen, Color::Black));
    assert_eq!(game.board[sq(6, 7)], piece(PieceType::Pawn, Color::Black));
    for idx in 16..48 {
        assert!(game.board[idx].is_none());
    }
    assert_eq!(game.turn, Color::White);
    assert_eq!(game.en_passant_target, None);
    assert_eq!(game.castling_rights, 0b1111);
    assert_eq!(game.white_timer, 300_000);
    assert_eq!(game.black_timer, 300_000);
    assert!(game.game_active);
}

#[test]
fn test_opening_move_count_is_twenty() {
    let game = GameState::new();
    let mut total = 0;
    for rank in 0..8u8 {
        for file in 0..8u8 {
            let idx = sq(rank as usize, file as usize);
            if let Some(p) = game.board[idx] {
                if p.color == game.turn {
                    total += game.get_legal_dest(rank, file).len();
                }
            }
        }
    }
    assert_eq!(total, 20);
}

#[test]
fn test_legal_moves_never_leave_king_in_check() {
    // From the starting position, applying any legal move leaves the mover
    // out of check.
    let game = GameState::new();
    for rank in 0..8u8 {
        for file in 0..8u8 {
            let idx = sq(rank as usize, file as usize);
            let mover = match game.board[idx] {
                Some(p) if p.color == game.turn => p.color,
                _ => continue,
            };
            for (dr, df) in game.get_legal_dest(rank, file) {
                let mut copy = game;
                copy.make_move((rank, file), (dr, df), None)
                    .expect("a reported legal move must be accepted");
                assert!(!copy.is_in_check(mover));
            }
        }
    }
}

#[test]
fn test_pinned_rook_stays_on_file() {
    let mut board = empty_board();
    board[sq(0, 4)] = piece(PieceType::King, Color::White);
    board[sq(1, 4)] = piece(PieceType::Rook, Color::White);
    board[sq(7, 4)] = piece(PieceType::Rook, Color::Black);
    board[sq(7, 0)] = piece(PieceType::King, Color::Black);
    let game = bare_state(board, Color::White);
    let dests = game.get_legal_dest(1, 4);
    assert!(!dests.is_empty());
    for (_, file) in &dests {
        assert_eq!(*file, 4, "a pinned rook may only move along the pin file");
    }
}

#[test]
fn test_double_advance_sets_en_passant_target() {
    let mut game = GameState::new();
    game.make_move((1, 4), (3, 4), None).unwrap(); // e2-e4
    assert_eq!(game.en_passant_target, Some(sq(2, 4))); // e3 was skipped
    game.make_move((6, 0), (4, 0), None).unwrap(); // a7-a5
    assert_eq!(game.en_passant_target, Some(sq(5, 0))); // a6 was skipped
    game.make_move((0, 6), (2, 5), None).unwrap(); // g1-f3, no double advance
    assert_eq!(game.en_passant_target, None);
}

#[test]
fn test_en_passant_capture_removes_passed_pawn() {
    let mut game = GameState::new();
    game.make_move((1, 4), (3, 4), None).unwrap(); // e2-e4
    game.make_move((6, 0), (5, 0), None).unwrap(); // a7-a6
    game.make_move((3, 4), (4, 4), None).unwrap(); // e4-e5
    game.make_move((6, 3), (4, 3), None).unwrap(); // d7-d5, double advance
    assert_eq!(game.en_passant_target, Some(sq(5, 3))); // d6
    game.make_move((4, 4), (5, 3), None).unwrap(); // e5xd6 en passant
    assert!(game.board[sq(4, 3)].is_none(), "the passed pawn is removed");
    assert_eq!(game.board[sq(5, 3)], piece(PieceType::Pawn, Color::White));
    assert!(game.board[sq(4, 4)].is_none());
}

#[test]
fn test_castling_kingside() {
    let mut game = GameState::new();
    game.make_move((1, 4), (3, 4), None).unwrap(); // e2-e4
    game.make_move((6, 4), (4, 4), None).unwrap(); // e7-e5
    game.make_move((0, 6), (2, 5), None).unwrap(); // g1-f3
    game.make_move((7, 1), (5, 2), None).unwrap(); // b8-c6
    game.make_move((0, 5), (2, 3), None).unwrap(); // f1-d3
    game.make_move((6, 0), (5, 0), None).unwrap(); // a7-a6
    let notation = game.make_move((0, 4), (0, 6), None).unwrap(); // O-O as e1-g1
    assert_eq!(notation, "e1-g1");
    assert_eq!(game.board[sq(0, 6)], piece(PieceType::King, Color::White));
    assert_eq!(game.board[sq(0, 5)], piece(PieceType::Rook, Color::White));
    assert!(game.board[sq(0, 4)].is_none());
    assert!(game.board[sq(0, 7)].is_none());
    assert_eq!(game.castling_rights & 0b1100, 0, "both white bits are gone");
    assert_eq!(game.castling_rights & 0b0011, 0b0011, "black keeps its bits");
}

#[test]
fn test_castling_rights_never_return() {
    let mut game = GameState::new();
    game.make_move((1, 7), (3, 7), None).unwrap(); // h2-h4
    game.make_move((6, 0), (5, 0), None).unwrap(); // a7-a6
    game.make_move((0, 7), (1, 7), None).unwrap(); // h1-h2, rook leaves home
    assert_eq!(game.castling_rights & 0b1000, 0);
    game.make_move((5, 0), (4, 0), None).unwrap(); // a6-a5
    game.make_move((1, 7), (0, 7), None).unwrap(); // h2-h1, rook returns home
    assert_eq!(
        game.castling_rights & 0b1000,
        0,
        "a returned rook does not restore the right"
    );
    game.make_move((4, 0), (3, 0), None).unwrap(); // a5-a4
    // With the king-side right gone, e1-g1 is never offered even once the
    // squares between king and rook are free again.
    game.make_move((0, 6), (2, 5), None).unwrap(); // g1-f3
    game.make_move((6, 1), (5, 1), None).unwrap(); // b7-b6
    game.make_move((1, 6), (2, 6), None).unwrap(); // g2-g3
    game.make_move((5, 1), (4, 1), None).unwrap(); // b6-b5
    game.make_move((0, 5), (1, 6), None).unwrap(); // f1-g2
    game.make_move((4, 1), (3, 1), None).unwrap(); // b5-b4
    let king_dests = game.get_legal_dest(0, 4);
    assert!(!king_dests.contains(&(0, 6)));
    assert_eq!(
        game.make_move((0, 4), (0, 6), None),
        Err(ChessError::IllegalMove)
    );
}

fn promotion_state() -> GameState {
    let mut board = empty_board();
    board[sq(6, 0)] = piece(PieceType::Pawn, Color::White);
    board[sq(0, 4)] = piece(PieceType::King, Color::White);
    board[sq(7, 7)] = piece(PieceType::King, Color::Black);
    bare_state(board, Color::White)
}

#[test]
fn test_promotion_defaults_to_queen() {
    let mut game = promotion_state();
    game.make_move((6, 0), (7, 0), None).unwrap();
    assert_eq!(game.board[sq(7, 0)], piece(PieceType::Queen, Color::White));
}

#[test]
fn test_promotion_honors_minor_and_rook_requests() {
    for requested in [PieceType::Knight, PieceType::Bishop, PieceType::Rook] {
        let mut game = promotion_state();
        game.make_move((6, 0), (7, 0), Some(requested)).unwrap();
        assert_eq!(game.board[sq(7, 0)], piece(requested, Color::White));
    }
}

#[test]
fn test_promotion_rejects_king_and_pawn_requests_silently() {
    for requested in [PieceType::King, PieceType::Pawn] {
        let mut game = promotion_state();
        game.make_move((6, 0), (7, 0), Some(requested)).unwrap();
        assert_eq!(game.board[sq(7, 0)], piece(PieceType::Queen, Color::White));
    }
}

#[test]
fn test_fools_mate_is_checkmate_for_white() {
    let mut game = GameState::new();
    game.make_move((1, 5), (2, 5), None).unwrap(); // f2-f3
    game.make_move((6, 4), (4, 4), None).unwrap(); // e7-e5
    game.make_move((1, 6), (3, 6), None).unwrap(); // g2-g4
    game.make_move((7, 3), (3, 7), None).unwrap(); // d8-h4
    assert!(matches!(game.get_game_status(), GameStatus::Checkmate));
    assert_eq!(game.turn, Color::White);
    let mut white_moves = 0;
    for rank in 0..8u8 {
        for file in 0..8u8 {
            if let Some(p) = game.board[sq(rank as usize, file as usize)] {
                if p.color == Color::White {
                    white_moves += game.get_legal_dest(rank, file).len();
                }
            }
        }
    }
    assert_eq!(white_moves, 0);
}

#[test]
fn test_stalemate_is_not_checkmate() {
    // Black to move: king cornered on a8 by the queen on c7, not attacked.
    let mut board = empty_board();
    board[sq(7, 0)] = piece(PieceType::King, Color::Black);
    board[sq(6, 2)] = piece(PieceType::Queen, Color::White);
    board[sq(0, 4)] = piece(PieceType::King, Color::White);
    let game = bare_state(board, Color::Black);
    assert!(!game.is_in_check(Color::Black));
    assert!(matches!(game.get_game_status(), GameStatus::Stalemate));
}

#[test]
fn test_timeout_reported_for_the_flagged_color() {
    let mut game = GameState::new();
    game.white_timer = 0;
    assert!(matches!(
        game.get_game_status(),
        GameStatus::Timeout(Color::White)
    ));
    game.white_timer = 1;
    game.black_timer = -5;
    assert!(matches!(
        game.get_game_status(),
        GameStatus::Timeout(Color::Black)
    ));
}

#[test]
fn test_timeout_wins_over_check() {
    // White is in check from the rook on e8, but the flag fell first.
    let mut board = empty_board();
    board[sq(0, 4)] = piece(PieceType::King, Color::White);
    board[sq(7, 4)] = piece(PieceType::Rook, Color::Black);
    board[sq(7, 0)] = piece(PieceType::King, Color::Black);
    let mut game = bare_state(board, Color::White);
    game.white_timer = 0;
    assert!(game.is_in_check(Color::White));
    assert!(matches!(
        game.get_game_status(),
        GameStatus::Timeout(Color::White)
    ));
}

#[test]
fn test_check_status() {
    let mut board = empty_board();
    board[sq(0, 4)] = piece(PieceType::King, Color::White);
    board[sq(7, 4)] = piece(PieceType::Rook, Color::Black);
    board[sq(7, 0)] = piece(PieceType::King, Color::Black);
    let game = bare_state(board, Color::White);
    assert!(matches!(game.get_game_status(), GameStatus::Check));
}

#[test]
fn test_new_game_is_ongoing() {
    let game = GameState::new();
    assert!(matches!(game.get_game_status(), GameStatus::Ongoing));
}

#[test]
fn test_rejections_in_validation_order() {
    let mut game = GameState::new();
    assert_eq!(
        game.make_move((8, 0), (0, 0), None),
        Err(ChessError::OutOfBounds)
    );
    assert_eq!(
        game.make_move((0, 0), (0, 8), None),
        Err(ChessError::OutOfBounds)
    );
    assert_eq!(
        game.make_move((3, 3), (4, 3), None),
        Err(ChessError::EmptySquare)
    );
    assert_eq!(
        game.make_move((6, 0), (5, 0), None),
        Err(ChessError::NotYourTurn)
    );
    assert_eq!(
        game.make_move((1, 4), (4, 4), None),
        Err(ChessError::IllegalMove)
    );
    // A rejected move leaves the state untouched.
    let fresh = GameState::new();
    assert_eq!(game.board, fresh.board);
    assert_eq!(game.turn, fresh.turn);
    assert_eq!(game.castling_rights, fresh.castling_rights);
    assert_eq!(game.en_passant_target, fresh.en_passant_target);
}

#[test]
fn test_notation_records_geometry() {
    let mut game = GameState::new();
    assert_eq!(game.make_move((1, 4), (3, 4), None).unwrap(), "e2-e4");
    assert_eq!(game.make_move((6, 6), (4, 6), None).unwrap(), "g7-g5");
    assert_eq!(game.make_move((0, 6), (2, 5), None).unwrap(), "g1-f3");
}

#[test]
fn test_is_square_attacked_counts_pseudo_moves() {
    let game = GameState::new();
    // e3 lies one push ahead of the e2 pawn.
    assert!(game.is_square_attacked(sq(2, 4), Color::White));
    // f3 is covered by the g1 knight and the e2/g2 pawns.
    assert!(game.is_square_attacked(sq(2, 5), Color::White));
    // a6 is reached by no white piece from the start.
    assert!(!game.is_square_attacked(sq(5, 0), Color::White));
    // a7 holds a black pawn; the a8 rook cannot land on it.
    assert!(!game.is_square_attacked(sq(6, 0), Color::Black));
}

#[test]
fn test_is_on_board() {
    assert!(GameState::is_on_board(0, 0));
    assert!(GameState::is_on_board(7, 7));
    assert!(!GameState::is_on_board(8, 0));
    assert!(!GameState::is_on_board(0, 8));
}

#[test]
fn test_off_board_query_yields_no_destinations() {
    let game = GameState::new();
    assert!(game.get_legal_dest(8, 0).is_empty());
    assert!(game.get_legal_dest(0, 9).is_empty());
}

#[test]
fn test_opposite_is_an_involution() {
    assert_eq!(Color::White.opposite(), Color::Black);
    assert_eq!(Color::Black.opposite(), Color::White);
    assert_eq!(Color::White.opposite().opposite(), Color::White);
    assert_eq!(Color::Black.opposite().opposite(), Color::Black);
}

#[test]
fn test_piece_symbols() {
    let wp = Piece {
        piece_type: PieceType::Pawn,
        color: Color::White,
    };
    let bq = Piece {
        piece_type: PieceType::Queen,
        color: Color::Black,
    };
    assert_eq!(wp.symbol(), "♙");
    assert_eq!(bq.symbol(), "♛");
}

#[test]
fn test_piece_path() {
    let wp = Piece {
        piece_type: PieceType::Pawn,
        color: Color::White,
    };
    let bn = Piece {
        piece_type: PieceType::Knight,
        color: Color::Black,
    };
    assert_eq!(chess_engine::piece_path(wp), "assets/2/wp.png");
    assert_eq!(chess_engine::piece_path(bn), "assets/2/bn.png");
}

#[test]
fn test_knight_moves_from_start() {
    let game = GameState::new();
    let mut dests = game.get_legal_dest(0, 1); // b1
    dests.sort();
    assert_eq!(dests, vec![(2, 0), (2, 2)]);
}

#[test]
fn test_castling_blocked_by_attack_on_transit_square() {
    // A black rook covers f1: the white king may not castle across it.
    let mut board = empty_board();
    board[sq(0, 4)] = piece(PieceType::King, Color::White);
    board[sq(0, 7)] = piece(PieceType::Rook, Color::White);
    board[sq(7, 5)] = piece(PieceType::Rook, Color::Black);
    board[sq(7, 0)] = piece(PieceType::King, Color::Black);
    let mut game = bare_state(board, Color::White);
    game.castling_rights = 0b1000;
    assert_eq!(
        game.make_move((0, 4), (0, 6), None),
        Err(ChessError::IllegalMove)
    );
    // With the rook's file shifted off the transit squares, castling works.
    let mut free = game;
    free.board[sq(7, 5)] = None;
    free.board[sq(7, 1)] = piece(PieceType::Rook, Color::Black);
    free.make_move((0, 4), (0, 6), None).unwrap();
    assert_eq!(free.board[sq(0, 6)], piece(PieceType::King, Color::White));
    assert_eq!(free.board[sq(0, 5)], piece(PieceType::Rook, Color::White));
}

#[test]
fn test_queenside_castle_ignores_attack_on_rook_transit_square() {
    // Only b1 — a square the rook crosses, not the king — is attacked;
    // queen-side castling stays available.
    let mut board = empty_board();
    board[sq(0, 4)] = piece(PieceType::King, Color::White);
    board[sq(0, 0)] = piece(PieceType::Rook, Color::White);
    board[sq(7, 1)] = piece(PieceType::Rook, Color::Black);
    board[sq(7, 7)] = piece(PieceType::King, Color::Black);
    let mut game = bare_state(board, Color::White);
    game.castling_rights = 0b0100;
    assert!(game.is_square_attacked(sq(0, 1), Color::Black));
    let notation = game.make_move((0, 4), (0, 2), None).unwrap();
    assert_eq!(notation, "e1-c1");
    assert_eq!(game.board[sq(0, 2)], piece(PieceType::King, Color::White));
    assert_eq!(game.board[sq(0, 3)], piece(PieceType::Rook, Color::White));
    assert!(game.board[sq(0, 0)].is_none());
    // With the king's own transit square d1 attacked instead, it is refused.
    let mut board = empty_board();
    board[sq(0, 4)] = piece(PieceType::King, Color::White);
    board[sq(0, 0)] = piece(PieceType::Rook, Color::White);
    board[sq(7, 3)] = piece(PieceType::Rook, Color::Black);
    board[sq(7, 7)] = piece(PieceType::King, Color::Black);
    let mut game = bare_state(board, Color::White);
    game.castling_rights = 0b0100;
    assert_eq!(
        game.make_move((0, 4), (0, 2), None),
        Err(ChessError::IllegalMove)
    );
}

#[test]
fn test_query_for_side_not_to_move_protects_its_own_king() {
    // It is White's turn, but the legality of Black's rook moves is still
    // judged against Black's king: the rook on e7 is pinned.
    let mut board = empty_board();
    board[sq(7, 4)] = piece(PieceType::King, Color::Black);
    board[sq(6, 4)] = piece(PieceType::Rook, Color::Black);
    board[sq(0, 4)] = piece(PieceType::Rook, Color::White);
    board[sq(0, 0)] = piece(PieceType::King, Color::White);
    let game = bare_state(board, Color::White);
    let dests = game.get_legal_dest(6, 4);
    assert!(!dests.is_empty());
    for (_, file) in &dests {
        assert_eq!(*file, 4, "the pinned rook may only move along the e-file");
    }
}

#[test]
fn test_sliding_piece_blocked_and_capturing() {
    let mut board = empty_board();
    board[sq(0, 0)] = piece(PieceType::Rook, Color::White);
    board[sq(0, 3)] = piece(PieceType::Bishop, Color::White);
    board[sq(4, 0)] = piece(PieceType::Pawn, Color::Black);
    board[sq(0, 4)] = piece(PieceType::King, Color::White);
    board[sq(7, 7)] = piece(PieceType::King, Color::Black);
    let game = bare_state(board, Color::White);
    let mut dests = game.get_legal_dest(0, 0); // a1 rook
    dests.sort();
    // Up the a-file until the black pawn (captured), right until the bishop.
    assert_eq!(dests, vec![(0, 1), (0, 2), (1, 0), (2, 0), (3, 0), (4, 0)]);
}
