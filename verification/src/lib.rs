//! A rules engine for standard chess.
//!
//! The engine holds the authoritative game state and answers two questions:
//! which squares a piece may legally move to, and what happens when a move is
//! applied.  It tracks check, checkmate, stalemate and clock timeout.  Board
//! rendering, input handling and the real-time clock tick belong to the
//! caller; the engine only reads and compares the stored timer values.

pub mod assets;
pub mod laws;
pub mod logic;
pub mod moves;
pub mod pieces;
pub mod rules;
pub mod state;

pub use assets::piece_path;
pub use logic::{ChessError, GameStatus, Logic, Sound};
pub use pieces::{Color, Piece, PieceType};
pub use state::GameState;
