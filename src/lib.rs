//! Puluc, a two-player race-and-capture game on an eleven-tile track:
//! stick rolls, the board, legal move generation and move application.

pub mod board;
pub mod render;
pub mod roll;
pub mod rules;
pub mod text;

pub use board::{GameBoard, GameColor, GamePiece};
pub use roll::PulucRoll;
pub use rules::{
    generate_legal_moves, ApplyEffects, IllegalMoveError, PulucMove, RuleError,
};
