//! Rules engine for Othello (Reversi) on 64-bit bitboards.
//!
//! Bit `i` of a board mask stands for the square on file `i % 8` (a..h) and
//! rank `i / 8` (1..8): bit 0 is a1, bit 7 is h1, bit 56 is a8, bit 63 is h8.
//! A position is a pair of disjoint masks, one per colour.
pub mod board;
pub mod notation;
pub mod position;

pub use board::Direction;
pub use notation::{move_to_algebraic, move_to_bitmap};
pub use position::{
    apply_move, apply_move_unchecked, check_game_status, compute_moves, flip_in_dir, BLACK_WINS,
    MUST_PASS, TIE, WHITE_WINS,
};
