//! Conversion of a chess-board editor state into Forsyth-Edwards Notation.
//!
//! The editor hands over one symbol per square, rank 8 first, together with
//! the side to move and the four castling flags. The library maps every
//! symbol to its FEN letter, compresses the empty squares of each rank into
//! digits, and assembles the FEN text. Every function carries a contract
//! over the mathematical model in [`notation`], and [`laws`] proves what
//! follows from those contracts.

pub mod editor;
pub mod error;
pub mod fen;
pub mod laws;
pub mod notation;
pub mod symbols;
pub mod text;

pub use editor::Editor;
pub use error::FenError;
pub use fen::{get_fen, Fen};
