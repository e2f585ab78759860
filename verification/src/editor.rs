//! What the board editor hands over.

use vstd::prelude::*;
use crate::fen::FenView;
use crate::notation::board_encoding;
use crate::symbols::{all_chess_chars, fen_letters};

verus! {

/// The state of the board editor: who moves first, which castling rights
/// are granted, and one symbol per square.
///
/// The squares run rank by rank from rank 8 down to rank 1, and within a
/// rank from file a to file h. A chess board has 64 of them; a board of
/// another size is cut into ranks of eight all the same, with a shorter last
/// rank where the size is no multiple of eight.
#[derive(Debug, PartialEq, Eq)]
pub struct Editor {
    pub white_to_start: bool,
    pub white_king_side_castle: bool,
    pub white_queen_side_castle: bool,
    pub black_king_side_castle: bool,
    pub black_queen_side_castle: bool,
    pub squares: Vec<char>,
}

/// The editor state as the contracts see it: the flags as they are, the
/// squares as a sequence of characters.
pub struct EditorView {
    pub white_to_start: bool,
    pub white_king_side_castle: bool,
    pub white_queen_side_castle: bool,
    pub black_king_side_castle: bool,
    pub black_queen_side_castle: bool,
    pub squares: Seq<char>,
}

impl View for Editor {
    type V = EditorView;

    open spec fn view(&self) -> EditorView {
        EditorView {
            white_to_start: self.white_to_start,
            white_king_side_castle: self.white_king_side_castle,
            white_queen_side_castle: self.white_queen_side_castle,
            black_king_side_castle: self.black_king_side_castle,
            black_queen_side_castle: self.black_queen_side_castle,
            squares: self.squares@,
        }
    }
}

impl EditorView {
    /// Whether the board can be written in FEN: every square holds a
    /// recognised symbol.
    pub open spec fn is_writable(self) -> bool {
        all_chess_chars(self.squares)
    }

    /// The position that a writable state stands for: its board written as
    /// the piece-placement field, its flags unchanged.
    pub open spec fn position(self) -> FenView
        recommends
            self.is_writable(),
    {
        FenView {
            squares: board_encoding(fen_letters(self.squares)),
            white_to_start: self.white_to_start,
            white_king_side_castle: self.white_king_side_castle,
            white_queen_side_castle: self.white_queen_side_castle,
            black_king_side_castle: self.black_king_side_castle,
            black_queen_side_castle: self.black_queen_side_castle,
        }
    }
}

} // verus!
