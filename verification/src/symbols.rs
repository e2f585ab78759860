//! The symbols that the board editor draws, and the FEN letter of each.

use vstd::prelude::*;
use crate::error::FenError;

verus! {

/// White king, U+2654.
pub const WHITE_KING: char = '\u{2654}';

/// White queen, U+2655.
pub const WHITE_QUEEN: char = '\u{2655}';

/// White rook, U+2656.
pub const WHITE_ROOK: char = '\u{2656}';

/// White bishop, U+2657.
pub const WHITE_BISHOP: char = '\u{2657}';

/// White knight, U+2658.
pub const WHITE_KNIGHT: char = '\u{2658}';

/// White pawn, U+2659.
pub const WHITE_PAWN: char = '\u{2659}';

/// Black king, U+265A.
pub const BLACK_KING: char = '\u{265A}';

/// Black queen, U+265B.
pub const BLACK_QUEEN: char = '\u{265B}';

/// Black rook, U+265C.
pub const BLACK_ROOK: char = '\u{265C}';

/// Black bishop, U+265D.
pub const BLACK_BISHOP: char = '\u{265D}';

/// Black knight, U+265E.
pub const BLACK_KNIGHT: char = '\u{265E}';

/// Black pawn, U+265F.
pub const BLACK_PAWN: char = '\u{265F}';

/// The marker of a square on which nothing stands.
pub const EMPTY_SQUARE: char = ' ';

/// The table of recognised symbols: each of the twelve piece symbols with
/// its FEN letter, upper case for White and lower case for Black, and the
/// empty-square marker, which stands for itself.
pub open spec fn piece_symbol_table() -> Map<char, char> {
    map![
        WHITE_PAWN => 'P',
        WHITE_ROOK => 'R',
        WHITE_KNIGHT => 'N',
        WHITE_BISHOP => 'B',
        WHITE_QUEEN => 'Q',
        WHITE_KING => 'K',
        BLACK_PAWN => 'p',
        BLACK_ROOK => 'r',
        BLACK_KNIGHT => 'n',
        BLACK_BISHOP => 'b',
        BLACK_QUEEN => 'q',
        BLACK_KING => 'k',
        EMPTY_SQUARE => EMPTY_SQUARE,
    ]
}

/// Whether the editor may put `c` on a square.
pub open spec fn is_chess_char(c: char) -> bool {
    piece_symbol_table().dom().contains(c)
}

/// The FEN letter of a recognised symbol.
pub open spec fn fen_letter(c: char) -> char
    recommends
        is_chess_char(c),
{
    piece_symbol_table()[c]
}

/// Whether `c` is one of the twelve letters that FEN uses for pieces.
pub open spec fn is_piece_letter(c: char) -> bool {
    c == 'P' || c == 'R' || c == 'N' || c == 'B' || c == 'Q' || c == 'K' || c == 'p' || c == 'r'
        || c == 'n' || c == 'b' || c == 'q' || c == 'k'
}

/// What the symbol mapper answers for one character: the letter from the
/// table, or the error that names the character.
pub open spec fn symbol_mapping(c: char) -> Result<char, FenError> {
    if is_chess_char(c) {
        Ok(fen_letter(c))
    } else {
        Err(FenError::UnexpectedChessChar(c))
    }
}

/// Whether every square holds a recognised symbol.
pub open spec fn all_chess_chars(squares: Seq<char>) -> bool {
    forall|i: int| 0 <= i < squares.len() ==> is_chess_char(#[trigger] squares[i])
}

/// Whether square `i` is the first that holds an unrecognised symbol.
pub open spec fn is_first_unrecognized(squares: Seq<char>, i: int) -> bool {
    &&& 0 <= i < squares.len()
    &&& !is_chess_char(squares[i])
    &&& all_chess_chars(squares.take(i))
}

/// Whether a board is turned down with the error `e`: some square holds an
/// unrecognised symbol, and `e` names the first such symbol.
pub open spec fn rejected_with(squares: Seq<char>, e: FenError) -> bool {
    exists|i: int| #[trigger]
        is_first_unrecognized(squares, i) && e == FenError::UnexpectedChessChar(squares[i])
}

/// The board with every symbol replaced by its FEN letter, square by square.
pub open spec fn fen_letters(squares: Seq<char>) -> Seq<char> {
    squares.map_values(|c: char| fen_letter(c))
}

} // verus!
