//! The position in FEN, and the functions that build and write it.

use vstd::prelude::*;
use vstd::slice::slice_subrange;
use vstd::string::StringExecFns;
use crate::editor::Editor;
use crate::error::FenError;
use crate::notation::{
    board_encoding, castling_field, fen_text, joined, leading_empties, rank_at, rank_encoding,
    ranks_of, side_field, single_digit_runs, ten_empties_at,
};
use crate::symbols::{
    all_chess_chars, fen_letters, is_chess_char, is_first_unrecognized, rejected_with,
    symbol_mapping, BLACK_BISHOP, BLACK_KING, BLACK_KNIGHT, BLACK_PAWN, BLACK_QUEEN, BLACK_ROOK,
    EMPTY_SQUARE, WHITE_BISHOP, WHITE_KING, WHITE_KNIGHT, WHITE_PAWN, WHITE_QUEEN, WHITE_ROOK,
};
use crate::text::decimal_digit;

verus! {

/// A position as FEN holds it: the piece-placement field, already written
/// out, and the flags from which the other fields are written.
#[derive(Debug, PartialEq, Eq)]
pub struct Fen {
    pub squares: String,
    pub white_to_start: bool,
    pub white_king_side_castle: bool,
    pub white_queen_side_castle: bool,
    pub black_king_side_castle: bool,
    pub black_queen_side_castle: bool,
}

/// The position as the contracts see it: the flags as they are, the
/// piece-placement field as a sequence of characters.
pub struct FenView {
    pub squares: Seq<char>,
    pub white_to_start: bool,
    pub white_king_side_castle: bool,
    pub white_queen_side_castle: bool,
    pub black_king_side_castle: bool,
    pub black_queen_side_castle: bool,
}

impl View for Fen {
    type V = FenView;

    open spec fn view(&self) -> FenView {
        FenView {
            squares: self.squares@,
            white_to_start: self.white_to_start,
            white_king_side_castle: self.white_king_side_castle,
            white_queen_side_castle: self.white_queen_side_castle,
            black_king_side_castle: self.black_king_side_castle,
            black_queen_side_castle: self.black_queen_side_castle,
        }
    }
}

impl FenView {
    /// The side-to-move field of the position.
    pub open spec fn side(self) -> Seq<char> {
        side_field(self.white_to_start)
    }

    /// The castling-rights field of the position.
    pub open spec fn castling(self) -> Seq<char> {
        castling_field(
            self.white_king_side_castle,
            self.white_queen_side_castle,
            self.black_king_side_castle,
            self.black_queen_side_castle,
        )
    }

    /// The position written as FEN.
    pub open spec fn text(self) -> Seq<char> {
        fen_text(self.squares, self.side(), self.castling())
    }
}

/// A rank that starts with exactly `run` empty squares has `run` leading
/// empties.
proof fn lemma_leading_empties_is(rank: Seq<char>, run: nat)
    requires
        run <= rank.len(),
        forall|k: int| 0 <= k < run ==> rank[k] == EMPTY_SQUARE,
        run == rank.len() || rank[run as int] != EMPTY_SQUARE,
    ensures
        leading_empties(rank) == run,
    decreases run,
{
    if run > 0 {
        lemma_leading_empties_is(rank.skip(1), (run - 1) as nat);
    }
}

/// Where `run` empty squares stand in `rank` from `start` on, and the run
/// ends there, the text from `start` on is the digit of `run` and then the
/// text of what follows the run.
proof fn lemma_run_then_rest(rank: Seq<char>, start: int, run: nat)
    requires
        0 <= start,
        run >= 1,
        start + run <= rank.len(),
        forall|k: int| start <= k < start + run ==> rank[k] == EMPTY_SQUARE,
        start + run == rank.len() || rank[start + run] != EMPTY_SQUARE,
    ensures
        rank_encoding(rank.skip(start)) == seq![decimal_digit(run as int)] + rank_encoding(
            rank.skip(start + run),
        ),
{
    let rest = rank.skip(start);
    lemma_leading_empties_is(rest, run);
    assert(rest.skip(run as int) == rank.skip(start + run));
}

impl Fen {
    /// Looks one editor character up in the table of recognised symbols.
    ///
    /// Answers the FEN letter of a piece symbol and the empty-square marker
    /// for itself. Any other character is handed back inside the error.
    pub fn chess_char_to_fen_char(chess_char: &char) -> (res: Result<char, FenError>)
        ensures
            res == symbol_mapping(*chess_char),
    {
        let c = *chess_char;
        if c == WHITE_PAWN {
            Ok('P')
        } else if c == WHITE_ROOK {
            Ok('R')
        } else if c == WHITE_KNIGHT {
            Ok('N')
        } else if c == WHITE_BISHOP {
            Ok('B')
        } else if c == WHITE_QUEEN {
            Ok('Q')
        } else if c == WHITE_KING {
            Ok('K')
        } else if c == BLACK_PAWN {
            Ok('p')
        } else if c == BLACK_ROOK {
            Ok('r')
        } else if c == BLACK_KNIGHT {
            Ok('n')
        } else if c == BLACK_BISHOP {
            Ok('b')
        } else if c == BLACK_QUEEN {
            Ok('q')
        } else if c == BLACK_KING {
            Ok('k')
        } else if c == EMPTY_SQUARE {
            Ok(EMPTY_SQUARE)
        } else {
            Err(FenError::UnexpectedChessChar(c))
        }
    }

    /// Writes one rank: every piece letter as it stands, every run of empty
    /// squares as the digit of its length.
    ///
    /// A run of ten or more empty squares has no digit, so such a rank is
    /// not accepted. No rank of up to nine squares has one.
    pub fn abbreviated_fen_rank(rank: &[char]) -> (text: String)
        requires
            single_digit_runs(rank@),
        ensures
            text@ == rank_encoding(rank@),
    {
        let mut abb_fen_rank = String::new();
        let mut empty_square_count: u32 = 0;
        let mut i: usize = 0;
        assert(rank@.skip(0) == rank@);
        while i < rank.len()
            invariant
                i <= rank.len(),
                empty_square_count <= 9,
                empty_square_count <= i,
                single_digit_runs(rank@),
                forall|k: int| i - empty_square_count <= k < i ==> rank@[k] == EMPTY_SQUARE,
                abb_fen_rank@ + rank_encoding(rank@.skip(i - empty_square_count)) == rank_encoding(
                    rank@,
                ),
            decreases rank.len() - i,
        {
            let fen_char = rank[i];
            if fen_char == EMPTY_SQUARE {
                proof {
                    if empty_square_count == 9 {
                        assert(ten_empties_at(rank@, i - 9));
                    }
                }
                empty_square_count += 1;
            } else {
                let ghost written = abb_fen_rank@;
                let ghost from_here = rank@.skip(i as int);
                let ghost after = rank_encoding(rank@.skip(i + 1));
                proof {
                    assert(from_here.skip(1) == rank@.skip(i + 1));
                    assert(rank_encoding(from_here) == seq![fen_char] + after);
                }
                if empty_square_count > 0 {
                    proof {
                        lemma_run_then_rest(
                            rank@,
                            i - empty_square_count,
                            empty_square_count as nat,
                        );
                    }
                    let digit = char::from_digit(empty_square_count, 10).unwrap();
                    abb_fen_rank.push(digit);
                    empty_square_count = 0;
                    assert(abb_fen_rank@ + rank_encoding(from_here) == written + (seq![digit]
                        + rank_encoding(from_here)));
                }
                abb_fen_rank.push(fen_char);
                assert(abb_fen_rank@ + after == (abb_fen_rank@.drop_last() + (seq![fen_char]
                    + after)));
            }
            i += 1;
        }

        if empty_square_count > 0 {
            let ghost written = abb_fen_rank@;
            proof {
                lemma_run_then_rest(rank@, i - empty_square_count, empty_square_count as nat);
                assert(rank@.skip(i as int) == Seq::<char>::empty());
            }
            let digit = char::from_digit(empty_square_count, 10).unwrap();
            abb_fen_rank.push(digit);
            assert(abb_fen_rank@ == written + (seq![digit] + Seq::<char>::empty()));
        } else {
            assert(rank@.skip(i as int) == Seq::<char>::empty());
            assert(abb_fen_rank@ + Seq::<char>::empty() == abb_fen_rank@);
        }

        abb_fen_rank
    }

    /// Writes the piece-placement field of the editor's board.
    ///
    /// Every square is looked up in the table of symbols, in the order of
    /// the board. The letters are cut into ranks of eight, each rank is
    /// written with its empty squares counted, and the ranks are joined by
    /// `/`. Where a square holds an unrecognised symbol nothing is written,
    /// and the error names the first such symbol.
    pub fn editor_chars_to_fen_squares(editor: &Editor) -> (res: Result<String, FenError>)
        ensures
            res is Ok <==> editor@.is_writable(),
            res matches Ok(text) ==> text@ == board_encoding(fen_letters(editor@.squares)),
            res matches Err(e) ==> rejected_with(editor@.squares, e),
    {
        let mut fen_chars: Vec<char> = Vec::new();
        let mut i: usize = 0;
        while i < editor.squares.len()
            invariant
                i <= editor.squares.len(),
                all_chess_chars(editor.squares@.take(i as int)),
                fen_chars@ == fen_letters(editor.squares@.take(i as int)),
            decreases editor.squares.len() - i,
        {
            match Self::chess_char_to_fen_char(&editor.squares[i]) {
                Ok(fen_char) => {
                    fen_chars.push(fen_char);
                },
                Err(e) => {
                    assert(is_first_unrecognized(editor.squares@, i as int));
                    return Err(e);
                },
            }
            proof {
                let seen = editor.squares@.take(i + 1);
                assert(seen.drop_last() == editor.squares@.take(i as int));
                assert forall|k: int| 0 <= k < seen.len() implies is_chess_char(
                    #[trigger] seen[k],
                ) by {
                    if k < i {
                        assert(seen[k] == editor.squares@.take(i as int)[k]);
                    }
                }
            }
            i += 1;
        }
        assert(editor.squares@.take(i as int) == editor.squares@);

        let total: usize = fen_chars.len();
        let ghost ranks = ranks_of(fen_chars@).map_values(|rank: Seq<char>| rank_encoding(rank));
        let ghost mut done: int = 0;
        let mut squares = String::new();
        let mut start: usize = 0;
        while start < total
            invariant
                total == fen_chars.len(),
                ranks == ranks_of(fen_chars@).map_values(|rank: Seq<char>| rank_encoding(rank)),
                0 <= done <= ranks.len(),
                start == if 8 * done <= total { 8 * done } else { total as int },
                done == 0 || 8 * (done - 1) < total,
                squares@ == joined(ranks.take(done)),
            decreases total - start,
        {
            let end: usize = if total - start > 8 { start + 8 } else { total };
            let rank = slice_subrange(fen_chars.as_slice(), start, end);
            assert(rank@ == rank_at(fen_chars@, done));
            let rank_text = Self::abbreviated_fen_rank(rank);
            if start > 0 {
                squares.push('/');
            }
            squares.append(rank_text.as_str());
            proof {
                let next = ranks.take(done + 1);
                assert(next.drop_last() == ranks.take(done));
                assert(next.last() == rank_text@);
                if done == 0 {
                    assert(squares@ == rank_text@);
                }
                done = done + 1;
            }
            start = end;
        }
        assert(ranks.take(done) == ranks);

        Ok(squares)
    }

    /// The side-to-move field: `w` where White moves first, else `b`.
    pub fn starting_color(&self) -> (field: String)
        ensures
            field@ == self@.side(),
    {
        let mut field = String::new();
        if self.white_to_start {
            field.push('w');
        } else {
            field.push('b');
        }
        field
    }

    /// The castling-rights field: of the letters `K`, `Q`, `k`, `q`, in this
    /// order, those whose right is granted. With no right granted the field
    /// is empty.
    pub fn castling_rights(&self) -> (rights: String)
        ensures
            rights@ == self@.castling(),
    {
        let mut rights = String::new();
        if self.white_king_side_castle {
            rights.push('K');
        }
        if self.white_queen_side_castle {
            rights.push('Q');
        }
        if self.black_king_side_castle {
            rights.push('k');
        }
        if self.black_queen_side_castle {
            rights.push('q');
        }
        rights
    }

    /// Builds the position from the editor's state: the piece-placement
    /// field is written out, the flags are taken over as they are. Fails
    /// where the board holds an unrecognised symbol, with the error that
    /// names the first one.
    pub fn from(editor: Editor) -> (res: Result<Fen, FenError>)
        ensures
            res is Ok <==> editor@.is_writable(),
            res matches Ok(fen) ==> fen@ == editor@.position(),
            res matches Err(e) ==> rejected_with(editor@.squares, e),
    {
        match Self::editor_chars_to_fen_squares(&editor) {
            Ok(squares) => Ok(
                Fen {
                    squares,
                    white_to_start: editor.white_to_start,
                    white_king_side_castle: editor.white_king_side_castle,
                    white_queen_side_castle: editor.white_queen_side_castle,
                    black_king_side_castle: editor.black_king_side_castle,
                    black_queen_side_castle: editor.black_queen_side_castle,
                },
            ),
            Err(e) => Err(e),
        }
    }

    /// Writes the position as FEN: piece placement, side to move and
    /// castling rights, then `-` for the en-passant target, `0` for the
    /// halfmove clock and `1` for the move number, with one space between
    /// neighbouring fields.
    pub fn render(&self) -> (text: String)
        ensures
            text@ == self@.text(),
    {
        let mut text = String::new();
        text.append(self.squares.as_str());
        text.push(' ');
        text.append(self.starting_color().as_str());
        text.push(' ');
        text.append(self.castling_rights().as_str());
        text.push(' ');
        text.push('-');
        text.push(' ');
        text.push('0');
        text.push(' ');
        text.push('1');
        text
    }
}

/// Converts the editor's state into FEN text.
///
/// Succeeds exactly when every square holds a recognised symbol. Otherwise
/// no text is produced, and the error names the first unrecognised symbol.
pub fn get_fen(editor: Editor) -> (res: Result<String, FenError>)
    ensures
        res is Ok <==> editor@.is_writable(),
        res matches Ok(text) ==> text@ == editor@.position().text(),
        res matches Err(e) ==> rejected_with(editor@.squares, e),
{
    match Fen::from(editor) {
        Ok(fen) => Ok(fen.render()),
        Err(e) => Err(e),
    }
}

} // verus!
