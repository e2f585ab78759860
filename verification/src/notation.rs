//! The mathematical model of the notation: what the text of a rank, of a
//! board and of a whole position is, as sequences of characters.

use vstd::prelude::*;
use crate::symbols::EMPTY_SQUARE;
use crate::text::decimal_digit;

verus! {

/// How many empty squares stand at the front of `rank`.
pub open spec fn leading_empties(rank: Seq<char>) -> nat
    decreases rank.len(),
{
    if rank.len() > 0 && rank[0] == EMPTY_SQUARE {
        1 + leading_empties(rank.skip(1))
    } else {
        0
    }
}

/// The run of empty squares at the front of a rank lies inside the rank,
/// holds empty squares only, and stops at a piece or at the end of the rank.
pub proof fn lemma_leading_empties_shape(rank: Seq<char>)
    ensures
        leading_empties(rank) <= rank.len(),
        forall|k: int| 0 <= k < leading_empties(rank) ==> rank[k] == EMPTY_SQUARE,
        leading_empties(rank) == rank.len() || rank[leading_empties(rank) as int] != EMPTY_SQUARE,
    decreases rank.len(),
{
    if rank.len() > 0 && rank[0] == EMPTY_SQUARE {
        let rest = rank.skip(1);
        lemma_leading_empties_shape(rest);
        assert forall|k: int| 0 <= k < leading_empties(rank) implies rank[k] == EMPTY_SQUARE by {
            if k > 0 {
                assert(rank[k] == rest[k - 1]);
            }
        }
        if leading_empties(rank) != rank.len() {
            assert(rank[leading_empties(rank) as int] == rest[leading_empties(rest) as int]);
        }
    }
}

/// The text of one rank. A piece letter stands for itself; a run of empty
/// squares, taken as long as it goes, is written as the digit of its length.
pub open spec fn rank_encoding(rank: Seq<char>) -> Seq<char>
    decreases rank.len(),
{
    if rank.len() == 0 {
        Seq::empty()
    } else if rank[0] == EMPTY_SQUARE {
        let run = leading_empties(rank);
        proof {
            lemma_leading_empties_shape(rank);
        }
        seq![decimal_digit(run as int)] + rank_encoding(rank.skip(run as int))
    } else {
        seq![rank[0]] + rank_encoding(rank.skip(1))
    }
}

/// Whether ten empty squares in a row start at `from`.
pub open spec fn ten_empties_at(rank: Seq<char>, from: int) -> bool {
    &&& 0 <= from
    &&& from + 10 <= rank.len()
    &&& forall|k: int| from <= k < from + 10 ==> rank[k] == EMPTY_SQUARE
}

/// Whether every run of empty squares in `rank` can be written as one digit,
/// that is, whether no ten empty squares stand in a row. A rank of a chess
/// board has eight squares and always can.
pub open spec fn single_digit_runs(rank: Seq<char>) -> bool {
    forall|from: int| !#[trigger] ten_empties_at(rank, from)
}

/// How many ranks a board of `squares` squares has: one for every eight
/// squares, and one more for what is left over.
pub open spec fn rank_count(squares: nat) -> nat {
    (squares + 7) / 8
}

/// Rank `i` of a board, counted from the top: the squares from `8 * i` up to
/// `8 * i + 8`, or up to the end of the board where that comes first.
pub open spec fn rank_at(squares: Seq<char>, i: int) -> Seq<char> {
    let end = if 8 * i + 8 <= squares.len() {
        8 * i + 8
    } else {
        squares.len() as int
    };
    squares.subrange(8 * i, end)
}

/// The ranks of a board, top rank first.
pub open spec fn ranks_of(squares: Seq<char>) -> Seq<Seq<char>> {
    Seq::new(rank_count(squares.len()), |i: int| rank_at(squares, i))
}

/// The parts written one after the other with a `/` between neighbours.
pub open spec fn joined(parts: Seq<Seq<char>>) -> Seq<char>
    decreases parts.len(),
{
    if parts.len() == 0 {
        Seq::empty()
    } else if parts.len() == 1 {
        parts[0]
    } else {
        joined(parts.drop_last()) + seq!['/'] + parts.last()
    }
}

/// The piece-placement field for a board of FEN letters and empty squares:
/// the text of each rank, top rank first, joined by `/`.
pub open spec fn board_encoding(squares: Seq<char>) -> Seq<char> {
    joined(ranks_of(squares).map_values(|rank: Seq<char>| rank_encoding(rank)))
}

/// The side-to-move field: `w` for White, `b` for Black.
pub open spec fn side_field(white_to_start: bool) -> Seq<char> {
    if white_to_start {
        seq!['w']
    } else {
        seq!['b']
    }
}

/// The letter of one castling right where it is granted, and nothing where
/// it is not.
pub open spec fn right_letter(granted: bool, letter: char) -> Seq<char> {
    if granted {
        seq![letter]
    } else {
        Seq::empty()
    }
}

/// The castling-rights field: `K`, `Q`, `k`, `q` in this order, each present
/// exactly when its right is granted.
pub open spec fn castling_field(
    white_king_side: bool,
    white_queen_side: bool,
    black_king_side: bool,
    black_queen_side: bool,
) -> Seq<char> {
    right_letter(white_king_side, 'K') + right_letter(white_queen_side, 'Q') + right_letter(
        black_king_side,
        'k',
    ) + right_letter(black_queen_side, 'q')
}

/// The three fields that close every position written here: no en-passant
/// target, a halfmove clock of `0`, and move number `1`.
pub open spec fn closing_fields() -> Seq<char> {
    seq!['-', ' ', '0', ' ', '1']
}

/// The whole FEN text: the fields separated by single spaces.
pub open spec fn fen_text(squares: Seq<char>, side: Seq<char>, castling: Seq<char>) -> Seq<char> {
    squares + seq![' '] + side + seq![' '] + castling + seq![' '] + closing_fields()
}

// The way back, from text to squares.

/// Whether `c` is a decimal digit.
pub open spec fn is_digit(c: char) -> bool {
    '0' <= c <= '9'
}

/// The number that a decimal digit writes.
pub open spec fn digit_value(c: char) -> nat
    recommends
        is_digit(c),
{
    (c as int - '0' as int) as nat
}

/// A row of `n` empty squares.
pub open spec fn empties(n: nat) -> Seq<char> {
    Seq::new(n, |i: int| EMPTY_SQUARE)
}

/// The squares that one character of a rank's text stands for: a digit for
/// that many empty squares, anything else for itself.
pub open spec fn symbol_expansion(c: char) -> Seq<char> {
    if is_digit(c) {
        empties(digit_value(c))
    } else {
        seq![c]
    }
}

/// The squares that the text of a rank stands for.
pub open spec fn expansion(text: Seq<char>) -> Seq<char>
    decreases text.len(),
{
    if text.len() == 0 {
        Seq::empty()
    } else {
        symbol_expansion(text[0]) + expansion(text.skip(1))
    }
}

/// How many squares one character of a rank's text stands for: a digit for
/// as many as it says, anything else for one.
pub open spec fn symbol_span(c: char) -> nat {
    if is_digit(c) {
        digit_value(c)
    } else {
        1
    }
}

/// How many squares the text of a rank stands for: the sum of its digits
/// and the number of its other characters.
pub open spec fn squares_spanned(text: Seq<char>) -> nat
    decreases text.len(),
{
    if text.len() == 0 {
        0
    } else {
        symbol_span(text[0]) + squares_spanned(text.skip(1))
    }
}

/// The parts into which the `/` characters cut a text. A text with `n` of
/// them has `n + 1` parts, some of which may be empty.
pub open spec fn split_at_slashes(text: Seq<char>) -> Seq<Seq<char>>
    decreases text.len(),
{
    if text.len() == 0 {
        seq![Seq::empty()]
    } else {
        let before = split_at_slashes(text.drop_last());
        if text.last() == '/' {
            before.push(Seq::empty())
        } else {
            before.drop_last().push(before.last().push(text.last()))
        }
    }
}

} // verus!
