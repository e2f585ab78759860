//! What holds of the notation, proved from its model.
//!
//! The functions in [`crate::fen`] promise results in terms of the model in
//! [`crate::notation`]. The proofs here show what a reader of FEN relies
//! on: the text of a rank can be read back into the rank, a board of 64
//! squares is written as eight ranks of eight, the castling letters keep
//! their order, and a board is turned down for its first bad square.

use vstd::prelude::*;
use crate::error::FenError;
use crate::notation::{
    board_encoding, castling_field, digit_value, empties, expansion, is_digit, joined,
    leading_empties, lemma_leading_empties_shape, rank_at, rank_encoding, ranks_of,
    single_digit_runs, split_at_slashes, squares_spanned, ten_empties_at,
};
use crate::symbols::{
    all_chess_chars, fen_letter, fen_letters, is_chess_char, is_first_unrecognized,
    is_piece_letter, rejected_with, EMPTY_SQUARE,
};
use crate::text::decimal_digit;

verus! {

/// What is left of a rank after its first `n` squares has no longer runs of
/// empty squares than the rank itself.
pub proof fn lemma_single_digit_runs_of_rest(rank: Seq<char>, n: int)
    requires
        single_digit_runs(rank),
        0 <= n <= rank.len(),
    ensures
        single_digit_runs(rank.skip(n)),
{
    let rest = rank.skip(n);
    assert forall|from: int| !#[trigger] ten_empties_at(rest, from) by {
        if ten_empties_at(rest, from) {
            assert forall|k: int| from + n <= k < from + n + 10 implies rank[k] == EMPTY_SQUARE by {
                assert(rank[k] == rest[k - n]);
            }
            assert(ten_empties_at(rank, from + n));
        }
    }
}

/// Round trip. Reading the text of a rank back, every digit as that many
/// empty squares and every other character as itself, gives the rank again.
///
/// The rank holds piece letters and empty squares, so no digit of its own,
/// and none of its runs of empty squares is longer than one digit can say.
pub proof fn lemma_rank_round_trip(rank: Seq<char>)
    requires
        single_digit_runs(rank),
        forall|i: int| 0 <= i < rank.len() ==> !is_digit(#[trigger] rank[i]),
    ensures
        expansion(rank_encoding(rank)) == rank,
    decreases rank.len(),
{
    if rank.len() == 0 {
    } else if rank[0] == EMPTY_SQUARE {
        let run = leading_empties(rank);
        lemma_leading_empties_shape(rank);
        if run >= 10 {
            assert(ten_empties_at(rank, 0));
        }
        let rest = rank.skip(run as int);
        lemma_single_digit_runs_of_rest(rank, run as int);
        assert forall|i: int| 0 <= i < rest.len() implies !is_digit(#[trigger] rest[i]) by {
            assert(rest[i] == rank[i + run]);
        }
        lemma_rank_round_trip(rest);
        let digit = decimal_digit(run as int);
        let text = seq![digit] + rank_encoding(rest);
        assert(rank_encoding(rank) == text);
        assert(text.skip(1) == rank_encoding(rest));
        assert(is_digit(digit) && digit_value(digit) == run);
        assert(expansion(text) == empties(run) + rest);
        assert(empties(run) + rest == rank);
    } else {
        let rest = rank.skip(1);
        lemma_single_digit_runs_of_rest(rank, 1);
        assert forall|i: int| 0 <= i < rest.len() implies !is_digit(#[trigger] rest[i]) by {
            assert(rest[i] == rank[i + 1]);
        }
        lemma_rank_round_trip(rest);
        let text = seq![rank[0]] + rank_encoding(rest);
        assert(rank_encoding(rank) == text);
        assert(text.skip(1) == rank_encoding(rest));
        assert(!is_digit(rank[0]));
        assert(expansion(text) == seq![rank[0]] + rest);
        assert(seq![rank[0]] + rest == rank);
    }
}

/// The text of a rank is as short as it can be: it holds no `0`, and no two
/// digits stand side by side, so every run of empty squares is counted
/// whole. Together with the round trip this settles the text of a rank.
pub proof fn lemma_rank_text_counts_runs_whole(rank: Seq<char>)
    requires
        single_digit_runs(rank),
        forall|i: int| 0 <= i < rank.len() ==> !is_digit(#[trigger] rank[i]),
    ensures
        forall|k: int| 0 <= k < rank_encoding(rank).len() ==> #[trigger] rank_encoding(rank)[k]
            != '0',
        forall|k: int|
            0 <= k && k + 1 < rank_encoding(rank).len() ==> !(is_digit(
                #[trigger] rank_encoding(rank)[k],
            ) && is_digit(rank_encoding(rank)[k + 1])),
        rank.len() > 0 ==> rank_encoding(rank).len() > 0,
        rank.len() > 0 && rank[0] != EMPTY_SQUARE ==> rank_encoding(rank)[0] == rank[0],
    decreases rank.len(),
{
    if rank.len() > 0 {
        let run = leading_empties(rank);
        lemma_leading_empties_shape(rank);
        if run >= 10 {
            assert(ten_empties_at(rank, 0));
        }
        let step: int = if rank[0] == EMPTY_SQUARE {
            run as int
        } else {
            1
        };
        let rest = rank.skip(step);
        lemma_single_digit_runs_of_rest(rank, step);
        assert forall|i: int| 0 <= i < rest.len() implies !is_digit(#[trigger] rest[i]) by {
            assert(rest[i] == rank[i + step]);
        }
        lemma_rank_text_counts_runs_whole(rest);
        let text = rank_encoding(rank);
        let tail = rank_encoding(rest);
        assert(text == seq![text[0]] + tail);
        assert(text[0] != '0');
        if rank[0] == EMPTY_SQUARE && rest.len() > 0 {
            assert(rest[0] == rank[step]);
            assert(text[1] == tail[0]);
        }
        assert forall|k: int| 0 <= k < text.len() implies #[trigger] text[k] != '0' by {
            if k > 0 {
                assert(text[k] == tail[k - 1]);
            }
        }
        assert forall|k: int| 0 <= k && k + 1 < text.len() implies !(is_digit(#[trigger] text[k])
            && is_digit(text[k + 1])) by {
            if k > 0 {
                assert(text[k] == tail[k - 1]);
                assert(text[k + 1] == tail[k]);
            }
        }
    }
}

/// The squares that a text expands to are as many as its digits and other
/// characters say.
pub proof fn lemma_expansion_spans(text: Seq<char>)
    ensures
        expansion(text).len() == squares_spanned(text),
    decreases text.len(),
{
    if text.len() > 0 {
        lemma_expansion_spans(text.skip(1));
    }
}

/// A rank on which every square is taken is written as it stands. Where it
/// holds no digit of its own, as a rank of piece letters does not, its text
/// holds no digit either.
pub proof fn lemma_full_rank_is_its_own_text(rank: Seq<char>)
    requires
        forall|i: int| 0 <= i < rank.len() ==> #[trigger] rank[i] != EMPTY_SQUARE,
    ensures
        rank_encoding(rank) == rank,
        (forall|i: int| 0 <= i < rank.len() ==> !is_digit(#[trigger] rank[i]))
            ==> (forall|k: int|
            0 <= k < rank_encoding(rank).len() ==> !is_digit(#[trigger] rank_encoding(rank)[k])),
    decreases rank.len(),
{
    if rank.len() > 0 {
        let rest = rank.skip(1);
        assert forall|i: int| 0 <= i < rest.len() implies #[trigger] rest[i] != EMPTY_SQUARE by {
            assert(rest[i] == rank[i + 1]);
        }
        lemma_full_rank_is_its_own_text(rest);
        assert(seq![rank[0]] + rest == rank);
    }
}

/// A rank of nothing but empty squares, up to nine of them, is written as
/// the one digit of its length: eight empty squares as `8`.
pub proof fn lemma_empty_rank_is_one_digit(n: nat)
    requires
        1 <= n <= 9,
    ensures
        rank_encoding(empties(n)) == seq![decimal_digit(n as int)],
        n == 8 ==> rank_encoding(empties(n)) == seq!['8'],
{
    let rank = empties(n);
    lemma_leading_empties_shape(rank);
    assert(leading_empties(rank) == n);
    assert(rank[0] == EMPTY_SQUARE);
    assert(rank.skip(n as int).len() == 0);
    assert(rank_encoding(rank) == seq![decimal_digit(n as int)] + rank_encoding(
        rank.skip(n as int),
    ));
}

/// Whether `c` may stand on a square of a board that has been looked up in
/// the table of symbols: a piece letter or the empty-square marker.
pub open spec fn is_square_letter(c: char) -> bool {
    is_piece_letter(c) || c == EMPTY_SQUARE
}

/// Whether a board holds piece letters and empty squares only.
pub open spec fn is_letter_board(letters: Seq<char>) -> bool {
    forall|i: int| 0 <= i < letters.len() ==> is_square_letter(#[trigger] letters[i])
}

/// Looking a board of recognised symbols up in the table gives a board of
/// the same size that holds piece letters and empty squares only.
pub proof fn lemma_fen_letters_are_letters(squares: Seq<char>)
    requires
        all_chess_chars(squares),
    ensures
        fen_letters(squares).len() == squares.len(),
        is_letter_board(fen_letters(squares)),
{
    let letters = fen_letters(squares);
    assert forall|i: int| 0 <= i < letters.len() implies is_square_letter(
        #[trigger] letters[i],
    ) by {
        assert(is_chess_char(squares[i]));
        assert(letters[i] == fen_letter(squares[i]));
    }
}

/// The text of a rank holds no `/` where the rank holds none.
pub proof fn lemma_rank_text_has_no_slash(rank: Seq<char>)
    requires
        single_digit_runs(rank),
        forall|i: int| 0 <= i < rank.len() ==> #[trigger] rank[i] != '/',
    ensures
        forall|k: int| 0 <= k < rank_encoding(rank).len() ==> #[trigger] rank_encoding(rank)[k]
            != '/',
    decreases rank.len(),
{
    if rank.len() == 0 {
    } else {
        let step: int = if rank[0] == EMPTY_SQUARE {
            leading_empties(rank) as int
        } else {
            1
        };
        lemma_leading_empties_shape(rank);
        if leading_empties(rank) >= 10 {
            assert(ten_empties_at(rank, 0));
        }
        let rest = rank.skip(step);
        lemma_single_digit_runs_of_rest(rank, step);
        assert forall|i: int| 0 <= i < rest.len() implies #[trigger] rest[i] != '/' by {
            assert(rest[i] == rank[i + step]);
        }
        lemma_rank_text_has_no_slash(rest);
        let first = rank_encoding(rank)[0];
        assert(rank_encoding(rank) == seq![first] + rank_encoding(rest));
        assert(first != '/');
        assert forall|k: int| 0 <= k < rank_encoding(rank).len() implies #[trigger] rank_encoding(
            rank,
        )[k] != '/' by {
            if k > 0 {
                assert(rank_encoding(rank)[k] == rank_encoding(rest)[k - 1]);
            }
        }
    }
}

/// Cutting a text at its slashes gives at least one part.
pub proof fn lemma_split_has_parts(text: Seq<char>)
    ensures
        split_at_slashes(text).len() >= 1,
    decreases text.len(),
{
    if text.len() > 0 {
        lemma_split_has_parts(text.drop_last());
    }
}

/// Text without a slash, written behind another text, lengthens the last
/// part of that text and adds no part.
pub proof fn lemma_split_with_tail(text: Seq<char>, tail: Seq<char>)
    requires
        forall|k: int| 0 <= k < tail.len() ==> #[trigger] tail[k] != '/',
    ensures
        split_at_slashes(text).len() >= 1,
        split_at_slashes(text + tail) == split_at_slashes(text).drop_last().push(
            split_at_slashes(text).last() + tail,
        ),
    decreases tail.len(),
{
    lemma_split_has_parts(text);
    let parts = split_at_slashes(text);
    if tail.len() == 0 {
        assert(text + tail == text);
        assert(parts.last() + tail == parts.last());
        assert(parts.drop_last().push(parts.last()) == parts);
    } else {
        let shorter = tail.drop_last();
        lemma_split_with_tail(text, shorter);
        let whole = text + tail;
        let before = split_at_slashes(text + shorter);
        assert(whole.drop_last() == text + shorter);
        assert(whole.last() == tail.last());
        assert(tail.last() != '/');
        assert(before.drop_last() == parts.drop_last());
        assert(before.last().push(tail.last()) == parts.last() + tail);
    }
}

/// Joining parts that hold no slash and cutting the text at its slashes
/// gives the parts back.
pub proof fn lemma_split_of_joined(parts: Seq<Seq<char>>)
    requires
        parts.len() >= 1,
        forall|i: int, k: int|
            0 <= i < parts.len() && 0 <= k < parts[i].len() ==> #[trigger] parts[i][k] != '/',
    ensures
        split_at_slashes(joined(parts)) == parts,
    decreases parts.len(),
{
    let nothing = Seq::<char>::empty();
    if parts.len() == 1 {
        lemma_split_with_tail(nothing, parts[0]);
        assert(nothing + parts[0] == parts[0]);
        assert(split_at_slashes(nothing) == seq![nothing]);
        assert(seq![nothing].drop_last().push(nothing + parts[0]) == parts);
    } else {
        let init = parts.drop_last();
        assert forall|i: int, k: int|
            0 <= i < init.len() && 0 <= k < init[i].len() implies #[trigger] init[i][k] != '/' by {
            assert(init[i] == parts[i]);
        }
        lemma_split_of_joined(init);
        let head = joined(init) + seq!['/'];
        assert(head.drop_last() == joined(init));
        assert(head.last() == '/');
        assert(split_at_slashes(head) == init.push(nothing));
        assert forall|k: int| 0 <= k < parts.last().len() implies #[trigger] parts.last()[k]
            != '/' by {
            assert(parts.last()[k] == parts[parts.len() - 1][k]);
        }
        lemma_split_with_tail(head, parts.last());
        assert(joined(parts) == head + parts.last());
        assert(init.push(nothing).drop_last().push(nothing + parts.last()) == parts);
    }
}

/// A board of piece letters and empty squares can be read back from its
/// text. The slashes cut the text into one part for each rank, and each part
/// is the text of its rank and expands to the squares of that rank.
pub proof fn lemma_board_reads_back(letters: Seq<char>)
    requires
        letters.len() >= 1,
        is_letter_board(letters),
    ensures
        split_at_slashes(board_encoding(letters)).len() == ranks_of(letters).len(),
        forall|i: int|
            0 <= i < ranks_of(letters).len() ==> #[trigger] split_at_slashes(
                board_encoding(letters),
            )[i] == rank_encoding(rank_at(letters, i)),
        forall|i: int|
            0 <= i < ranks_of(letters).len() ==> expansion(
                #[trigger] split_at_slashes(board_encoding(letters))[i],
            ) == rank_at(letters, i),
{
    let ranks = ranks_of(letters);
    let texts = ranks.map_values(|rank: Seq<char>| rank_encoding(rank));
    assert forall|i: int| 0 <= i < ranks.len() implies {
        &&& single_digit_runs(#[trigger] ranks[i])
        &&& forall|k: int| 0 <= k < ranks[i].len() ==> is_square_letter(#[trigger] ranks[i][k])
    } by {
        let rank = ranks[i];
        assert(rank == rank_at(letters, i));
        assert(rank.len() <= 8);
        assert forall|from: int| !#[trigger] ten_empties_at(rank, from) by {}
        assert forall|k: int| 0 <= k < rank.len() implies is_square_letter(#[trigger] rank[k]) by {
            assert(rank[k] == letters[8 * i + k]);
        }
    }
    assert forall|i: int, k: int|
        0 <= i < texts.len() && 0 <= k < texts[i].len() implies #[trigger] texts[i][k] != '/' by {
        assert(texts[i] == rank_encoding(ranks[i]));
        assert forall|j: int| 0 <= j < ranks[i].len() implies #[trigger] ranks[i][j] != '/' by {
            assert(is_square_letter(ranks[i][j]));
        }
        lemma_rank_text_has_no_slash(ranks[i]);
    }
    lemma_split_of_joined(texts);
    assert forall|i: int| 0 <= i < ranks.len() implies expansion(texts[i]) == rank_at(
        letters,
        i,
    ) by {
        assert(texts[i] == rank_encoding(ranks[i]));
        assert forall|j: int| 0 <= j < ranks[i].len() implies !is_digit(#[trigger] ranks[i][j]) by {
            assert(is_square_letter(ranks[i][j]));
        }
        lemma_rank_round_trip(ranks[i]);
    }
}

/// A board of 64 recognised symbols is written as eight parts between
/// slashes. Each part expands to the eight squares of its rank, so its
/// digits and its letters add up to eight.
pub proof fn lemma_chess_board_is_eight_ranks_of_eight(squares: Seq<char>)
    requires
        squares.len() == 64,
        all_chess_chars(squares),
    ensures
        split_at_slashes(board_encoding(fen_letters(squares))).len() == 8,
        forall|i: int|
            0 <= i < 8 ==> expansion(
                #[trigger] split_at_slashes(board_encoding(fen_letters(squares)))[i],
            ) == fen_letters(squares).subrange(8 * i, 8 * i + 8),
        forall|i: int|
            0 <= i < 8 ==> squares_spanned(
                #[trigger] split_at_slashes(board_encoding(fen_letters(squares)))[i],
            ) == 8,
{
    let letters = fen_letters(squares);
    lemma_fen_letters_are_letters(squares);
    lemma_board_reads_back(letters);
    assert(ranks_of(letters).len() == 8);
    let parts = split_at_slashes(board_encoding(letters));
    assert forall|i: int| 0 <= i < 8 implies expansion(#[trigger] parts[i]) == letters.subrange(
        8 * i,
        8 * i + 8,
    ) && squares_spanned(parts[i]) == 8 by {
        assert(rank_at(letters, i) == letters.subrange(8 * i, 8 * i + 8));
        lemma_expansion_spans(parts[i]);
    }
}

/// The place of a castling letter in the order `K`, `Q`, `k`, `q`.
pub open spec fn castling_place(c: char) -> int {
    if c == 'K' {
        0
    } else if c == 'Q' {
        1
    } else if c == 'k' {
        2
    } else if c == 'q' {
        3
    } else {
        4
    }
}

/// Whichever rights are granted, the castling field holds the letter of
/// each granted right and of no other, and its letters stand in the order
/// `K`, `Q`, `k`, `q`. With no right granted the field is empty.
pub proof fn lemma_castling_letters_keep_their_order(
    white_king_side: bool,
    white_queen_side: bool,
    black_king_side: bool,
    black_queen_side: bool,
)
    ensures
        ({
            let field = castling_field(
                white_king_side,
                white_queen_side,
                black_king_side,
                black_queen_side,
            );
            &&& forall|i: int, j: int|
                0 <= i < j < field.len() ==> castling_place(#[trigger] field[i]) < castling_place(
                    #[trigger] field[j],
                )
            &&& forall|i: int| 0 <= i < field.len() ==> castling_place(#[trigger] field[i]) < 4
            &&& field.contains('K') == white_king_side
            &&& field.contains('Q') == white_queen_side
            &&& field.contains('k') == black_king_side
            &&& field.contains('q') == black_queen_side
            &&& (!white_king_side && !white_queen_side && !black_king_side && !black_queen_side
                ==> field == Seq::<char>::empty())
        }),
{
    let field = castling_field(
        white_king_side,
        white_queen_side,
        black_king_side,
        black_queen_side,
    );
    let k: int = 0;
    let q: int = if white_king_side { 1 } else { 0 };
    let bk: int = q + if white_queen_side { 1int } else { 0int };
    let bq: int = bk + if black_king_side { 1int } else { 0int };
    assert(field.len() == bq + if black_queen_side { 1int } else { 0int });
    if white_king_side {
        assert(field[k] == 'K');
    }
    if white_queen_side {
        assert(field[q] == 'Q');
    }
    if black_king_side {
        assert(field[bk] == 'k');
    }
    if black_queen_side {
        assert(field[bq] == 'q');
    }
    assert forall|i: int| 0 <= i < field.len() implies castling_place(#[trigger] field[i]) == {
        if i == bq && black_queen_side {
            3int
        } else if i == bk && black_king_side {
            2int
        } else if i == q && white_queen_side {
            1int
        } else {
            0int
        }
    } by {}
}

/// A board whose squares all hold recognised symbols is turned down with no
/// error whatever. On any other board some square is the first to hold an
/// unrecognised symbol, wherever on the board it lies, and the one error the
/// board is turned down with names the symbol on that square.
pub proof fn lemma_rejection_names_first_unrecognized(squares: Seq<char>)
    ensures
        all_chess_chars(squares) ==> forall|e: FenError| !#[trigger] rejected_with(squares, e),
        !all_chess_chars(squares) ==> exists|i: int| #[trigger] is_first_unrecognized(squares, i),
        forall|i: int, e: FenError|
            #[trigger] is_first_unrecognized(squares, i) ==> (#[trigger] rejected_with(squares, e)
                <==> e == FenError::UnexpectedChessChar(squares[i])),
{
    assert forall|i: int, j: int|
        is_first_unrecognized(squares, i) && is_first_unrecognized(squares, j) implies i == j by {
        if i < j {
            assert(squares.take(j)[i] == squares[i]);
        } else if j < i {
            assert(squares.take(i)[j] == squares[j]);
        }
    }
    if !all_chess_chars(squares) {
        assert(squares.take(squares.len() as int) == squares);
        lemma_some_square_is_first(squares, squares.len() as int);
    } else {
        assert forall|e: FenError| !#[trigger] rejected_with(squares, e) by {
            if rejected_with(squares, e) {
                let i = choose|i: int| #[trigger]
                    is_first_unrecognized(squares, i) && e == FenError::UnexpectedChessChar(
                        squares[i],
                    );
                assert(is_chess_char(squares[i]));
            }
        }
    }
}

/// Where the first `n` squares do not all hold recognised symbols, one
/// square is the first that holds an unrecognised one.
proof fn lemma_some_square_is_first(squares: Seq<char>, n: int)
    requires
        0 <= n <= squares.len(),
        !all_chess_chars(squares.take(n)),
    ensures
        exists|i: int| is_first_unrecognized(squares, i),
    decreases n,
{
    if n == 0 {
        assert(all_chess_chars(squares.take(0)));
    } else if all_chess_chars(squares.take(n - 1)) {
        let seen = squares.take(n);
        if is_chess_char(squares[n - 1]) {
            assert forall|k: int| 0 <= k < seen.len() implies is_chess_char(#[trigger] seen[k]) by {
                if k < n - 1 {
                    assert(seen[k] == squares.take(n - 1)[k]);
                }
            }
        }
        assert(is_first_unrecognized(squares, n - 1));
    } else {
        lemma_some_square_is_first(squares, n - 1);
    }
}

} // verus!
