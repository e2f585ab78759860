use chess_fen::symbols::{
    BLACK_BISHOP, BLACK_KING, BLACK_KNIGHT, BLACK_PAWN, BLACK_QUEEN, BLACK_ROOK, EMPTY_SQUARE,
    WHITE_BISHOP, WHITE_KING, WHITE_KNIGHT, WHITE_PAWN, WHITE_QUEEN, WHITE_ROOK,
};
use chess_fen::{Editor, Fen, FenError};

fn rank_text(rank: &str) -> String {
    let squares: Vec<char> = rank.chars().collect();
    Fen::abbreviated_fen_rank(&squares)
}

/// Reads the text of a rank back: a digit as that many empty squares, any
/// other character as itself.
fn expand(text: &str) -> String {
    let mut squares = String::new();
    for c in text.chars() {
        match c.to_digit(10) {
            Some(n) => {
                for _ in 0..n {
                    squares.push(' ');
                }
            }
            None => squares.push(c),
        }
    }
    squares
}

fn flags(bits: u32) -> Fen {
    Fen {
        squares: String::new(),
        white_to_start: true,
        white_king_side_castle: bits & 8 != 0,
        white_queen_side_castle: bits & 4 != 0,
        black_king_side_castle: bits & 2 != 0,
        black_queen_side_castle: bits & 1 != 0,
    }
}

#[test]
fn every_symbol_has_its_letter() {
    let table = [
        ('♙', 'P'),
        ('♖', 'R'),
        ('♘', 'N'),
        ('♗', 'B'),
        ('♕', 'Q'),
        ('♔', 'K'),
        ('♟', 'p'),
        ('♜', 'r'),
        ('♞', 'n'),
        ('♝', 'b'),
        ('♛', 'q'),
        ('♚', 'k'),
        (' ', ' '),
    ];
    for (symbol, letter) in table {
        assert_eq!(Fen::chess_char_to_fen_char(&symbol), Ok(letter));
    }
}

#[test]
fn symbol_constants_are_the_chess_glyphs() {
    assert_eq!(WHITE_KING, '♔');
    assert_eq!(WHITE_QUEEN, '♕');
    assert_eq!(WHITE_ROOK, '♖');
    assert_eq!(WHITE_BISHOP, '♗');
    assert_eq!(WHITE_KNIGHT, '♘');
    assert_eq!(WHITE_PAWN, '♙');
    assert_eq!(BLACK_KING, '♚');
    assert_eq!(BLACK_QUEEN, '♛');
    assert_eq!(BLACK_ROOK, '♜');
    assert_eq!(BLACK_BISHOP, '♝');
    assert_eq!(BLACK_KNIGHT, '♞');
    assert_eq!(BLACK_PAWN, '♟');
    assert_eq!(EMPTY_SQUARE, ' ');
}

#[test]
fn other_characters_have_no_letter() {
    for c in ['x', 'K', 'p', '0', '8', '/', '-', '\t', '\u{2653}', '\u{2660}', '\u{a0}'] {
        assert_eq!(Fen::chess_char_to_fen_char(&c), Err(FenError::UnexpectedChessChar(c)));
    }
}

#[test]
fn all_empty_rank_is_eight() {
    assert_eq!(rank_text("        "), "8");
}

#[test]
fn full_rank_has_no_digit() {
    assert_eq!(rank_text("rnbqkbnr"), "rnbqkbnr");
    assert_eq!(rank_text("PPPPPPPP"), "PPPPPPPP");
    assert!(!rank_text("pPkKqQnR").chars().any(|c| c.is_ascii_digit()));
}

#[test]
fn runs_of_every_length() {
    assert_eq!(rank_text(""), "");
    assert_eq!(rank_text(" "), "1");
    assert_eq!(rank_text("  "), "2");
    assert_eq!(rank_text("   "), "3");
    assert_eq!(rank_text("    "), "4");
    assert_eq!(rank_text("     "), "5");
    assert_eq!(rank_text("      "), "6");
    assert_eq!(rank_text("       "), "7");
    assert_eq!(rank_text("         "), "9");
}

#[test]
fn runs_around_pieces() {
    assert_eq!(rank_text("K       "), "K7");
    assert_eq!(rank_text("       K"), "7K");
    assert_eq!(rank_text("  K  p  "), "2K2p2");
    assert_eq!(rank_text(" p p p p"), "1p1p1p1p");
    assert_eq!(rank_text("p p p p "), "p1p1p1p1");
    assert_eq!(rank_text("rr    RR"), "rr4RR");
    assert_eq!(rank_text("   qQ   "), "3qQ3");
}

#[test]
fn nine_empty_squares_on_either_side() {
    assert_eq!(rank_text("         k         "), "9k9");
}

#[test]
fn expanding_a_rank_gives_it_back() {
    let ranks = [
        "        ", "rnbqkbnr", "K       ", "       K", "  K  p  ", " p p p p", "p p p p ",
        "rr    RR", "   qQ   ", "p      P", " q      ", "      Q ", "bB  nN  ",
    ];
    for rank in ranks {
        assert_eq!(rank.chars().count(), 8);
        assert_eq!(expand(&rank_text(rank)), rank);
    }
}

#[test]
fn every_rank_of_two_kinds_of_square_reads_back() {
    for bits in 0u32..256 {
        let rank: String = (0..8).map(|i| if bits >> i & 1 == 1 { 'n' } else { ' ' }).collect();
        let text = rank_text(&rank);
        assert_eq!(expand(&text), rank);
        assert!(!text.contains('0'));
        let digits: Vec<bool> = text.chars().map(|c| c.is_ascii_digit()).collect();
        assert!(!digits.windows(2).any(|pair| pair[0] && pair[1]));
    }
}

#[test]
fn board_of_64_is_eight_ranks_of_eight() {
    let boards = [
        " ".repeat(64),
        String::from("♜♞♝♛♚♝♞♜♟♟♟♟♟♟♟♟                                ♙♙♙♙♙♙♙♙♖♘♗♕♔♗♘♖"),
        "♙ ".repeat(32),
        "   ♚".repeat(16),
        "♛".repeat(64),
    ];
    for board in boards {
        let state = Editor {
            white_to_start: true,
            white_king_side_castle: false,
            white_queen_side_castle: false,
            black_king_side_castle: false,
            black_queen_side_castle: false,
            squares: board.chars().collect(),
        };
        let letters: Vec<char> = state
            .squares
            .iter()
            .map(|c| Fen::chess_char_to_fen_char(c).unwrap())
            .collect();
        let placement = Fen::editor_chars_to_fen_squares(&state).unwrap();
        let parts: Vec<&str> = placement.split('/').collect();
        assert_eq!(parts.len(), 8);
        for (i, part) in parts.iter().enumerate() {
            let rank: String = letters[8 * i..8 * i + 8].iter().collect();
            assert_eq!(expand(part), rank);
            assert_eq!(expand(part).chars().count(), 8);
        }
    }
}

#[test]
fn side_to_move() {
    let mut fen = flags(0);
    assert_eq!(fen.starting_color(), "w");
    fen.white_to_start = false;
    assert_eq!(fen.starting_color(), "b");
}

#[test]
fn castling_rights_of_every_subset() {
    let expected = [
        "", "q", "k", "kq", "Q", "Qq", "Qk", "Qkq", "K", "Kq", "Kk", "Kkq", "KQ", "KQq", "KQk",
        "KQkq",
    ];
    for bits in 0u32..16 {
        assert_eq!(flags(bits).castling_rights(), expected[bits as usize]);
    }
}

#[test]
fn castling_rights_keep_their_order() {
    for bits in 0u32..16 {
        let rights = flags(bits).castling_rights();
        let places: Vec<usize> = rights.chars().map(|c| "KQkq".find(c).unwrap()).collect();
        assert!(places.windows(2).all(|pair| pair[0] < pair[1]));
        assert_eq!(rights.chars().count() as u32, bits.count_ones());
    }
}
