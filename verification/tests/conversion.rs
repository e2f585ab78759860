use chess_fen::{get_fen, Editor, Fen, FenError};

fn editor(squares: &str) -> Editor {
    Editor {
        white_to_start: true,
        white_king_side_castle: true,
        white_queen_side_castle: true,
        black_king_side_castle: true,
        black_queen_side_castle: true,
        squares: squares.chars().collect(),
    }
}

const START: &str = "♜♞♝♛♚♝♞♜♟♟♟♟♟♟♟♟                                ♙♙♙♙♙♙♙♙♖♘♗♕♔♗♘♖";

#[test]
fn empty_board_with_all_rights() {
    let state = editor(&" ".repeat(64));
    assert_eq!(get_fen(state), Ok(String::from("8/8/8/8/8/8/8/8 w KQkq - 0 1")));
}

#[test]
fn starting_position() {
    assert_eq!(START.chars().count(), 64);
    assert_eq!(
        get_fen(editor(START)),
        Ok(String::from("rnbqkbnr/pppppppp/8/8/8/8/PPPPPPPP/RNBQKBNR w KQkq - 0 1"))
    );
}

#[test]
fn position_after_a_few_moves() {
    let ranks = [
        "♜ ♝♛♚♝ ♜",
        "♟♟♟♟ ♟♟♟",
        "  ♞  ♞  ",
        "    ♟   ",
        "    ♙   ",
        "     ♘  ",
        "♙♙♙♙ ♙♙♙",
        "♖♘♗♕♔♗ ♖",
    ];
    let mut state = editor(&ranks.concat());
    state.white_to_start = false;
    state.white_king_side_castle = false;
    assert_eq!(
        get_fen(state),
        Ok(String::from("r1bqkb1r/pppp1ppp/2n2n2/4p3/4P3/5N2/PPPP1PPP/RNBQKB1R b Qkq - 0 1"))
    );
}

#[test]
fn black_to_move_without_rights() {
    let mut state = editor(&" ".repeat(64));
    state.white_to_start = false;
    state.white_king_side_castle = false;
    state.white_queen_side_castle = false;
    state.black_king_side_castle = false;
    state.black_queen_side_castle = false;
    assert_eq!(get_fen(state), Ok(String::from("8/8/8/8/8/8/8/8 b  - 0 1")));
}

#[test]
fn ascii_letter_is_rejected() {
    let mut squares: Vec<char> = " ".repeat(64).chars().collect();
    squares[37] = 'x';
    let mut state = editor("");
    state.squares = squares;
    assert_eq!(get_fen(state), Err(FenError::UnexpectedChessChar('x')));
}

#[test]
fn fen_letter_is_no_editor_symbol() {
    let mut squares: Vec<char> = START.chars().collect();
    squares[63] = 'R';
    let mut state = editor("");
    state.squares = squares;
    assert_eq!(get_fen(state), Err(FenError::UnexpectedChessChar('R')));
}

#[test]
fn digit_and_slash_are_rejected() {
    assert_eq!(get_fen(editor("♜8")), Err(FenError::UnexpectedChessChar('8')));
    assert_eq!(get_fen(editor("  /  ")), Err(FenError::UnexpectedChessChar('/')));
}

#[test]
fn first_unrecognized_symbol_is_named() {
    assert_eq!(get_fen(editor("♜ a♞b c")), Err(FenError::UnexpectedChessChar('a')));
    assert_eq!(get_fen(editor("z♜ a♞b c")), Err(FenError::UnexpectedChessChar('z')));
    assert_eq!(
        Fen::editor_chars_to_fen_squares(&editor("        ♙♙♙♙♙♙♙?!")),
        Err(FenError::UnexpectedChessChar('?'))
    );
}

#[test]
fn unrecognized_symbol_on_last_square() {
    let mut squares: Vec<char> = " ".repeat(64).chars().collect();
    squares[63] = '#';
    let mut state = editor("");
    state.squares = squares;
    assert_eq!(Fen::from(state), Err(FenError::UnexpectedChessChar('#')));
}

#[test]
fn board_without_squares() {
    assert_eq!(Fen::editor_chars_to_fen_squares(&editor("")), Ok(String::new()));
    assert_eq!(get_fen(editor("")), Ok(String::from(" w KQkq - 0 1")));
}

#[test]
fn short_board_has_a_short_last_rank() {
    assert_eq!(Fen::editor_chars_to_fen_squares(&editor("♜  ")), Ok(String::from("r2")));
    assert_eq!(
        Fen::editor_chars_to_fen_squares(&editor("         ")),
        Ok(String::from("8/1"))
    );
    assert_eq!(
        Fen::editor_chars_to_fen_squares(&editor("♟       ♙ ♔")),
        Ok(String::from("p7/P1K"))
    );
}

#[test]
fn long_board_has_more_ranks() {
    let state = editor(&" ".repeat(72));
    assert_eq!(
        Fen::editor_chars_to_fen_squares(&state),
        Ok(String::from("8/8/8/8/8/8/8/8/8"))
    );
    let state = editor(&"♛".repeat(17));
    assert_eq!(
        Fen::editor_chars_to_fen_squares(&state),
        Ok(String::from("qqqqqqqq/qqqqqqqq/q"))
    );
}

#[test]
fn empty_squares_do_not_run_across_ranks() {
    let board = ["♜       ", "       ♜"].concat();
    assert_eq!(Fen::editor_chars_to_fen_squares(&editor(&board)), Ok(String::from("r7/7r")));
    let board = ["    ♚   ", "        ", "   ♔    "].concat();
    assert_eq!(
        Fen::editor_chars_to_fen_squares(&editor(&board)),
        Ok(String::from("4k3/8/3K4"))
    );
}

#[test]
fn from_takes_the_flags_over() {
    let mut state = editor(START);
    state.white_to_start = false;
    state.white_queen_side_castle = false;
    state.black_king_side_castle = false;
    let fen = Fen::from(state).unwrap();
    assert_eq!(
        fen,
        Fen {
            squares: String::from("rnbqkbnr/pppppppp/8/8/8/8/PPPPPPPP/RNBQKBNR"),
            white_to_start: false,
            white_king_side_castle: true,
            white_queen_side_castle: false,
            black_king_side_castle: false,
            black_queen_side_castle: true,
        }
    );
    assert_eq!(fen.render(), "rnbqkbnr/pppppppp/8/8/8/8/PPPPPPPP/RNBQKBNR b Kq - 0 1");
}

#[test]
fn render_writes_the_fields_in_order() {
    let fen = Fen {
        squares: String::from("8/8/8/8/8/8/8/k6K"),
        white_to_start: true,
        white_king_side_castle: false,
        white_queen_side_castle: false,
        black_king_side_castle: false,
        black_queen_side_castle: false,
    };
    assert_eq!(fen.render(), "8/8/8/8/8/8/8/k6K w  - 0 1");
    let fields: Vec<&str> = "8/8/8/8/8/8/8/k6K w  - 0 1".split(' ').collect();
    assert_eq!(fields, vec!["8/8/8/8/8/8/8/k6K", "w", "", "-", "0", "1"]);
}

#[test]
fn render_takes_the_placement_as_it_is() {
    let fen = Fen {
        squares: String::new(),
        white_to_start: false,
        white_king_side_castle: true,
        white_queen_side_castle: true,
        black_king_side_castle: false,
        black_queen_side_castle: false,
    };
    assert_eq!(fen.render(), " b KQ - 0 1");
}

#[test]
fn error_message_names_the_character() {
    assert_eq!(FenError::UnexpectedChessChar('x').message(), "x is not a valid chess character");
    assert_eq!(FenError::UnexpectedChessChar('ß').message(), "ß is not a valid chess character");
    let text = get_fen(editor("   7")).unwrap_err().message();
    assert_eq!(text, "7 is not a valid chess character");
}
