use atlas_chess::board::Board;
use atlas_chess::types::{Color, NO_SQUARE};

fn starting_board() -> Board {
    let mut board = Board {
        squares: [0; 64],
        piece_bitboards: [0; 12],
        white_pieces: 0,
        black_pieces: 0,
        all_pieces: 0,
        side_to_move: Color::White,
        castling_rights: 15,
        en_passant_square: NO_SQUARE,
        halfmove_clock: 0,
        zobrian_hash: 0,
    };
    board.initialize_board();
    board.update_bitboards();
    board
}

#[test]
fn the_start_is_drawn_from_whites_side() {
    let text = starting_board().board_text(Color::White);
    let expected = [
        "",
        "  +-------------------------------+",
        "8 | ♜ | ♞ | ♝ | ♛ | ♚ | ♝ | ♞ | ♜ | ",
        "7 | ♟ | ♟ | ♟ | ♟ | ♟ | ♟ | ♟ | ♟ | ",
        "6 | . | . | . | . | . | . | . | . | ",
        "5 | . | . | . | . | . | . | . | . | ",
        "4 | . | . | . | . | . | . | . | . | ",
        "3 | . | . | . | . | . | . | . | . | ",
        "2 | ♙ | ♙ | ♙ | ♙ | ♙ | ♙ | ♙ | ♙ | ",
        "1 | ♖ | ♘ | ♗ | ♕ | ♔ | ♗ | ♘ | ♖ | ",
        "  +-------------------------------+",
        "    a   b   c   d   e   f   g   h",
        "",
        "White player to move",
        "",
    ]
    .join("\n");
    assert_eq!(text, expected);
}

#[test]
fn the_board_is_turned_for_black() {
    let mut board = starting_board();
    board.squares[12] = 0;
    board.squares[28] = 1;
    board.side_to_move = Color::Black;
    let text = board.board_text(Color::Black);
    let lines: Vec<&str> = text.lines().collect();
    assert_eq!(lines[2], "1 | ♖ | ♘ | ♗ | ♔ | ♕ | ♗ | ♘ | ♖ | ");
    assert_eq!(lines[5], "4 | . | . | . | ♙ | . | . | . | . | ");
    assert_eq!(lines[9], "8 | ♜ | ♞ | ♝ | ♚ | ♛ | ♝ | ♞ | ♜ | ");
    assert_eq!(lines[11], "    h   g   f   e   d   c   b   a");
    assert_eq!(lines[13], "Black player to move");
}
