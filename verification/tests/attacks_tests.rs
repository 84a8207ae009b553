use atlas_chess::board::Board;
use atlas_chess::types::{Color, EMPTY, NO_SQUARE, WHITE_KING, BLACK_ROOK, WHITE_PAWN, BLACK_KNIGHT, BLACK_PAWN};

fn empty_board() -> Board {
    Board {
        piece_bitboards: [0; 12],
        white_pieces: 0,
        black_pieces: 0,
        all_pieces: 0,
        squares: [EMPTY; 64],
        side_to_move: Color::White,
        castling_rights: 0,
        en_passant_square: NO_SQUARE,
        halfmove_clock: 0,
        zobrian_hash: 0,
    }
}

fn place(board: &mut Board, square: u8, piece: u8) {
    board.squares[square as usize] = piece;
}

#[test]
fn rook_check_along_open_rank() {
    let mut board = empty_board();
    place(&mut board, 4, WHITE_KING);
    place(&mut board, 0, BLACK_ROOK);
    board.update_bitboards();

    assert!(board.is_square_attacked(4, Color::Black));

    place(&mut board, 2, WHITE_PAWN);
    board.update_bitboards();

    assert!(!board.is_square_attacked(4, Color::Black));
}

#[test]
fn knight_attack_is_detected() {
    let mut board = empty_board();
    place(&mut board, 4, WHITE_KING);
    place(&mut board, 19, BLACK_KNIGHT);
    board.update_bitboards();

    assert!(board.is_square_attacked(4, Color::Black));
}

#[test]
fn pawns_attack_diagonally_ahead_only() {
    let mut board = empty_board();
    place(&mut board, 28, WHITE_PAWN);
    place(&mut board, 39, BLACK_PAWN);
    board.update_bitboards();

    assert!(board.is_square_attacked(35, Color::White));
    assert!(board.is_square_attacked(37, Color::White));
    assert!(!board.is_square_attacked(36, Color::White));
    assert!(!board.is_square_attacked(19, Color::White));
    assert!(!board.is_square_attacked(31, Color::White));
    assert!(board.is_square_attacked(30, Color::Black));
    assert!(!board.is_square_attacked(32, Color::Black));
    assert!(!board.is_square_attacked(46, Color::Black));
}
