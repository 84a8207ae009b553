use atlas_chess::board::Board;
use atlas_chess::types::{
    Color, EMPTY, NO_SQUARE, WHITE_KING, WHITE_BISHOP, WHITE_ROOK, WHITE_PAWN, BLACK_ROOK,
    BLACK_PAWN, BLACK_KING, BLACK_KNIGHT,
};

fn empty_board() -> Board {
    Board {
        piece_bitboards: [0; 12],
        white_pieces: 0,
        black_pieces: 0,
        all_pieces: 0,
        squares: [EMPTY; 64],
        side_to_move: Color::White,
        castling_rights: 0,
        en_passant_square: NO_SQUARE,
        halfmove_clock: 0,
        zobrian_hash: 0,
    }
}

fn place(board: &mut Board, square: u8, piece: u8) {
    board.squares[square as usize] = piece;
}

#[test]
fn pinned_bishop_has_no_legal_moves() {
    let mut board = empty_board();
    place(&mut board, 4, WHITE_KING);
    place(&mut board, 12, WHITE_BISHOP);
    place(&mut board, 60, BLACK_ROOK);
    board.update_bitboards();

    assert!(!board.move_generator(12, WHITE_BISHOP).is_empty());
    assert!(board.legal_moves(12, WHITE_BISHOP).is_empty());
}

#[test]
fn en_passant_discovered_check_is_excluded() {
    let mut board = empty_board();
    place(&mut board, 32, WHITE_KING);
    place(&mut board, 39, BLACK_ROOK);
    place(&mut board, 36, WHITE_PAWN);
    place(&mut board, 37, BLACK_PAWN);
    board.en_passant_square = 45;
    board.update_bitboards();

    let legal = board.legal_moves(36, WHITE_PAWN);
    assert!(!legal.iter().any(|mv| mv.destination == 45));
}

#[test]
fn castling_through_attacked_square_is_illegal() {
    let mut board = empty_board();
    place(&mut board, 4, WHITE_KING);
    place(&mut board, 7, WHITE_ROOK);
    place(&mut board, 61, BLACK_ROOK);
    board.castling_rights = 1;
    board.update_bitboards();

    assert!(board.is_square_attacked(5, Color::Black));
    let legal = board.legal_moves(4, WHITE_KING);
    assert!(!legal.iter().any(|mv| mv.destination == 6));
}

#[test]
fn castling_while_in_check_is_illegal() {
    let mut board = empty_board();
    place(&mut board, 4, WHITE_KING);
    place(&mut board, 7, WHITE_ROOK);
    place(&mut board, 60, BLACK_ROOK);
    board.castling_rights = 1;
    board.update_bitboards();

    let legal = board.legal_moves(4, WHITE_KING);
    assert!(!legal.iter().any(|mv| mv.destination == 6));
}

#[test]
fn castling_is_legal_when_the_path_is_free_and_safe() {
    let mut board = empty_board();
    place(&mut board, 4, WHITE_KING);
    place(&mut board, 7, WHITE_ROOK);
    place(&mut board, 63, atlas_chess::types::BLACK_KING);
    board.castling_rights = 1;
    board.update_bitboards();

    let legal = board.legal_moves(4, WHITE_KING);
    assert!(legal.iter().any(|mv| mv.destination == 6));
}

#[test]
fn en_passant_is_legal_without_a_pin() {
    let mut board = empty_board();
    place(&mut board, 0, WHITE_KING);
    place(&mut board, 36, WHITE_PAWN);
    place(&mut board, 37, BLACK_PAWN);
    board.en_passant_square = 45;
    board.update_bitboards();

    let legal = board.legal_moves(36, WHITE_PAWN);
    assert!(legal.iter().any(|mv| mv.destination == 45));
}

#[test]
fn moves_of_the_side_not_to_move_are_tested_too() {
    let mut board = empty_board();
    place(&mut board, 4, WHITE_KING);
    place(&mut board, 60, BLACK_KING);
    place(&mut board, 57, BLACK_KNIGHT);
    place(&mut board, 51, BLACK_PAWN);
    board.update_bitboards();

    let destinations: Vec<u8> = board
        .legal_moves(57, BLACK_KNIGHT)
        .iter()
        .map(|m| m.destination)
        .collect();
    assert_eq!(destinations, vec![40, 42]);
}
