use atlas_chess::board::Board;
use atlas_chess::types::{
    Color, Move, EMPTY, NO_SQUARE, WHITE_KING, WHITE_KNIGHT, WHITE_PAWN, WHITE_ROOK, BLACK_KING,
    BLACK_PAWN, BLACK_QUEEN, BLACK_ROOK,
};

fn empty_board() -> Board {
    Board {
        piece_bitboards: [0; 12],
        white_pieces: 0,
        black_pieces: 0,
        all_pieces: 0,
        squares: [EMPTY; 64],
        side_to_move: Color::White,
        castling_rights: 0,
        en_passant_square: NO_SQUARE,
        halfmove_clock: 0,
        zobrian_hash: 0,
    }
}

fn board_with(pieces: &[(u8, u8)], side_to_move: Color) -> Board {
    let mut board = empty_board();
    for &(square, piece) in pieces {
        board.squares[square as usize] = piece;
    }
    board.side_to_move = side_to_move;
    board.update_bitboards();
    board
}

fn starting_board() -> Board {
    let mut board = empty_board();
    board.castling_rights = 15;
    board.initialize_board();
    board.update_bitboards();
    board
}

#[test]
fn the_starting_position_is_balanced() {
    let mut board = starting_board();
    assert_eq!(board.evaluate(0), 0);
    board.side_to_move = Color::Black;
    assert_eq!(board.evaluate(0), 0);
}

#[test]
fn the_evaluation_is_from_the_side_to_move() {
    let mut board = starting_board();
    board.squares[59] = EMPTY;
    board.update_bitboards();
    let white = board.evaluate(0);
    assert!(white > 800);
    board.side_to_move = Color::Black;
    assert_eq!(board.evaluate(0), -white);
}

#[test]
fn a_centralised_knight_scores_its_table_bonus() {
    let board = board_with(&[(4, WHITE_KING), (27, WHITE_KNIGHT), (60, BLACK_KING)], Color::White);
    assert_eq!(board.piece_value(WHITE_KNIGHT, 27, 1, 0), 320);
    assert_eq!(board.piece_value(WHITE_KNIGHT, 0, 1, 0), 250);
    assert_eq!(board.piece_value(EMPTY, 27, 1, 0), 0);
}

#[test]
fn a_lone_pawn_is_passed_and_isolated() {
    // A white pawn on e5 with no other pawns: passed (rank 5 from white), isolated.
    let board = board_with(&[(4, WHITE_KING), (36, WHITE_PAWN), (60, BLACK_KING)], Color::White);
    // PST[36] = 25; passed bonus at rank index 4 with phase 0 is the endgame 60; isolated -15.
    assert_eq!(board.piece_value(WHITE_PAWN, 36, 0, 0), 100 + 25 + 60 - 15);
    // With full phase the middlegame bonus 25 applies.
    assert_eq!(board.piece_value(WHITE_PAWN, 36, 24, 0), 100 + 25 + 25 - 15);
}

#[test]
fn a_rook_on_an_open_file_counts_its_mobility() {
    let board = board_with(&[(4, WHITE_KING), (27, WHITE_ROOK), (60, BLACK_KING)], Color::White);
    // d4 rook: PST 0, open file +20, 14 free squares: (14 - 7) * 3 = 21.
    assert_eq!(board.piece_value(WHITE_ROOK, 27, 0, 0), 500 + 20 + 21);
}

#[test]
fn captures_are_recognised() {
    let mut board = board_with(
        &[(4, WHITE_KING), (36, WHITE_PAWN), (37, BLACK_PAWN), (45, BLACK_ROOK), (60, BLACK_KING)],
        Color::White,
    );
    board.en_passant_square = 44;
    assert!(board.is_capture(&Move { origin: 36, destination: 45, promotion: None }));
    assert!(board.is_capture(&Move { origin: 36, destination: 44, promotion: None }));
    assert!(!board.is_capture(&Move { origin: 4, destination: 12, promotion: None }));
    assert!(!board.is_promotion(&Move { origin: 36, destination: 44, promotion: None }));
}

#[test]
fn promotions_are_recognised() {
    let board = board_with(&[(4, WHITE_KING), (52, WHITE_PAWN), (8, BLACK_PAWN), (63, BLACK_KING)], Color::White);
    assert!(board.is_promotion(&Move { origin: 52, destination: 60, promotion: None }));
    assert!(board.is_promotion(&Move { origin: 8, destination: 0, promotion: None }));
    assert!(!board.is_promotion(&Move { origin: 4, destination: 60, promotion: None }));
}

#[test]
fn captures_score_ten_times_the_victim_minus_the_attacker() {
    let board = board_with(
        &[(4, WHITE_KING), (27, WHITE_KNIGHT), (44, BLACK_QUEEN), (60, BLACK_KING)],
        Color::White,
    );
    let capture = Move { origin: 27, destination: 44, promotion: None };
    let queen_value = board.piece_value(BLACK_QUEEN, 44, 4, 0);
    assert_eq!(board.score_move(&capture, 0), queen_value * 10 - 2);
    assert_eq!(board.score_move(&Move { origin: 27, destination: 37, promotion: None }, 0), 0);
}

#[test]
fn an_en_passant_capture_scores_the_pawn_it_takes() {
    let mut board = board_with(
        &[(4, WHITE_KING), (36, WHITE_PAWN), (35, BLACK_PAWN), (60, BLACK_KING)],
        Color::White,
    );
    board.en_passant_square = 43;
    let en_passant = Move { origin: 36, destination: 43, promotion: None };
    assert!(board.is_capture(&en_passant));
    let score = board.score_move(&en_passant, 0);
    assert!(score > 0);
    assert_eq!(score, board.piece_value(BLACK_PAWN, 35, 0, 0) * 10 - 1);
}
