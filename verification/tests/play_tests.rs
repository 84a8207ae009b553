use atlas_chess::board::Board;
use atlas_chess::game::Position;
use atlas_chess::search::SearchLimit;
use atlas_chess::types::{
    Color, Move, EMPTY, NO_SQUARE, BLACK_KING, BLACK_PAWN, BLACK_ROOK, WHITE_KING, WHITE_PAWN,
    WHITE_ROOK,
};

fn empty_board() -> Board {
    Board {
        piece_bitboards: [0; 12],
        white_pieces: 0,
        black_pieces: 0,
        all_pieces: 0,
        squares: [EMPTY; 64],
        side_to_move: Color::White,
        castling_rights: 0,
        en_passant_square: NO_SQUARE,
        halfmove_clock: 0,
        zobrian_hash: 0,
    }
}

fn board_with(pieces: &[(u8, u8)], side_to_move: Color) -> Board {
    let mut board = empty_board();
    for &(square, piece) in pieces {
        board.squares[square as usize] = piece;
    }
    board.side_to_move = side_to_move;
    board.update_bitboards();
    board
}

fn starting_board() -> Board {
    let mut board = empty_board();
    board.castling_rights = 15;
    board.initialize_board();
    board.update_bitboards();
    board
}

#[test]
fn the_starting_position_is_a_game_position() {
    let board = starting_board();
    assert!(board.is_well_formed());
    assert!(board.is_game_position());
}

#[test]
fn stale_bitboards_are_not_well_formed() {
    let mut board = starting_board();
    board.white_pieces = 0;
    assert!(!board.is_well_formed());
    assert!(!board.is_game_position());
    let mut board = starting_board();
    board.squares[20] = 13;
    assert!(!board.is_well_formed());
}

#[test]
fn a_board_needs_one_king_of_each_colour() {
    let no_black_king = board_with(&[(4, WHITE_KING)], Color::White);
    assert!(!no_black_king.is_game_position());
    let two_white_kings = board_with(&[(4, WHITE_KING), (7, WHITE_KING), (60, BLACK_KING)], Color::White);
    assert!(!two_white_kings.is_game_position());
    let one_each = board_with(&[(4, WHITE_KING), (60, BLACK_KING)], Color::White);
    assert!(one_each.is_game_position());
}

#[test]
fn the_side_that_just_moved_may_not_stand_in_check() {
    // white to move, black king on e8 attacked by the white rook on e1
    let board = board_with(&[(0, WHITE_KING), (4, WHITE_ROOK), (60, BLACK_KING)], Color::White);
    assert!(!board.is_game_position());
    // with black to move the same picture is a check to answer, which is fine
    let board = board_with(&[(0, WHITE_KING), (4, WHITE_ROOK), (60, BLACK_KING)], Color::Black);
    assert!(board.is_game_position());
}

#[test]
fn the_en_passant_square_must_lie_behind_a_pawn_that_just_moved() {
    let mut board = board_with(&[(4, WHITE_KING), (60, BLACK_KING), (36, BLACK_PAWN)], Color::White);
    board.en_passant_square = 44;
    assert!(board.is_game_position());
    board.en_passant_square = 43;
    assert!(!board.is_game_position());
    let mut board = board_with(&[(4, WHITE_KING), (60, BLACK_KING), (28, WHITE_PAWN)], Color::Black);
    board.en_passant_square = 20;
    assert!(board.is_game_position());
}

#[test]
fn every_move_of_a_short_game_keeps_a_game_position() {
    let mut position = Position::new(starting_board());
    for text in ["e2e4", "d7d5", "e4d5", "g8f6", "f1b5", "c7c6", "g1f3", "c6b5", "e1g1"] {
        assert!(position.board.is_game_position());
        assert_eq!(position.apply_move_str(text), Ok(()));
    }
    assert!(position.board.is_game_position());
    assert_eq!(position.board.squares[6], WHITE_KING);
    assert_eq!(position.board.squares[5], WHITE_ROOK);
}

#[test]
fn a_user_turn_plays_the_given_move() {
    let mut position = Position::new(starting_board());
    let mv = Move { origin: 12, destination: 28, promotion: None };
    let played = position.user_make_move(Color::White, 2, Some(mv));
    assert_eq!(played, Some(mv));
    assert_eq!(position.board.squares[28], WHITE_PAWN);
    assert_eq!(position.board.squares[12], EMPTY);
    assert_eq!(position.board.side_to_move, Color::Black);
    assert_eq!(position.history.len(), 1);
}

#[test]
fn an_engine_turn_plays_the_searched_move() {
    // the engine plays black; a free rook hangs on d5
    let board = board_with(&[(4, WHITE_KING), (35, WHITE_ROOK), (60, BLACK_KING), (59, BLACK_ROOK)], Color::Black);
    let mut searched = Position::new(board);
    let expected = searched.find_best_move(SearchLimit::Depth(2));
    let mut position = Position::new(board);
    let played = position.user_make_move(Color::White, 2, None);
    assert_eq!(played, expected);
    assert_eq!(played, Some(Move { origin: 59, destination: 35, promotion: None }));
    assert_eq!(position.board.squares[35], BLACK_ROOK);
    assert_eq!(position.board.side_to_move, Color::White);
}

#[test]
fn the_hash_keeps_its_offset_from_the_zobrist_key() {
    let mut position = Position::new(starting_board());
    let offset = position.board.zobrian_hash ^ position.board.calculate_zobric_hash();
    for text in ["e2e4", "d7d5", "e4d5", "g8f6", "f1b5", "c7c6", "g1f3", "c6b5", "e1g1"] {
        assert_eq!(position.apply_move_str(text), Ok(()));
        assert_eq!(position.board.zobrian_hash ^ position.board.calculate_zobric_hash(), offset);
    }
}
