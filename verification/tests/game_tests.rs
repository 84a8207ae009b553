use atlas_chess::board::Board;
use atlas_chess::game::{DrawReason, GameStatus, MoveError, Position};
use atlas_chess::types::{
    Color, Move, EMPTY, NO_SQUARE, WHITE_KING, WHITE_ROOK, WHITE_QUEEN, WHITE_KNIGHT, WHITE_PAWN,
    BLACK_KING, BLACK_QUEEN,
};

fn empty_board() -> Board {
    Board {
        piece_bitboards: [0; 12],
        white_pieces: 0,
        black_pieces: 0,
        all_pieces: 0,
        squares: [EMPTY; 64],
        side_to_move: Color::White,
        castling_rights: 0,
        en_passant_square: NO_SQUARE,
        halfmove_clock: 0,
        zobrian_hash: 0,
    }
}

fn position_with(pieces: &[(u8, u8)], side_to_move: Color) -> Position {
    let mut board = empty_board();
    for &(square, piece) in pieces {
        board.squares[square as usize] = piece;
    }
    board.side_to_move = side_to_move;
    board.update_bitboards();
    Position::new(board)
}

fn starting_position() -> Position {
    let mut board = empty_board();
    board.castling_rights = 15;
    board.initialize_board();
    board.update_bitboards();
    Position::new(board)
}

#[test]
fn squares_are_named_and_read_back() {
    assert_eq!(Position::square_to_str(0), "a1");
    assert_eq!(Position::square_to_str(12), "e2");
    assert_eq!(Position::square_to_str(63), "h8");
    assert_eq!(Position::square_to_str(255), "h32");
    for square in 0..64u8 {
        assert_eq!(Position::square_from_str(&Position::square_to_str(square)), Some(square));
    }
    assert_eq!(Position::square_from_str("E2"), Some(12));
    assert_eq!(Position::square_from_str("i1"), None);
    assert_eq!(Position::square_from_str("a9"), None);
    assert_eq!(Position::square_from_str("a"), None);
    assert_eq!(Position::square_from_str("a1b"), None);
}

#[test]
fn moves_are_read_from_text() {
    let pos = starting_position();
    assert_eq!(pos.move_from_string("  e2e4\n"), Some(Move { origin: 12, destination: 28, promotion: None }));
    assert_eq!(
        pos.move_from_string("e7e8Q"),
        Some(Move { origin: 52, destination: 60, promotion: Some(WHITE_QUEEN) })
    );
    assert_eq!(pos.move_from_string("e7e8k"), None);
    assert_eq!(pos.move_from_string("e2e"), None);
    assert_eq!(pos.move_from_string("e2e4q5"), None);
}

#[test]
fn apply_move_str_plays_legal_moves_only() {
    let mut pos = starting_position();
    assert_eq!(pos.apply_move_str("e2e5"), Err(MoveError::IllegalMove));
    assert_eq!(pos.board.squares[12], WHITE_PAWN);
    assert_eq!(pos.history.len(), 0);

    assert_eq!(pos.apply_move_str("e2e4"), Ok(()));
    assert_eq!(pos.board.squares[28], WHITE_PAWN);
    assert_eq!(pos.board.squares[12], EMPTY);
    assert_eq!(pos.board.side_to_move, Color::Black);
    assert_eq!(pos.history.len(), 1);

    assert_eq!(pos.apply_move_str("e2e4"), Err(MoveError::IllegalMove));
    assert_eq!(pos.apply_move_str("g8f6"), Ok(()));
}

#[test]
fn promotion_text_names_the_movers_piece() {
    let mut pos = position_with(&[(4, WHITE_KING), (52, WHITE_PAWN), (0, BLACK_KING)], Color::White);
    assert_eq!(pos.apply_move_str("e7e8n"), Ok(()));
    assert_eq!(pos.board.squares[60], WHITE_KNIGHT);
}

#[test]
fn record_real_move_remembers_the_position() {
    let mut pos = starting_position();
    let hash = pos.board.zobrian_hash;
    pos.record_real_move();
    assert_eq!(pos.position_history, vec![hash]);
    assert_eq!(pos.moves_counter, 1);
}

#[test]
fn the_starting_position_is_in_progress() {
    let pos = starting_position();
    assert_eq!(pos.game_status(), GameStatus::InProgress);
}

#[test]
fn mate_and_stalemate_end_the_game() {
    let mated = position_with(
        &[(16, WHITE_KING), (48, WHITE_ROOK), (57, WHITE_ROOK), (63, BLACK_KING)],
        Color::Black,
    );
    assert_eq!(mated.game_status(), GameStatus::WhiteWon);

    let stalemate = position_with(&[(50, WHITE_KING), (41, WHITE_QUEEN), (56, BLACK_KING)], Color::Black);
    assert_eq!(stalemate.game_status(), GameStatus::Drawn(DrawReason::Stalemate));

    let white_mated = position_with(
        &[(7, WHITE_KING), (15, BLACK_QUEEN), (22, BLACK_KING)],
        Color::White,
    );
    assert_eq!(white_mated.game_status(), GameStatus::BlackWon);
}

#[test]
fn draw_rules_are_applied_in_order() {
    let mut pos = position_with(&[(4, WHITE_KING), (0, WHITE_ROOK), (60, BLACK_KING)], Color::White);
    pos.board.halfmove_clock = 100;
    assert_eq!(pos.game_status(), GameStatus::Drawn(DrawReason::FiftyMoveRule));
    pos.board.halfmove_clock = 99;
    assert_eq!(pos.game_status(), GameStatus::InProgress);

    let lone_knight = position_with(&[(4, WHITE_KING), (1, WHITE_KNIGHT), (60, BLACK_KING)], Color::White);
    assert_eq!(lone_knight.game_status(), GameStatus::Drawn(DrawReason::InsufficientMaterial));
    let kings = position_with(&[(4, WHITE_KING), (60, BLACK_KING)], Color::White);
    assert_eq!(kings.game_status(), GameStatus::Drawn(DrawReason::InsufficientMaterial));

    let mut repeated = position_with(&[(4, WHITE_KING), (0, WHITE_ROOK), (60, BLACK_KING)], Color::White);
    let hash = repeated.board.zobrian_hash;
    repeated.position_history = vec![hash, 1, hash];
    assert_eq!(repeated.game_status(), GameStatus::InProgress);
    repeated.position_history.push(hash);
    assert_eq!(repeated.game_status(), GameStatus::Drawn(DrawReason::ThreefoldRepetition));
}

#[test]
fn a_clock_past_one_hundred_still_draws() {
    let mut pos = position_with(&[(4, WHITE_KING), (0, WHITE_ROOK), (60, BLACK_KING)], Color::White);
    pos.board.halfmove_clock = 150;
    assert_eq!(pos.game_status(), GameStatus::Drawn(DrawReason::FiftyMoveRule));
    pos.board.halfmove_clock = 255;
    assert_eq!(pos.game_status(), GameStatus::Drawn(DrawReason::FiftyMoveRule));
}

#[test]
fn only_algebraic_square_names_are_read() {
    assert_eq!(Position::square_from_str("E2"), Some(12));
    assert_eq!(Position::square_from_str("h8"), Some(63));
    assert_eq!(Position::square_from_str("š1"), None);
    assert_eq!(Position::square_from_str("a\u{131}"), None);
    assert_eq!(Position::square_from_str("e22"), None);
    assert_eq!(Position::square_from_str("i1"), None);
    assert_eq!(Position::square_from_str("a9"), None);
}
