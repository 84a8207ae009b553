use atlas_chess::make_move::{is_undoable, Action};
use atlas_chess::board::Board;
use atlas_chess::game::Position;
use atlas_chess::types::{
    Color, Move, EMPTY, NO_SQUARE, WHITE_KING, WHITE_ROOK, WHITE_PAWN, WHITE_QUEEN, BLACK_ROOK,
    BLACK_PAWN,
};

fn empty_board() -> Board {
    Board {
        piece_bitboards: [0; 12],
        white_pieces: 0,
        black_pieces: 0,
        all_pieces: 0,
        squares: [EMPTY; 64],
        side_to_move: Color::White,
        castling_rights: 0,
        en_passant_square: NO_SQUARE,
        halfmove_clock: 0,
        zobrian_hash: 0,
    }
}

fn place(board: &mut Board, square: u8, piece: u8) {
    board.squares[square as usize] = piece;
}

fn position_with(pieces: &[(u8, u8)]) -> Position {
    let mut board = empty_board();
    for &(square, piece) in pieces {
        place(&mut board, square, piece);
    }
    board.update_bitboards();
    Position::new(board)
}

fn assert_bitboards_consistent(board: &Board) {
    let mut rebuilt = *board;
    rebuilt.update_bitboards();
    assert_eq!(board.piece_bitboards, rebuilt.piece_bitboards);
    assert_eq!(board.white_pieces, rebuilt.white_pieces);
    assert_eq!(board.black_pieces, rebuilt.black_pieces);
    assert_eq!(board.all_pieces, rebuilt.all_pieces);
}

#[test]
fn capture_keeps_all_bitboards_in_sync() {
    let mut pos = position_with(&[(4, WHITE_KING), (0, WHITE_ROOK), (7, BLACK_ROOK)]);
    pos.make_move(Move { origin: 0, destination: 7, promotion: None });

    assert_eq!(pos.board.squares[7], WHITE_ROOK);
    assert_eq!(pos.board.squares[0], EMPTY);
    assert_bitboards_consistent(&pos.board);
}

#[test]
fn promotion_updates_piece_bitboards_not_pawn() {
    let mut pos = position_with(&[(4, WHITE_KING), (52, WHITE_PAWN)]);
    pos.make_move(Move { origin: 52, destination: 60, promotion: Some(WHITE_QUEEN) });

    assert_eq!(pos.board.squares[60], WHITE_QUEEN);
    assert_bitboards_consistent(&pos.board);
}

#[test]
fn castling_moves_rook_and_stays_consistent() {
    let mut pos = position_with(&[(4, WHITE_KING), (7, WHITE_ROOK)]);
    pos.board.castling_rights = 0b0001;
    pos.make_move(Move { origin: 4, destination: 6, promotion: None });

    assert_eq!(pos.board.squares[6], WHITE_KING);
    assert_eq!(pos.board.squares[5], WHITE_ROOK);
    assert_eq!(pos.board.squares[7], EMPTY);
    assert_eq!(pos.board.castling_rights, 0);
    assert_bitboards_consistent(&pos.board);
}

#[test]
fn en_passant_removes_pawn_from_correct_square() {
    let mut pos = position_with(&[(4, WHITE_KING), (36, WHITE_PAWN), (37, BLACK_PAWN)]);
    pos.board.en_passant_square = 45;

    pos.make_move(Move { origin: 36, destination: 45, promotion: None });

    assert_eq!(pos.board.squares[45], WHITE_PAWN);
    assert_eq!(pos.board.squares[37], EMPTY);
    assert_bitboards_consistent(&pos.board);
}

#[test]
fn undo_restores_the_board_and_its_hash() {
    let mut board = empty_board();
    board.initialize_board();
    board.update_bitboards();
    board.zobrian_hash = board.calculate_zobric_hash();
    let mut pos = Position::new(board);
    let before = pos.board;

    pos.make_move(Move { origin: 12, destination: 28, promotion: None });
    assert_eq!(pos.board.en_passant_square, 20);
    assert_eq!(pos.board.side_to_move, Color::Black);
    assert_eq!(pos.board.zobrian_hash, pos.board.calculate_zobric_hash());
    pos.undo_move();

    assert_eq!(pos.board.squares, before.squares);
    assert_eq!(pos.board.piece_bitboards, before.piece_bitboards);
    assert_eq!(pos.board.zobrian_hash, before.zobrian_hash);
    assert_eq!(pos.board.en_passant_square, before.en_passant_square);
    assert_eq!(pos.board.side_to_move, before.side_to_move);
    assert_eq!(pos.history.len(), 0);
}

#[test]
fn undo_without_history_changes_nothing() {
    let mut pos = position_with(&[(4, WHITE_KING)]);
    pos.undo_move();
    assert_eq!(pos.board.squares[4], WHITE_KING);
    assert_eq!(pos.board.side_to_move, Color::White);
}

#[test]
fn undo_puts_back_a_captured_rook() {
    let mut pos = position_with(&[(4, WHITE_KING), (0, WHITE_ROOK), (7, BLACK_ROOK)]);
    pos.make_move(Move { origin: 0, destination: 7, promotion: None });
    pos.undo_move();
    assert_eq!(pos.board.squares[0], WHITE_ROOK);
    assert_eq!(pos.board.squares[7], BLACK_ROOK);
    assert_bitboards_consistent(&pos.board);
}

#[test]
fn played_moves_can_be_taken_back_and_odd_records_cannot() {
    let mut position = Position::new(atlas_chess::play::starting_board());
    position.make_move(Move { origin: 12, destination: 28, promotion: None });
    assert!(position.history_is_undoable());
    let record = position.history[0];
    assert!(is_undoable(&record));
    let odd = Action { moved_piece: 13, ..record };
    assert!(!is_undoable(&odd));
    let odd = Action { previous_en_passant_square: 65, ..record };
    assert!(!is_undoable(&odd));
    let odd = Action { moved_piece: 6, mv: Move { origin: 4, destination: 2 + 8, promotion: None }, ..record };
    assert!(is_undoable(&odd));
    let odd = Action { moved_piece: 6, mv: Move { origin: 4, destination: 6 + 0, promotion: None }, ..record };
    assert!(is_undoable(&odd));
    let odd = Action { moved_piece: 12, mv: Move { origin: 20, destination: 22, promotion: None }, ..record };
    assert!(!is_undoable(&odd));
    position.history.push(odd);
    assert!(!position.history_is_undoable());
}
