use atlas_chess::book::BookEntry;
use atlas_chess::board::Board;
use atlas_chess::game::Position;
use atlas_chess::search::SearchLimit;
use atlas_chess::types::{
    Color, Move, EMPTY, NO_SQUARE, WHITE_KING, WHITE_ROOK, WHITE_QUEEN, WHITE_PAWN, BLACK_KING,
    BLACK_ROOK, BLACK_PAWN,
};

fn empty_board() -> Board {
    Board {
        piece_bitboards: [0; 12],
        white_pieces: 0,
        black_pieces: 0,
        all_pieces: 0,
        squares: [EMPTY; 64],
        side_to_move: Color::White,
        castling_rights: 0,
        en_passant_square: NO_SQUARE,
        halfmove_clock: 0,
        zobrian_hash: 0,
    }
}

fn position_with(pieces: &[(u8, u8)], side_to_move: Color) -> Position {
    let mut board = empty_board();
    for &(square, piece) in pieces {
        board.squares[square as usize] = piece;
    }
    board.side_to_move = side_to_move;
    board.update_bitboards();
    Position::new(board)
}

#[test]
fn finds_mate_in_one() {
    let mut pos = position_with(
        &[(16, WHITE_KING), (48, WHITE_ROOK), (1, WHITE_ROOK), (63, BLACK_KING)],
        Color::White,
    );

    let best = pos.find_best_move(SearchLimit::Depth(1));

    assert_eq!(best, Some(Move { origin: 1, destination: 57, promotion: None }));
}

#[test]
fn recognizes_stalemate_as_a_draw() {
    let mut pos = position_with(
        &[(50, WHITE_KING), (41, WHITE_QUEEN), (56, BLACK_KING)],
        Color::Black,
    );

    assert!(pos.board.all_legal_moves().is_empty());
    assert!(!pos.board.is_in_check(Color::Black));
    assert_eq!(pos.find_best_move(SearchLimit::Depth(1)), None);

    let score = pos.negamax(1, 0, -10_000_000, 10_000_000);
    assert_eq!(score, 0);
}

#[test]
fn prefers_a_free_capture_over_a_quiet_move() {
    let mut pos = position_with(
        &[(4, WHITE_KING), (27, WHITE_QUEEN), (8, WHITE_PAWN), (56, BLACK_KING), (63, BLACK_ROOK)],
        Color::White,
    );

    let best = pos.find_best_move(SearchLimit::Depth(2));

    assert_eq!(best, Some(Move { origin: 27, destination: 63, promotion: None }));
}

#[test]
fn a_mated_side_scores_the_mate_distance() {
    // Black king h8, white rooks b8 and a7, white king a3: black to move is mated.
    let mut pos = position_with(
        &[(16, WHITE_KING), (48, WHITE_ROOK), (57, WHITE_ROOK), (63, BLACK_KING)],
        Color::Black,
    );
    assert!(pos.board.is_in_check(Color::Black));
    assert_eq!(pos.negamax(3, 2, -10_000_000, 10_000_000), -1_000_000 + 2);
}

#[test]
fn a_position_seen_twice_scores_as_a_draw() {
    let mut pos = position_with(&[(4, WHITE_KING), (27, WHITE_QUEEN), (56, BLACK_KING)], Color::White);
    let hash = pos.board.zobrian_hash;
    pos.position_history.push(hash);
    pos.search_path_hashes.push(hash);
    assert_eq!(pos.negamax(2, 0, -10_000_000, 10_000_000), 0);
}

#[test]
fn a_leaf_is_scored_by_the_evaluation() {
    let mut pos = position_with(&[(4, WHITE_KING), (27, WHITE_QUEEN), (56, BLACK_KING)], Color::White);
    let expected = pos.board.evaluate(0);
    assert_eq!(pos.negamax(0, 0, -10_000_000, 10_000_000), expected);
}

#[test]
fn the_search_leaves_the_position_as_it_found_it() {
    let mut pos = position_with(
        &[(4, WHITE_KING), (27, WHITE_QUEEN), (8, WHITE_PAWN), (56, BLACK_KING), (63, BLACK_ROOK)],
        Color::White,
    );
    let before = pos.board;
    let _ = pos.find_best_move(SearchLimit::Depth(2));
    assert_eq!(pos.board.squares, before.squares);
    assert_eq!(pos.board.piece_bitboards, before.piece_bitboards);
    assert_eq!(pos.board.zobrian_hash, before.zobrian_hash);
    assert_eq!(pos.history.len(), 0);
    assert!(pos.search_path_hashes.is_empty());
}

#[test]
fn captures_are_ordered_first_by_victim_value() {
    let pos = position_with(
        &[(4, WHITE_KING), (27, WHITE_QUEEN), (56, BLACK_KING), (63, BLACK_ROOK), (35, BLACK_PAWN)],
        Color::White,
    );
    let mut moves = pos.board.all_legal_moves();
    pos.order_moves(&mut moves);
    assert_eq!(moves[0], Move { origin: 27, destination: 63, promotion: None });
    assert_eq!(moves[1], Move { origin: 27, destination: 35, promotion: None });
    assert!(!pos.board.is_capture(&moves[2]));
}

#[test]
fn a_narrow_window_keeps_the_value_or_bounds_it() {
    let pieces = [(4, WHITE_KING), (35, WHITE_ROOK), (60, BLACK_KING), (49, BLACK_PAWN)];
    let mut wide = position_with(&pieces, Color::Black);
    let v = wide.negamax(2, 0, -2_000_000, 2_000_000);
    // a window around the value gives the value
    let mut around = position_with(&pieces, Color::Black);
    assert_eq!(around.negamax(2, 0, v - 10, v + 10), v);
    // a window above the value fails low: the result lies between the value and alpha
    let mut above = position_with(&pieces, Color::Black);
    let low = above.negamax(2, 0, v + 1, v + 100);
    assert!(v <= low && low <= v + 1);
    // a window below the value fails high: the result lies between beta and the value
    let mut below = position_with(&pieces, Color::Black);
    let high = below.negamax(2, 0, v - 100, v - 1);
    assert!(v - 1 <= high && high <= v);
}

fn mate_in_one_position() -> Position {
    position_with(
        &[(16, WHITE_KING), (48, WHITE_ROOK), (1, WHITE_ROOK), (63, BLACK_KING)],
        Color::White,
    )
}

#[test]
fn the_book_reply_is_played_before_any_search() {
    let book = [
        BookEntry { key: 77, origin: 16, destination: 17, promotion: 0, weight: 3 },
        BookEntry { key: 77, origin: 16, destination: 24, promotion: 0, weight: 9 },
        BookEntry { key: 5, origin: 1, destination: 2, promotion: 0, weight: 50 },
    ];
    let mut pos = mate_in_one_position();
    let best = pos.find_best_move_with_book(SearchLimit::Depth(1), &book, 77);
    assert_eq!(best, Some(Move { origin: 16, destination: 24, promotion: None }));
}

#[test]
fn without_a_book_reply_the_search_decides() {
    let book = [
        BookEntry { key: 5, origin: 1, destination: 2, promotion: 0, weight: 50 },
        // Illegal here: the king cannot jump to h8.
        BookEntry { key: 77, origin: 16, destination: 63, promotion: 0, weight: 9 },
    ];
    let mut pos = mate_in_one_position();
    let best = pos.find_best_move_with_book(SearchLimit::Depth(1), &book, 77);
    assert_eq!(best, Some(Move { origin: 1, destination: 57, promotion: None }));
    let mut pos = mate_in_one_position();
    let best = pos.find_best_move_with_book(SearchLimit::Depth(1), &book, 6);
    assert_eq!(best, Some(Move { origin: 1, destination: 57, promotion: None }));
}
