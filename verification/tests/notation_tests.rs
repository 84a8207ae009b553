use atlas_chess::board::Board;
use atlas_chess::game::Position;
use atlas_chess::notation::{describe_move, piece_letter};
use atlas_chess::types::{
    Color, Move, EMPTY, NO_SQUARE, WHITE_KING, WHITE_KNIGHT, WHITE_PAWN, WHITE_QUEEN, WHITE_ROOK,
    BLACK_KING, BLACK_PAWN, BLACK_ROOK,
};

fn empty_board() -> Board {
    Board {
        piece_bitboards: [0; 12],
        white_pieces: 0,
        black_pieces: 0,
        all_pieces: 0,
        squares: [EMPTY; 64],
        side_to_move: Color::White,
        castling_rights: 0,
        en_passant_square: NO_SQUARE,
        halfmove_clock: 0,
        zobrian_hash: 0,
    }
}

fn position_with(pieces: &[(u8, u8)], side_to_move: Color) -> Position {
    let mut board = empty_board();
    for &(square, piece) in pieces {
        board.squares[square as usize] = piece;
    }
    board.side_to_move = side_to_move;
    board.update_bitboards();
    Position::new(board)
}

fn play(pos: &mut Position, mv: Move, letter: Option<char>) -> String {
    let before = pos.board.squares;
    pos.make_move(mv);
    describe_move(before, mv.origin, mv.destination, letter, pos)
}

#[test]
fn piece_letters() {
    assert_eq!(piece_letter(WHITE_KNIGHT), "N");
    assert_eq!(piece_letter(BLACK_ROOK), "R");
    assert_eq!(piece_letter(WHITE_QUEEN), "Q");
    assert_eq!(piece_letter(BLACK_KING), "K");
    assert_eq!(piece_letter(WHITE_PAWN), "");
    assert_eq!(piece_letter(EMPTY), "");
}

#[test]
fn quiet_moves_and_captures() {
    let mut board = empty_board();
    board.castling_rights = 15;
    board.initialize_board();
    board.update_bitboards();
    let mut pos = Position::new(board);
    assert_eq!(play(&mut pos, Move { origin: 12, destination: 28, promotion: None }, None), "e4");
    assert_eq!(play(&mut pos, Move { origin: 51, destination: 35, promotion: None }, None), "d5");
    assert_eq!(play(&mut pos, Move { origin: 28, destination: 35, promotion: None }, None), "exd5");
    assert_eq!(play(&mut pos, Move { origin: 62, destination: 45, promotion: None }, None), "Nf6");
    assert_eq!(play(&mut pos, Move { origin: 5, destination: 33, promotion: None }, None), "Bb5+");
}

#[test]
fn castles_mates_and_promotions() {
    let mut pos = position_with(&[(4, WHITE_KING), (7, WHITE_ROOK), (60, BLACK_KING)], Color::White);
    pos.board.castling_rights = 1;
    assert_eq!(play(&mut pos, Move { origin: 4, destination: 6, promotion: None }, None), "O-O");

    let mut pos = position_with(&[(16, WHITE_KING), (48, WHITE_ROOK), (1, WHITE_ROOK), (63, BLACK_KING)], Color::White);
    assert_eq!(play(&mut pos, Move { origin: 1, destination: 57, promotion: None }, None), "Rb8#");

    let mut pos = position_with(&[(0, WHITE_KING), (52, WHITE_PAWN), (7, BLACK_KING), (8, BLACK_PAWN)], Color::White);
    assert_eq!(
        play(&mut pos, Move { origin: 52, destination: 60, promotion: Some(WHITE_QUEEN) }, Some('Q')),
        "e8=Q"
    );
}

#[test]
fn a_castle_that_gives_check_carries_the_mark() {
    // after O-O the rook on f1 checks the king on f8 down the open f-file
    let mut pos = position_with(&[(4, WHITE_KING), (7, WHITE_ROOK), (61, BLACK_KING)], Color::White);
    pos.board.castling_rights = 1;
    assert_eq!(play(&mut pos, Move { origin: 4, destination: 6, promotion: None }, None), "O-O+");
}
