use atlas_chess::board::Board;
use atlas_chess::book::{book_move, parse_book, remap_castling_destination, to_move, BookEntry, OpeningBookError};
use atlas_chess::types::{Color, Move, BLACK_QUEEN, NO_SQUARE, WHITE_KNIGHT};

#[test]
fn remaps_all_four_polyglot_castling_encodings() {
    let cases = [
        (4u8, 7u8, Color::White, 6u8),
        (4, 0, Color::White, 2),
        (60, 63, Color::Black, 62),
        (60, 56, Color::Black, 58),
    ];

    for (origin, destination, side_to_move, expected_destination) in cases {
        let entry = BookEntry { key: 0, origin, destination, promotion: 0, weight: 1 };
        let mv = to_move(&entry, side_to_move).expect("promotion 0 always converts");

        assert_eq!(mv, Move { origin, destination: expected_destination, promotion: None });
    }
}

#[test]
fn leaves_ordinary_moves_unaffected_by_the_castling_remap() {
    let entry = BookEntry { key: 0, origin: 12, destination: 28, promotion: 0, weight: 1 };
    let mv = to_move(&entry, Color::White).expect("promotion 0 always converts");

    assert_eq!(mv, Move { origin: 12, destination: 28, promotion: None });
}

#[test]
fn promotion_codes_resolve_for_the_side_to_move() {
    let entry = BookEntry { key: 0, origin: 52, destination: 60, promotion: 1, weight: 1 };
    assert_eq!(to_move(&entry, Color::White).unwrap().promotion, Some(WHITE_KNIGHT));
    let entry = BookEntry { key: 0, origin: 12, destination: 4, promotion: 4, weight: 1 };
    assert_eq!(to_move(&entry, Color::Black).unwrap().promotion, Some(BLACK_QUEEN));
    let entry = BookEntry { key: 0, origin: 12, destination: 4, promotion: 5, weight: 1 };
    assert_eq!(to_move(&entry, Color::Black), None);
}

#[test]
fn remap_keeps_other_destinations() {
    assert_eq!(remap_castling_destination(4, 5), 5);
    assert_eq!(remap_castling_destination(12, 7), 7);
    assert_eq!(remap_castling_destination(60, 63), 62);
}

fn record(key: u64, mv: u16, weight: u16) -> Vec<u8> {
    let mut bytes = Vec::new();
    bytes.extend_from_slice(&key.to_be_bytes());
    bytes.extend_from_slice(&mv.to_be_bytes());
    bytes.extend_from_slice(&weight.to_be_bytes());
    bytes.extend_from_slice(&[0, 0, 0, 0]);
    bytes
}

#[test]
fn parses_big_endian_records() {
    // e2e4: to e4 (file 4, rank 3), from e2 (file 4, rank 1).
    let mv: u16 = 4 | (3 << 3) | (4 << 6) | (1 << 9);
    let mut bytes = record(0x463B_9618_1691_FC9C, mv, 7);
    bytes.extend(record(1, (1 << 12) | 63, 0xFFFF));
    let entries = parse_book(&bytes).expect("two whole records");
    assert_eq!(entries.len(), 2);
    assert_eq!(
        entries[0],
        BookEntry { key: 0x463B_9618_1691_FC9C, origin: 12, destination: 28, promotion: 0, weight: 7 }
    );
    assert_eq!(entries[1], BookEntry { key: 1, origin: 0, destination: 63, promotion: 1, weight: 0xFFFF });
}

#[test]
fn refuses_a_length_that_is_not_whole_records() {
    let bytes = vec![0u8; 17];
    match parse_book(&bytes) {
        Err(OpeningBookError::MalformedLength(n)) => assert_eq!(n, 17),
        other => panic!("unexpected {:?}", other),
    }
    assert_eq!(parse_book(&[]).unwrap().len(), 0);
}

fn starting_board() -> Board {
    let mut board = Board {
        squares: [0; 64],
        piece_bitboards: [0; 12],
        white_pieces: 0,
        black_pieces: 0,
        all_pieces: 0,
        side_to_move: Color::White,
        castling_rights: 15,
        en_passant_square: NO_SQUARE,
        halfmove_clock: 0,
        zobrian_hash: 0,
    };
    board.initialize_board();
    board.update_bitboards();
    board
}

#[test]
fn book_move_takes_the_last_of_the_heaviest_legal_entries() {
    let board = starting_board();
    let book = vec![
        BookEntry { key: 9, origin: 12, destination: 28, promotion: 0, weight: 5 },
        BookEntry { key: 9, origin: 11, destination: 27, promotion: 0, weight: 8 },
        BookEntry { key: 3, origin: 6, destination: 21, promotion: 0, weight: 100 },
        BookEntry { key: 9, origin: 6, destination: 21, promotion: 0, weight: 8 },
    ];
    assert_eq!(book_move(&board, 0, &book, 9), Some(Move { origin: 6, destination: 21, promotion: None }));
    assert_eq!(book_move(&board, 20, &book, 9), None);
    assert_eq!(book_move(&board, 0, &book, 4), None);
    let illegal = vec![BookEntry { key: 9, origin: 12, destination: 36, promotion: 0, weight: 1 }];
    assert_eq!(book_move(&board, 0, &illegal, 9), None);
}

#[test]
fn a_read_failure_becomes_a_book_error() {
    let failure = std::io::Error::new(std::io::ErrorKind::NotFound, "no book here");
    let error: OpeningBookError = failure.into();
    assert!(matches!(error, OpeningBookError::Io(_)));
}
