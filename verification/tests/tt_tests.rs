use atlas_chess::board::Board;
use atlas_chess::game::{Position, TT_SIZE};
use atlas_chess::types::{Color, Move, EMPTY, NO_SQUARE};
use atlas_chess::zobrist::{Bound, TTEntry};

fn empty_board() -> Board {
    Board {
        piece_bitboards: [0; 12],
        white_pieces: 0,
        black_pieces: 0,
        all_pieces: 0,
        squares: [EMPTY; 64],
        side_to_move: Color::White,
        castling_rights: 0,
        en_passant_square: NO_SQUARE,
        halfmove_clock: 0,
        zobrian_hash: 0,
    }
}

fn dummy_entry(key: u64, depth: u32) -> TTEntry {
    TTEntry {
        key,
        depth,
        bound: Bound::Exact,
        score: 0,
        best_move: Move { origin: 0, destination: 0, promotion: None },
    }
}

#[test]
fn tt_store_keeps_deeper_entry_on_same_key() {
    let mut pos = Position::new(empty_board());
    let hash = 42u64;

    pos.tt_store(hash, dummy_entry(hash, 5));
    pos.tt_store(hash, dummy_entry(hash, 2));

    assert_eq!(pos.tt_probe(hash).unwrap().depth, 5);
}

#[test]
fn tt_store_replaces_same_key_entry_when_at_least_as_deep() {
    let mut pos = Position::new(empty_board());
    let hash = 42u64;

    pos.tt_store(hash, dummy_entry(hash, 5));
    pos.tt_store(hash, dummy_entry(hash, 5));

    assert_eq!(pos.tt_probe(hash).unwrap().depth, 5);
}

#[test]
fn tt_store_overwrites_on_index_collision_regardless_of_depth() {
    let mut pos = Position::new(empty_board());
    let hash_a = 42u64;
    let hash_b = hash_a + TT_SIZE as u64;

    pos.tt_store(hash_a, dummy_entry(hash_a, 20));
    pos.tt_store(hash_b, dummy_entry(hash_b, 1));

    assert_eq!(pos.tt_probe(hash_b).unwrap().depth, 1);
}

#[test]
fn tt_probe_misses_when_slot_holds_a_different_position() {
    let mut pos = Position::new(empty_board());
    let hash_a = 42u64;
    let hash_b = hash_a + TT_SIZE as u64;

    pos.tt_store(hash_a, dummy_entry(hash_a, 10));

    assert!(pos.tt_probe(hash_b).is_none());
}

#[test]
fn a_new_position_has_an_empty_table_of_the_full_size() {
    let pos = Position::new(empty_board());
    assert_eq!(pos.transposition_table.len(), TT_SIZE);
    assert!(pos.tt_probe(0).is_none());
    assert!(pos.history.is_empty());
    assert_eq!(pos.moves_counter, 0);
}

#[test]
fn an_empty_table_stores_nothing() {
    let mut pos = Position::new(empty_board());
    pos.transposition_table = Vec::new();
    pos.tt_store(7, dummy_entry(7, 3));
    assert!(pos.tt_probe(7).is_none());
}

#[test]
fn table_scores_are_checked_against_the_search_range() {
    let mut position = Position::new(atlas_chess::play::starting_board());
    assert!(position.table_scores_bounded());
    let entry = |score: i32| TTEntry {
        key: 3,
        depth: 1,
        bound: Bound::Exact,
        score,
        best_move: Move { origin: 12, destination: 28, promotion: None },
    };
    position.transposition_table[3] = Some(entry(2_000_000));
    assert!(!position.table_scores_bounded());
    position.transposition_table[3] = Some(entry(-1_999_999));
    assert!(position.table_scores_bounded());
}
