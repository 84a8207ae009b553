use atlas_chess::magic::{bishop_mask, rook_mask, XorShift64};
use atlas_chess::masks::{bishop_attacks_bruteforce, calculate_offsets, rook_attacks_bruteforce, set_blockers};
use atlas_chess::tables::{
    calculate_all_bishop_attacks, calculate_all_rook_attacks, SliderTables, BISHOP_MAGICS,
    BISHOP_SHIFTS, BISHOP_TABLE_SIZE, ROOK_MAGICS, ROOK_SHIFTS, ROOK_TABLE_SIZE,
};

#[test]
fn the_tables_have_one_entry_per_blocker_set() {
    assert_eq!(calculate_all_rook_attacks().len(), ROOK_TABLE_SIZE);
    assert_eq!(calculate_all_bishop_attacks().len(), BISHOP_TABLE_SIZE);
    let rook_offsets = calculate_offsets(&ROOK_SHIFTS);
    let bishop_offsets = calculate_offsets(&BISHOP_SHIFTS);
    assert_eq!(rook_offsets[63] + (1usize << (64 - ROOK_SHIFTS[63])), ROOK_TABLE_SIZE);
    assert_eq!(bishop_offsets[63] + (1usize << (64 - BISHOP_SHIFTS[63])), BISHOP_TABLE_SIZE);
    for square in 0..64 {
        assert_eq!(rook_mask(square as i32).count_ones(), 64 - ROOK_SHIFTS[square]);
        assert_eq!(bishop_mask(square as i32).count_ones(), 64 - BISHOP_SHIFTS[square]);
    }
}

#[test]
fn every_blocker_set_reads_back_its_attacks() {
    let tables = SliderTables::new();
    for square in 0..64u8 {
        let rook_relevant = rook_mask(square as i32);
        for index in 0..(1i32 << rook_relevant.count_ones()) {
            let blockers = set_blockers(index, rook_relevant);
            assert_eq!(
                tables.rook_attacks(square, blockers),
                rook_attacks_bruteforce(square as i32, blockers)
            );
        }
        let bishop_relevant = bishop_mask(square as i32);
        for index in 0..(1i32 << bishop_relevant.count_ones()) {
            let blockers = set_blockers(index, bishop_relevant);
            assert_eq!(
                tables.bishop_attacks(square, blockers),
                bishop_attacks_bruteforce(square as i32, blockers)
            );
        }
    }
}

#[test]
fn whole_occupancies_read_back_their_attacks() {
    let tables = SliderTables::new();
    let mut rng = XorShift64::new(2024);
    for _ in 0..200 {
        let occupancy = rng.next() & rng.next();
        for square in 0..64u8 {
            assert_eq!(
                tables.rook_attacks(square, occupancy),
                rook_attacks_bruteforce(square as i32, occupancy)
            );
            assert_eq!(
                tables.bishop_attacks(square, occupancy),
                bishop_attacks_bruteforce(square as i32, occupancy)
            );
        }
    }
}

#[test]
fn a_rook_in_the_corner_reads_its_open_lines() {
    let tables = SliderTables::new();
    // a rook on a1 on an empty board sees the a-file and the first rank
    assert_eq!(tables.rook_attacks(0, 0), 0x0101_0101_0101_01FE);
    // a bishop on d4 with a blocker on f6 stops there
    let f6 = 1u64 << 45;
    let attacks = tables.bishop_attacks(27, f6);
    assert!(attacks & f6 != 0);
    assert!(attacks & (1u64 << 54) == 0);
    assert_eq!(ROOK_MAGICS[0], 0x0080001020804000);
    assert_eq!(BISHOP_MAGICS[63], 0x40a0211202040820);
}
