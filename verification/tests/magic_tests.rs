use atlas_chess::bits::count_ones;
use atlas_chess::magic::{bishop_mask, calculate_all_bishop_masks, calculate_all_rook_masks, count_bits, find_bishop_magic, find_rook_magic, rook_mask, XorShift64, B_BITS, R_BITS};
use atlas_chess::masks::{bishop_attacks_bruteforce, calculate_king_attacks, calculate_knight_attacks, calculate_offsets, king_attacks, knight_attacks, index_to_blockers, rook_attacks_bruteforce, set_blockers};

fn reference_next(x: u64) -> u64 {
    let mut x = x;
    x ^= x << 13;
    x ^= x >> 7;
    x ^= x << 17;
    x
}

#[test]
fn xorshift_follows_its_three_shifts() {
    let mut rng = XorShift64::new(123456789);
    let a = reference_next(123456789);
    assert_eq!(rng.next(), a);
    assert_eq!(rng.state, a);
    let b = reference_next(a);
    let c = reference_next(b);
    let d = reference_next(c);
    assert_eq!(rng.few_bits(), b & c & d);
    assert_eq!(rng.state, d);
}

#[test]
fn bits_are_counted() {
    assert_eq!(count_bits(0), 0);
    assert_eq!(count_bits(u64::MAX), 64);
    assert_eq!(count_bits(0b1011_0000), 3);
    assert_eq!(count_ones(0x8000_0000_0000_0001), 2);
}

#[test]
fn relevance_masks_leave_out_the_edges() {
    assert_eq!(rook_mask(0), 0x0001_0101_0101_017E);
    assert_eq!(bishop_mask(0), 0x0040_2010_0804_0200);
    assert_eq!(rook_mask(27).count_ones(), 10);
    for square in 0..64 {
        assert_eq!(rook_mask(square).count_ones() as i32, R_BITS[square as usize]);
        assert_eq!(bishop_mask(square).count_ones() as i32, B_BITS[square as usize]);
    }
}

#[test]
fn blockers_follow_the_bits_of_the_index() {
    let mask = 0b1010_0110u64;
    assert_eq!(set_blockers(0, mask), 0);
    assert_eq!(set_blockers(0b1111, mask), mask);
    assert_eq!(set_blockers(0b0001, mask), 0b0000_0010);
    assert_eq!(set_blockers(0b1010, mask), 0b1000_0100);
    assert_eq!(index_to_blockers(0b1111, 2, mask), 0b0000_0110);
}

#[test]
fn offsets_add_up_the_table_sizes() {
    let mut shifts = [54u32; 64];
    shifts[0] = 52;
    let offsets = calculate_offsets(&shifts);
    assert_eq!(offsets[0], 0);
    assert_eq!(offsets[1], 4096);
    assert_eq!(offsets[2], 4096 + 1024);
    assert_eq!(offsets[63], 4096 + 62 * 1024);
}

fn check_magic(square: i32, bits: i32, magic: u64, mask: u64, rook: bool) {
    let n = 1usize << bits;
    let mut used = vec![0u64; n];
    for i in 0..n {
        let blockers = index_to_blockers(i as i32, bits, mask);
        let attacks = if rook {
            rook_attacks_bruteforce(square, blockers)
        } else {
            bishop_attacks_bruteforce(square, blockers)
        };
        assert_ne!(attacks, 0);
        let index = (blockers.wrapping_mul(magic) >> (64 - bits)) as usize;
        assert!(used[index] == 0 || used[index] == attacks);
        used[index] = attacks;
    }
}

#[test]
fn found_magics_have_no_destructive_collision() {
    let mut rng = XorShift64::new(123456789);
    let magic = find_bishop_magic(0, B_BITS[0], &mut rng).expect("a bishop magic for a1");
    check_magic(0, B_BITS[0], magic, bishop_mask(0), false);
    let magic = find_rook_magic(27, R_BITS[27], &mut rng).expect("a rook magic for d4");
    check_magic(27, R_BITS[27], magic, rook_mask(27), true);
}

#[test]
fn whole_board_mask_tables_agree_with_the_single_square_masks() {
    let rooks = calculate_all_rook_masks();
    let bishops = calculate_all_bishop_masks();
    for square in 0..64 {
        assert_eq!(rooks[square], rook_mask(square as i32));
        assert_eq!(bishops[square], bishop_mask(square as i32));
    }
    assert_eq!(rooks[0], 0x0001_0101_0101_017E);
    assert_eq!(bishops[0], 0x0040_2010_0804_0200);
}

#[test]
fn knight_and_king_tables_hold_the_jumps_and_steps() {
    let knights = calculate_knight_attacks();
    let kings = calculate_king_attacks();
    // a knight on a1 reaches b3 and c2; one on e4 reaches eight squares
    assert_eq!(knights[0], (1u64 << 17) | (1u64 << 10));
    assert_eq!(knights[28].count_ones(), 8);
    // a king on a1 reaches a2, b1 and b2; one on e4 reaches eight squares
    assert_eq!(kings[0], (1u64 << 8) | (1u64 << 1) | (1u64 << 9));
    assert_eq!(kings[28].count_ones(), 8);
    for square in 0..64u8 {
        assert_eq!(knights[square as usize], knight_attacks(square));
        assert_eq!(kings[square as usize], king_attacks(square));
    }
}
