//! Magic attack tables of the sliding pieces: for every square and every set of blockers on
//! its relevant squares, the squares a rook or bishop attacks, stored at the entry the
//! square's magic number sends the blocker set to.
use vstd::prelude::*;
use vstd::arithmetic::power2::pow2;
use crate::bits::{
    has_bit, single, popcount, count_below, count_ones, lemma_bits_ext, lemma_bit_and, lemma_bit_zero,
    lemma_bit_or_single,
};
use crate::play::{walk, direction, ray_step, lemma_ray_hits_step, lemma_coords, lemma_square_at_coords};
use crate::types::{rank_of, file_of, square_at, on_board};
use crate::evaluate::{rook_attack_set, bishop_attack_set, is_rook_attack_set, is_bishop_attack_set};
use crate::magic::{
    rook_relevant, bishop_relevant, is_relevance_mask, relevance_mask, magic_slot, slot_of,
    lemma_slot_range, lemma_relevance_mask_unique, calculate_all_rook_masks,
    calculate_all_bishop_masks,
};
use crate::masks::{
    offset_sum, lemma_offset_sum_monotone, picked_blocker, set_blockers, calculate_offsets,
    rook_attacks_bruteforce, bishop_attacks_bruteforce, ray, rook_ray, bishop_ray, index_selects,
    lemma_count_below_strict,
};

verus! {

/// Magic number of a rook on each square.
pub const ROOK_MAGICS: [u64; 64] = [
    0x0080001020804000, 0x0040001000200048, 0x8200204200801009, 0x0100050008201002,
    0xa080028800808400, 0x0600020010080415, 0x1100040082000100, 0x0200108040240a01,
    0x0850800020400082, 0x0152002042108100, 0x800a001200244086, 0x0000801000800800,
    0x0001001008020500, 0x0000800400800200, 0x1104000402086110, 0x010a000200408104,
    0x0010218002884001, 0x0000808040002000, 0x0050808020001000, 0x8400210009001000,
    0x0108008004000880, 0x0084808004000200, 0x0c00040010080201, 0x4000020000a1004c,
    0x0001400180006080, 0x0520820200410021, 0x8020008080100020, 0x0010040040400800,
    0x2004000480080080, 0x0000020080040080, 0x8008108400010842, 0x0000800280014500,
    0x061040018c800422, 0x0000400084802010, 0x5410104101002000, 0xd010080080801000,
    0x8010040801001100, 0x2110800400800200, 0x1401000401000200, 0x0212004102002084,
    0x6000400080008020, 0x0030004820004000, 0x0110801200420022, 0x8000090010010021,
    0x0388000811010004, 0x0001000400090002, 0x04a0100108040002, 0x1040804400820001,
    0x1094214080090100, 0x1040002010080120, 0x0220801200204200, 0x0300100021000900,
    0x0242002008041200, 0x2000040002008080, 0xa030021108501400, 0x2001140081284200,
    0x0824800100496211, 0x0100810040002011, 0x040820000b005043, 0x1004040900201001,
    0x2083000800040211, 0x0009001400020803, 0x80e0008228100104, 0x8900044285003402,
];

/// Shift of a rook's slot on each square: 64 less the number of its relevant squares.
pub const ROOK_SHIFTS: [u32; 64] = [
    52, 53, 53, 53, 53, 53, 53, 52,
    53, 54, 54, 54, 54, 54, 54, 53,
    53, 54, 54, 54, 54, 54, 54, 53,
    53, 54, 54, 54, 54, 54, 54, 53,
    53, 54, 54, 54, 54, 54, 54, 53,
    53, 54, 54, 54, 54, 54, 54, 53,
    53, 54, 54, 54, 54, 54, 54, 53,
    52, 53, 53, 53, 53, 53, 53, 52,
];

/// Magic number of a bishop on each square.
pub const BISHOP_MAGICS: [u64; 64] = [
    0x40022202041c0080, 0x0004100092008240, 0x0022480040824040, 0x4402408d00100880,
    0x0551104002008042, 0x0000882008406000, 0x000200b004100000, 0x4021120809043000,
    0x8000101082a80040, 0x2080090208005900, 0x01980802006a0000, 0x0002041046001000,
    0x6000220210100000, 0xb040220804060000, 0x4000444a02104020, 0x4060010101012004,
    0x082040302081810c, 0x001100080200a400, 0x1002000420240100, 0x080104c8204200b0,
    0x0042104401041184, 0xb882008100824100, 0x0005209404880c00, 0x0110243a8a841000,
    0x2022c00820050400, 0x0010220108180104, 0x0010490008080900, 0x8520080016081050,
    0x0182040162008200, 0x0050808009082000, 0x1028288081008800, 0x0a10404111040200,
    0x180108a000082080, 0x0e42300200040801, 0x8186003001020880, 0x6002028180080200,
    0x2108002400124100, 0x0008020021041000, 0x80040c1404006110, 0x0005210900020060,
    0x0402016020025a00, 0x8000841002002880, 0x100208a488001010, 0x9040014208000080,
    0x010a24104400ca88, 0x0024200404093040, 0x1210010800940101, 0x808280820200808a,
    0x2190840420045000, 0x0000240108080005, 0x0400804220900084, 0x0880018220a80070,
    0x0012a04010410404, 0x2000c06208024004, 0x1424280801341000, 0x0020844080910208,
    0x0084110098044000, 0x010000310110100a, 0x8000408284088808, 0x82a001d004420202,
    0x0008025c04050c02, 0x2004004050026080, 0x001358885014105a, 0x40a0211202040820,
];

/// Shift of a bishop's slot on each square: 64 less the number of its relevant squares.
pub const BISHOP_SHIFTS: [u32; 64] = [
    58, 59, 59, 59, 59, 59, 59, 58,
    59, 59, 59, 59, 59, 59, 59, 59,
    59, 59, 57, 57, 57, 57, 59, 59,
    59, 59, 57, 55, 55, 57, 59, 59,
    59, 59, 57, 55, 55, 57, 59, 59,
    59, 59, 57, 57, 57, 57, 59, 59,
    59, 59, 59, 59, 59, 59, 59, 59,
    58, 59, 59, 59, 59, 59, 59, 58,
];

/// Entries of the rook table: one per blocker set of every square.
pub const ROOK_TABLE_SIZE: usize = 102400;

/// Entries of the bishop table: one per blocker set of every square.
pub const BISHOP_TABLE_SIZE: usize = 5248;

/// Number of squares below `n` that a rook (`rook`) or bishop on `s` must check for blockers.
pub open spec fn relevant_count(s: int, rook: bool, n: int) -> nat
    decreases n,
{
    if n <= 0 {
        0
    } else {
        relevant_count(s, rook, n - 1) + if (if rook {
            rook_relevant(s, n - 1)
        } else {
            bishop_relevant(s, n - 1)
        }) {
            1nat
        } else {
            0nat
        }
    }
}

/// A relevance mask has as many squares as there are relevant squares.
proof fn lemma_relevance_popcount(s: int, rook: bool, m: u64, n: int)
    requires
        is_relevance_mask(s, rook, m),
        0 <= n <= 64,
    ensures
        count_below(m, n) == relevant_count(s, rook, n),
    decreases n,
{
    if n > 0 {
        lemma_relevance_popcount(s, rook, m, n - 1);
    }
}

/// Row `r` adds at most one relevant square per line through `s` it crosses: one for the
/// rook's file, two for the bishop's diagonals, six for the rook's own rank, and none on the
/// edge rows.
proof fn lemma_relevant_row(s: int, rook: bool, r: int)
    requires
        0 <= s < 64,
        0 <= r < 8,
    ensures
        relevant_count(s, rook, 8 * r + 8) <= relevant_count(s, rook, 8 * r) + if rook && r == s / 8 {
            6int
        } else if r == 0 || r == 7 {
            0int
        } else if rook {
            1int
        } else {
            2int
        },
{
    reveal_with_fuel(relevant_count, 9);
    assert((8 * r) / 8 == r && (8 * r + 1) / 8 == r && (8 * r + 2) / 8 == r && (8 * r + 3) / 8 == r
        && (8 * r + 4) / 8 == r && (8 * r + 5) / 8 == r && (8 * r + 6) / 8 == r && (8 * r + 7) / 8
        == r);
    assert((8 * r) % 8 == 0 && (8 * r + 1) % 8 == 1 && (8 * r + 2) % 8 == 2 && (8 * r + 3) % 8 == 3
        && (8 * r + 4) % 8 == 4 && (8 * r + 5) % 8 == 5 && (8 * r + 6) % 8 == 6 && (8 * r + 7) % 8
        == 7);
}

/// The relevant squares of a slider among the first `r` rows: at most one per crossed line
/// and row (six on a rook's own rank), so never more than twelve.
proof fn lemma_relevant_at_most_twelve(s: int, rook: bool, r: int)
    requires
        0 <= s < 64,
        0 <= r <= 8,
    ensures
        relevant_count(s, rook, 8 * r) <= if rook {
            (if s / 8 < r { 6int } else { 0int }) + if r <= 1 { 0int } else if r >= 7 { 6int } else { r - 1 }
        } else {
            2 * if r <= 1 { 0int } else if r >= 7 { 6int } else { r - 1 }
        },
    decreases r,
{
    if r > 0 {
        lemma_relevant_at_most_twelve(s, rook, r - 1);
        lemma_relevant_row(s, rook, r - 1);
    }
}

/// Every rook shift leaves between one and twelve slot bits, and the squares' parts of the
/// table fill exactly its size.
proof fn lemma_rook_shifts()
    ensures
        forall|s: int| 0 <= s < 64 ==> 52 <= #[trigger] ROOK_SHIFTS[s] <= 63,
        offset_sum(ROOK_SHIFTS@, 64) == ROOK_TABLE_SIZE,
{
    assert(ROOK_SHIFTS@ == seq![52u32, 53, 53, 53, 53, 53, 53, 52, 53, 54, 54, 54, 54, 54, 54, 53, 53, 54, 54, 54, 54, 54, 54, 53, 53, 54, 54, 54, 54, 54, 54, 53, 53, 54, 54, 54, 54, 54, 54, 53, 53, 54, 54, 54, 54, 54, 54, 53, 53, 54, 54, 54, 54, 54, 54, 53, 52, 53, 53, 53, 53, 53, 53, 52]);
    vstd::arithmetic::power2::lemma2_to64();
    reveal_with_fuel(offset_sum, 65);
}

/// Every bishop shift leaves between one and twelve slot bits, and the squares' parts of the
/// table fill exactly its size.
proof fn lemma_bishop_shifts()
    ensures
        forall|s: int| 0 <= s < 64 ==> 52 <= #[trigger] BISHOP_SHIFTS[s] <= 63,
        offset_sum(BISHOP_SHIFTS@, 64) == BISHOP_TABLE_SIZE,
{
    assert(BISHOP_SHIFTS@ == seq![58u32, 59, 59, 59, 59, 59, 59, 58, 59, 59, 59, 59, 59, 59, 59, 59, 59, 59, 57, 57, 57, 57, 59, 59, 59, 59, 57, 55, 55, 57, 59, 59, 59, 59, 57, 55, 55, 57, 59, 59, 59, 59, 57, 57, 57, 57, 59, 59, 59, 59, 59, 59, 59, 59, 59, 59, 58, 59, 59, 59, 59, 59, 59, 58]);
    vstd::arithmetic::power2::lemma2_to64();
    reveal_with_fuel(offset_sum, 65);
}

/// `r` is the blocker set that `index` picks from the squares of `mask`.
pub open spec fn is_picked_set(index: int, mask: u64, r: u64) -> bool {
    forall|t: int| #[trigger] has_bit(r, t) <==> picked_blocker(index as i32, mask, t)
}

/// The blocker set that `index` picks from the squares of `mask`.
pub open spec fn picked_set(index: int, mask: u64) -> u64 {
    choose|r: u64| is_picked_set(index, mask, r)
}

proof fn lemma_picked_set_unique(index: int, mask: u64, b: u64)
    requires
        is_picked_set(index, mask, b),
    ensures
        picked_set(index, mask) == b,
{
    let c = picked_set(index, mask);
    assert(is_picked_set(index, mask, c));
    lemma_bits_ext(b, c);
}

/// Squares a rook (`rook`) or bishop on `s` attacks with `occ` occupied.
pub open spec fn slider_attacks(rook: bool, s: int, occ: u64) -> u64 {
    if rook {
        rook_attack_set(occ, s)
    } else {
        bishop_attack_set(occ, s)
    }
}

/// Slot, within square `s`'s part of the table, of the blocker set with index `i`.
pub open spec fn table_slot(masks: Seq<u64>, magics: Seq<u64>, shifts: Seq<u32>, s: int, i: int) -> int {
    magic_slot(picked_set(i, masks[s]), magics[s], 64 - shifts[s])
}

/// Square `s`'s magic sends no two of its blocker sets with different attack sets to one slot.
pub open spec fn magic_sound(masks: Seq<u64>, magics: Seq<u64>, shifts: Seq<u32>, rook: bool, s: int) -> bool {
    forall|i: int, j: int|
        0 <= i < pow2(popcount(masks[s])) && 0 <= j < pow2(popcount(masks[s])) && #[trigger] table_slot(
            masks,
            magics,
            shifts,
            s,
            i,
        ) == #[trigger] table_slot(masks, magics, shifts, s, j) ==> slider_attacks(
            rook,
            s,
            picked_set(i, masks[s]),
        ) == slider_attacks(rook, s, picked_set(j, masks[s]))
}

/// On every square whose magic is sound, each blocker set of the square's mask finds its
/// attack set at the square's offset plus its slot.
pub open spec fn holds_attack_sets(
    table: Seq<u64>,
    masks: Seq<u64>,
    magics: Seq<u64>,
    shifts: Seq<u32>,
    rook: bool,
) -> bool {
    forall|s: int, i: int|
        0 <= s < 64 && 0 <= i < pow2(popcount(masks[s])) && magic_sound(masks, magics, shifts, rook, s)
            ==> table[offset_sum(shifts, s) + #[trigger] table_slot(masks, magics, shifts, s, i)]
            == slider_attacks(rook, s, picked_set(i, masks[s]))
}

/// Fills a magic attack table for rooks (`rook`) or bishops: for every square and every blocker
/// set of its mask, the attack set goes to the square's offset plus the slot the square's magic
/// sends the blocker set to. On every square whose magic is sound, each blocker set's entry
/// holds its attack set.
pub fn build_attacks_table(
    table_size: usize,
    masks: &[u64; 64],
    magics: &[u64; 64],
    shifts: &[u32; 64],
    offsets: &[usize; 64],
    rook: bool,
) -> (table: Vec<u64>)
    requires
        forall|s: int| 0 <= s < 64 ==> 52 <= #[trigger] shifts[s] <= 63,
        forall|s: int| 0 <= s < 64 ==> popcount(#[trigger] masks[s]) <= 12,
        forall|s: int| 0 <= s < 64 ==> #[trigger] offsets[s] == offset_sum(shifts@, s),
        offset_sum(shifts@, 64) <= table_size,
    ensures
        table@.len() == table_size,
        holds_attack_sets(table@, masks@, magics@, shifts@, rook),
{
    let mut table: Vec<u64> = Vec::new();
    let mut k: usize = 0;
    while k < table_size
        invariant
            k <= table_size,
            table@.len() == k,
        decreases table_size - k,
    {
        table.push(0);
        k = k + 1;
    }
    let mut square: usize = 0;
    while square < 64
        invariant
            square <= 64,
            table@.len() == table_size,
            forall|s: int| 0 <= s < 64 ==> 52 <= #[trigger] shifts[s] <= 63,
            forall|s: int| 0 <= s < 64 ==> popcount(#[trigger] masks[s]) <= 12,
            forall|s: int| 0 <= s < 64 ==> #[trigger] offsets[s] == offset_sum(shifts@, s),
            offset_sum(shifts@, 64) <= table_size,
            forall|s: int, i: int|
                0 <= s < square && 0 <= i < pow2(popcount(masks[s])) && magic_sound(
                    masks@,
                    magics@,
                    shifts@,
                    rook,
                    s,
                ) ==> table@[offset_sum(shifts@, s) + #[trigger] table_slot(
                    masks@,
                    magics@,
                    shifts@,
                    s,
                    i,
                )] == slider_attacks(rook, s, picked_set(i, masks[s])),
        decreases 64 - square,
    {
        let mask = masks[square];
        let num_bits = count_ones(mask);
        proof {
            assert(popcount(masks[square as int]) <= 12);
            vstd::arithmetic::power2::lemma2_to64();
            if num_bits < 12 {
                vstd::arithmetic::power2::lemma_pow2_strictly_increases(num_bits as nat, 12);
            }
            vstd::bits::lemma_u32_shl_is_mul(1, num_bits);
        }
        let num_combinations = 1u32 << num_bits;
        let magic = magics[square];
        let shift = shifts[square];
        let offset = offsets[square];
        let bits = (64 - shift) as i32;
        let ghost sq = square as int;
        proof {
            lemma_offset_sum_monotone(shifts@, sq + 1, 64);
        }
        let mut i: u32 = 0;
        while i < num_combinations
            invariant
                square < 64,
                sq == square,
                i <= num_combinations,
                num_combinations == pow2(popcount(masks[sq])),
                mask == masks[sq],
                magic == magics[sq],
                shift == shifts[sq],
                bits == 64 - shift,
                offset == offset_sum(shifts@, sq),
                offset_sum(shifts@, sq + 1) <= table_size,
                table@.len() == table_size,
                forall|s: int| 0 <= s < 64 ==> 52 <= #[trigger] shifts[s] <= 63,
                forall|s: int| 0 <= s < 64 ==> popcount(#[trigger] masks[s]) <= 12,
                forall|s: int| 0 <= s < 64 ==> #[trigger] offsets[s] == offset_sum(shifts@, s),
                offset_sum(shifts@, 64) <= table_size,
                forall|s: int, j: int|
                    0 <= s < square && 0 <= j < pow2(popcount(masks[s])) && magic_sound(
                        masks@,
                        magics@,
                        shifts@,
                        rook,
                        s,
                    ) ==> table@[offset_sum(shifts@, s) + #[trigger] table_slot(
                        masks@,
                        magics@,
                        shifts@,
                        s,
                        j,
                    )] == slider_attacks(rook, s, picked_set(j, masks[s])),
                forall|j: int|
                    0 <= j < i && magic_sound(masks@, magics@, shifts@, rook, sq) ==> table@[offset
                        + #[trigger] table_slot(masks@, magics@, shifts@, sq, j)] == slider_attacks(
                        rook,
                        sq,
                        picked_set(j, masks[sq]),
                    ),
            decreases num_combinations - i,
        {
            let blockers = set_blockers(i as i32, mask);
            proof {
                lemma_picked_set_unique(i as int, mask, blockers);
            }
            let real_attack = if rook {
                let r = rook_attacks_bruteforce(square as i32, blockers);
                proof {
                    assert(is_rook_attack_set(blockers, sq, r));
                    lemma_bits_ext(r, rook_attack_set(blockers, sq));
                }
                r
            } else {
                let r = bishop_attacks_bruteforce(square as i32, blockers);
                proof {
                    assert(is_bishop_attack_set(blockers, sq, r));
                    lemma_bits_ext(r, bishop_attack_set(blockers, sq));
                }
                r
            };
            let hash = slot_of(blockers, magic, bits);
            proof {
                assert(hash == table_slot(masks@, magics@, shifts@, sq, i as int));
            }
            let ghost before = table@;
            table.set(offset + hash, real_attack);
            proof {
                assert(table@ == before.update(offset + hash, real_attack));
                assert(offset + hash < table_size);
                assert forall|s: int, j: int|
                    0 <= s < square && 0 <= j < pow2(popcount(masks[s])) && magic_sound(
                        masks@,
                        magics@,
                        shifts@,
                        rook,
                        s,
                    ) implies table@[offset_sum(shifts@, s) + #[trigger] table_slot(
                        masks@,
                        magics@,
                        shifts@,
                        s,
                        j,
                    )] == slider_attacks(rook, s, picked_set(j, masks[s])) by {
                    assert(52 <= shifts[s] <= 63);
                    lemma_slot_range(picked_set(j, masks[s]), magics[s], 64 - shifts[s]);
                    lemma_offset_sum_monotone(shifts@, s + 1, sq);
                    lemma_offset_sum_monotone(shifts@, 0, s);
                    let idx = offset_sum(shifts@, s) + table_slot(masks@, magics@, shifts@, s, j);
                    assert(table_slot(masks@, magics@, shifts@, s, j) < pow2((64 - shifts[s]) as nat));
                    assert(offset_sum(shifts@, s + 1) == offset_sum(shifts@, s) + pow2(
                        (64 - shifts@[s]) as nat,
                    ));
                    assert(idx < offset + hash);
                    assert(before[idx] == slider_attacks(rook, s, picked_set(j, masks[s])));
                    assert(table@[idx] == before[idx]);
                }
                assert forall|j: int|
                    0 <= j < i + 1 && magic_sound(masks@, magics@, shifts@, rook, sq) implies table@[offset
                        + #[trigger] table_slot(masks@, magics@, shifts@, sq, j)] == slider_attacks(
                        rook,
                        sq,
                        picked_set(j, masks[sq]),
                    ) by {
                    lemma_slot_range(picked_set(j, masks[sq]), magics[sq], 64 - shifts[sq]);
                    lemma_offset_sum_monotone(shifts@, 0, sq);
                    if j == i {
                        assert(table@[offset + hash] == real_attack);
                        assert(real_attack == slider_attacks(rook, sq, picked_set(j, masks[sq])));
                    } else if table_slot(masks@, magics@, shifts@, sq, j) != hash {
                        assert(before[offset + table_slot(masks@, magics@, shifts@, sq, j)]
                            == slider_attacks(rook, sq, picked_set(j, masks[sq])));
                    } else {
                        assert(table_slot(masks@, magics@, shifts@, sq, j) == table_slot(
                            masks@,
                            magics@,
                            shifts@,
                            sq,
                            i as int,
                        ));
                        assert(slider_attacks(rook, sq, picked_set(j, masks[sq])) == slider_attacks(
                            rook,
                            sq,
                            picked_set(i as int, masks[sq]),
                        ));
                    }
                }
            }
            i = i + 1;
        }
        square = square + 1;
    }
    table
}

/// The relevance masks of rooks (`rook`) or bishops on all squares.
pub open spec fn relevance_masks(rook: bool) -> Seq<u64> {
    Seq::new(64, |s: int| relevance_mask(s, rook))
}

/// Computed relevance masks are the relevance masks, each with at most twelve squares.
proof fn lemma_mask_table(masks: [u64; 64], rook: bool)
    requires
        forall|s: int, t: int|
            0 <= s < 64 ==> (#[trigger] has_bit(masks[s], t) <==> if rook {
                rook_relevant(s, t)
            } else {
                bishop_relevant(s, t)
            }),
    ensures
        masks@ == relevance_masks(rook),
        forall|s: int| 0 <= s < 64 ==> popcount(#[trigger] masks[s]) <= 12,
{
    assert forall|s: int| 0 <= s < 64 implies popcount(#[trigger] masks[s]) <= 12 && masks[s]
        == relevance_mask(s, rook) by {
        assert(is_relevance_mask(s, rook, masks[s]));
        lemma_relevance_popcount(s, rook, masks[s], 64);
        lemma_relevant_at_most_twelve(s, rook, 8);
        lemma_relevance_mask_unique(s, rook, masks[s]);
    }
    assert(masks@ =~= relevance_masks(rook));
}

/// The rook attack table. On every square whose magic is sound, each blocker set of the
/// square's relevant squares finds the rook's attack set at the entry its magic sends it to.
pub fn calculate_all_rook_attacks() -> (table: Vec<u64>)
    ensures
        table@.len() == ROOK_TABLE_SIZE,
        holds_attack_sets(table@, relevance_masks(true), ROOK_MAGICS@, ROOK_SHIFTS@, true),
{
    let masks = calculate_all_rook_masks();
    proof {
        lemma_rook_shifts();
        lemma_mask_table(masks, true);
    }
    let offsets = calculate_offsets(&ROOK_SHIFTS);
    build_attacks_table(ROOK_TABLE_SIZE, &masks, &ROOK_MAGICS, &ROOK_SHIFTS, &offsets, true)
}

/// The bishop attack table. On every square whose magic is sound, each blocker set of the
/// square's relevant squares finds the bishop's attack set at the entry its magic sends it to.
pub fn calculate_all_bishop_attacks() -> (table: Vec<u64>)
    ensures
        table@.len() == BISHOP_TABLE_SIZE,
        holds_attack_sets(table@, relevance_masks(false), BISHOP_MAGICS@, BISHOP_SHIFTS@, false),
{
    let masks = calculate_all_bishop_masks();
    proof {
        lemma_bishop_shifts();
        lemma_mask_table(masks, false);
    }
    let offsets = calculate_offsets(&BISHOP_SHIFTS);
    build_attacks_table(BISHOP_TABLE_SIZE, &masks, &BISHOP_MAGICS, &BISHOP_SHIFTS, &offsets, false)
}

/// A ray from `s` stops at the same squares whether all of `occ` or only its squares in
/// `m` block it, when `m` holds every square strictly inside the ray's reach.
proof fn lemma_ray_inner_blockers(occ: u64, m: u64, s: int, dr: int, df: int, t: int, rook: bool)
    requires
        0 <= s < 64,
        direction(dr, df),
        rook ==> dr == 0 || df == 0,
        !rook ==> dr != 0 && df != 0,
        is_relevance_mask(s, rook, m),
    ensures
        ray(occ, s, dr, df, t) <==> ray(occ & m, s, dr, df, t),
{
    let r = rank_of(s);
    let f = file_of(s);
    lemma_coords(s);
    lemma_bit_and(occ, m);
    lemma_ray_hits_step(occ, r, f, dr, df, t, 8);
    lemma_ray_hits_step(occ & m, r, f, dr, df, t, 8);
    assert forall|k: int| k <= 8 implies #[trigger] ray_step(occ, r, f, dr, df, t, k) == ray_step(
        occ & m,
        r,
        f,
        dr,
        df,
        t,
        k,
    ) by {
        if 1 <= k && on_board(walk(r, k, dr), walk(f, k, df)) {
            assert forall|j: int| 1 <= j < k implies has_bit(
                m,
                #[trigger] square_at(walk(r, j, dr), walk(f, j, df)),
            ) by {
                let q = square_at(walk(r, j, dr), walk(f, j, df));
                assert(on_board(walk(r, j, dr), walk(f, j, df)));
                lemma_square_at_coords(walk(r, j, dr), walk(f, j, df));
                if rook {
                    assert(rook_relevant(s, q));
                } else {
                    assert(bishop_relevant(s, q));
                }
            }
        }
    }
    if ray(occ, s, dr, df, t) {
        let k = choose|k: int| k <= 8 && #[trigger] ray_step(occ, r, f, dr, df, t, k);
        assert(ray_step(occ & m, r, f, dr, df, t, k));
    }
    if ray(occ & m, s, dr, df, t) {
        let k = choose|k: int| k <= 8 && #[trigger] ray_step(occ & m, r, f, dr, df, t, k);
        assert(ray_step(occ, r, f, dr, df, t, k));
    }
}

/// Bitboard of the squares below `n` that satisfy `p`.
pub open spec fn squares_where(p: spec_fn(int) -> bool, n: int) -> u64
    decreases n,
{
    if n <= 0 {
        0u64
    } else if p(n - 1) {
        squares_where(p, n - 1) | single(n - 1)
    } else {
        squares_where(p, n - 1)
    }
}

proof fn lemma_squares_where(p: spec_fn(int) -> bool, n: int)
    requires
        0 <= n <= 64,
    ensures
        forall|t: int| #[trigger] has_bit(squares_where(p, n), t) <==> (0 <= t < n && p(t)),
    decreases n,
{
    lemma_bit_zero();
    if n > 0 {
        lemma_squares_where(p, n - 1);
        lemma_bit_or_single(squares_where(p, n - 1), n - 1);
    }
}

/// A ray only reaches board squares.
proof fn lemma_ray_on_board(occ: u64, s: int, dr: int, df: int, t: int)
    requires
        0 <= s < 64,
        direction(dr, df),
        ray(occ, s, dr, df, t),
    ensures
        0 <= t < 64,
{
    let r = rank_of(s);
    let f = file_of(s);
    lemma_coords(s);
    lemma_ray_hits_step(occ, r, f, dr, df, t, 8);
    let k = choose|k: int| k <= 8 && #[trigger] ray_step(occ, r, f, dr, df, t, k);
    lemma_square_at_coords(walk(r, k, dr), walk(f, k, df));
}

/// Every square has its relevance mask and its attack sets.
proof fn lemma_slider_sets_exist(occ: u64, s: int, rook: bool)
    requires
        0 <= s < 64,
    ensures
        is_relevance_mask(s, rook, relevance_mask(s, rook)),
        is_rook_attack_set(occ, s, rook_attack_set(occ, s)),
        is_bishop_attack_set(occ, s, bishop_attack_set(occ, s)),
{
    let rel = |t: int| if rook { rook_relevant(s, t) } else { bishop_relevant(s, t) };
    lemma_squares_where(rel, 64);
    assert(is_relevance_mask(s, rook, squares_where(rel, 64)));
    let rr = |t: int| rook_ray(occ, s, t);
    lemma_squares_where(rr, 64);
    assert forall|t: int| rook_ray(occ, s, t) implies 0 <= t < 64 by {
        if ray(occ, s, 1, 0, t) {
            lemma_ray_on_board(occ, s, 1, 0, t);
        } else if ray(occ, s, -1, 0, t) {
            lemma_ray_on_board(occ, s, -1, 0, t);
        } else if ray(occ, s, 0, 1, t) {
            lemma_ray_on_board(occ, s, 0, 1, t);
        } else {
            lemma_ray_on_board(occ, s, 0, -1, t);
        }
    }
    assert(is_rook_attack_set(occ, s, squares_where(rr, 64)));
    let br = |t: int| bishop_ray(occ, s, t);
    lemma_squares_where(br, 64);
    assert forall|t: int| bishop_ray(occ, s, t) implies 0 <= t < 64 by {
        if ray(occ, s, 1, 1, t) {
            lemma_ray_on_board(occ, s, 1, 1, t);
        } else if ray(occ, s, 1, -1, t) {
            lemma_ray_on_board(occ, s, 1, -1, t);
        } else if ray(occ, s, -1, 1, t) {
            lemma_ray_on_board(occ, s, -1, 1, t);
        } else {
            lemma_ray_on_board(occ, s, -1, -1, t);
        }
    }
    assert(is_bishop_attack_set(occ, s, squares_where(br, 64)));
}

/// Only the relevant squares of the occupancy decide what a slider attacks.
pub proof fn lemma_relevant_occupancy(occ: u64, s: int, rook: bool)
    requires
        0 <= s < 64,
    ensures
        slider_attacks(rook, s, occ & relevance_mask(s, rook)) == slider_attacks(rook, s, occ),
{
    let m = relevance_mask(s, rook);
    let om = occ & m;
    lemma_slider_sets_exist(occ, s, rook);
    lemma_slider_sets_exist(om, s, rook);
    if rook {
        assert forall|t: int| rook_ray(occ, s, t) <==> rook_ray(om, s, t) by {
            lemma_ray_inner_blockers(occ, m, s, 1, 0, t, true);
            lemma_ray_inner_blockers(occ, m, s, -1, 0, t, true);
            lemma_ray_inner_blockers(occ, m, s, 0, 1, t, true);
            lemma_ray_inner_blockers(occ, m, s, 0, -1, t, true);
        }
        let a = rook_attack_set(occ, s);
        let b = rook_attack_set(om, s);
        assert(is_rook_attack_set(occ, s, a));
        assert(is_rook_attack_set(om, s, b));
        lemma_bits_ext(a, b);
    } else {
        assert forall|t: int| bishop_ray(occ, s, t) <==> bishop_ray(om, s, t) by {
            lemma_ray_inner_blockers(occ, m, s, 1, 1, t, false);
            lemma_ray_inner_blockers(occ, m, s, 1, -1, t, false);
            lemma_ray_inner_blockers(occ, m, s, -1, 1, t, false);
            lemma_ray_inner_blockers(occ, m, s, -1, -1, t, false);
        }
        let a = bishop_attack_set(occ, s);
        let b = bishop_attack_set(om, s);
        assert(is_bishop_attack_set(occ, s, a));
        assert(is_bishop_attack_set(om, s, b));
        lemma_bits_ext(a, b);
    }
}

/// The index that picks the squares of `b` among the squares of `mask` below `n`: bit `k` is
/// set when the `k`-th lowest square of the mask is in `b`.
pub open spec fn subset_index(b: u64, mask: u64, n: int) -> u32
    decreases n,
{
    if n <= 0 {
        0u32
    } else if has_bit(mask, n - 1) && has_bit(b, n - 1) {
        subset_index(b, mask, n - 1) | (1u32 << (count_below(mask, n - 1) as u32))
    } else {
        subset_index(b, mask, n - 1)
    }
}

proof fn lemma_subset_index(b: u64, mask: u64, n: int)
    requires
        0 <= n <= 64,
        count_below(mask, n) <= 12,
    ensures
        subset_index(b, mask, n) < (1u32 << (count_below(mask, n) as u32)),
        forall|k: u32|
            k < 32 ==> ((#[trigger] (subset_index(b, mask, n) >> k) & 1u32 == 1u32) <==> exists|t: int|
                0 <= t < n && has_bit(mask, t) && has_bit(b, t) && count_below(mask, t) == k),
    decreases n,
{
    if n == 0 {
        assert(forall|k: u32| k < 32 ==> #[trigger] (0u32 >> k) & 1u32 == 0u32) by (bit_vector);
        assert((0u32) < (1u32 << 0u32)) by (bit_vector);
    } else {
        lemma_subset_index(b, mask, n - 1);
        let prev = subset_index(b, mask, n - 1);
        let c = count_below(mask, n - 1) as u32;
        assert(c <= 12);
        if has_bit(mask, n - 1) && has_bit(b, n - 1) {
            assert(c < 12);
            assert((prev | (1u32 << c)) < (1u32 << ((c + 1) as u32)) && forall|k: u32|
                k < 32 ==> (#[trigger] ((prev | (1u32 << c)) >> k) & 1u32 == 1u32 <==> (((prev >> k)
                & 1u32 == 1u32) || k == c))) by (bit_vector)
                requires
                    prev < (1u32 << c),
                    c < 12,
            ;
            assert forall|k: u32| k < 32 implies ((#[trigger] (subset_index(b, mask, n) >> k) & 1u32
                == 1u32) <==> exists|t: int|
                0 <= t < n && has_bit(mask, t) && has_bit(b, t) && count_below(mask, t) == k) by {
                if k == c {
                    assert(0 <= n - 1 < n && has_bit(mask, n - 1) && has_bit(b, n - 1) && count_below(
                        mask,
                        n - 1,
                    ) == k);
                }
                assert(((prev >> k) & 1u32 == 1u32) <==> exists|t: int|
                    0 <= t < n - 1 && has_bit(mask, t) && has_bit(b, t) && count_below(mask, t) == k);
            }
        } else {
            if has_bit(mask, n - 1) {
                assert(c < 12);
                assert(prev < (1u32 << ((c + 1) as u32))) by (bit_vector)
                    requires
                        prev < (1u32 << c),
                        c < 12,
                ;
            }
            assert forall|k: u32| k < 32 implies ((#[trigger] (subset_index(b, mask, n) >> k) & 1u32
                == 1u32) <==> exists|t: int|
                0 <= t < n && has_bit(mask, t) && has_bit(b, t) && count_below(mask, t) == k) by {
                assert(((prev >> k) & 1u32 == 1u32) <==> exists|t: int|
                    0 <= t < n - 1 && has_bit(mask, t) && has_bit(b, t) && count_below(mask, t) == k);
            }
        }
    }
}

/// Every set of squares of `mask` is the blocker set of an index below `2^popcount(mask)`.
pub proof fn lemma_subset_enumerated(b: u64, mask: u64)
    requires
        popcount(mask) <= 12,
        forall|t: int| #[trigger] has_bit(b, t) ==> has_bit(mask, t),
    ensures
        0 <= subset_index(b, mask, 64) < pow2(popcount(mask)),
        picked_set(subset_index(b, mask, 64) as int, mask) == b,
{
    let i = subset_index(b, mask, 64);
    let n = popcount(mask) as u32;
    lemma_subset_index(b, mask, 64);
    vstd::arithmetic::power2::lemma2_to64();
    vstd::arithmetic::power2::lemma_pow2_strictly_increases(n as nat, 13);
    vstd::bits::lemma_u32_shl_is_mul(1, n);
    assert(i < 4096);
    assert forall|t: int| #[trigger] has_bit(b, t) <==> picked_blocker(i as i32, mask, t) by {
        if has_bit(mask, t) {
            lemma_count_below_strict(mask, t, 64);
            let k = count_below(mask, t) as u32;
            assert(k < 12);
            assert((i as i32) & (1i32 << k) != 0 <==> (i >> k) & 1u32 == 1u32) by (bit_vector)
                requires
                    i < 4096,
                    k < 12,
            ;
            assert(index_selects(i as i32, k as int) <==> (i >> k) & 1u32 == 1u32);
            if (i >> k) & 1u32 == 1u32 {
                let w = choose|w: int|
                    0 <= w < 64 && has_bit(mask, w) && has_bit(b, w) && count_below(mask, w) == k;
                if w < t {
                    lemma_count_below_strict(mask, w, t);
                } else if t < w {
                    lemma_count_below_strict(mask, t, w);
                }
            } else {
                assert(!(0 <= t < 64 && has_bit(mask, t) && has_bit(b, t) && count_below(mask, t)
                    == k));
            }
        }
    }
    assert(is_picked_set(i as int, mask, b));
    lemma_picked_set_unique(i as int, mask, b);
}

/// The magic attack tables of both sliders, with the masks and offsets that read them.
pub struct SliderTables {
    pub rook_masks: [u64; 64],
    pub rook_offsets: [usize; 64],
    pub rook_table: Vec<u64>,
    pub bishop_masks: [u64; 64],
    pub bishop_offsets: [usize; 64],
    pub bishop_table: Vec<u64>,
}

impl SliderTables {
    /// The masks are the relevance masks, the offsets the sums of the parts before each
    /// square, and the tables hold the attack sets of every square whose magic is sound.
    pub open spec fn wf(self) -> bool {
        &&& self.rook_masks@ == relevance_masks(true)
        &&& forall|s: int| 0 <= s < 64 ==> #[trigger] self.rook_offsets[s] == offset_sum(ROOK_SHIFTS@, s)
        &&& self.rook_table@.len() == ROOK_TABLE_SIZE
        &&& holds_attack_sets(self.rook_table@, relevance_masks(true), ROOK_MAGICS@, ROOK_SHIFTS@, true)
        &&& self.bishop_masks@ == relevance_masks(false)
        &&& forall|s: int| 0 <= s < 64 ==> #[trigger] self.bishop_offsets[s] == offset_sum(BISHOP_SHIFTS@, s)
        &&& self.bishop_table@.len() == BISHOP_TABLE_SIZE
        &&& holds_attack_sets(
            self.bishop_table@,
            relevance_masks(false),
            BISHOP_MAGICS@,
            BISHOP_SHIFTS@,
            false,
        )
    }

    /// Builds the masks, offsets and tables of both sliders.
    pub fn new() -> (t: Self)
        ensures
            t.wf(),
    {
        let rook_masks = calculate_all_rook_masks();
        let bishop_masks = calculate_all_bishop_masks();
        proof {
            lemma_rook_shifts();
            lemma_bishop_shifts();
            lemma_mask_table(rook_masks, true);
            lemma_mask_table(bishop_masks, false);
        }
        SliderTables {
            rook_masks,
            rook_offsets: calculate_offsets(&ROOK_SHIFTS),
            rook_table: calculate_all_rook_attacks(),
            bishop_masks,
            bishop_offsets: calculate_offsets(&BISHOP_SHIFTS),
            bishop_table: calculate_all_bishop_attacks(),
        }
    }

    /// Squares a rook on `square` attacks with `occupancy` occupied, read from the rook table:
    /// the occupied relevant squares go through the square's magic to their entry. That entry
    /// holds the rook's attack set whenever the square's magic is sound.
    pub fn rook_attacks(&self, square: u8, occupancy: u64) -> (r: u64)
        requires
            self.wf(),
            square < 64,
        ensures
            r == self.rook_table@[offset_sum(ROOK_SHIFTS@, square as int) + magic_slot(
                occupancy & relevance_mask(square as int, true),
                ROOK_MAGICS[square as int],
                64 - ROOK_SHIFTS[square as int],
            )],
            magic_sound(relevance_masks(true), ROOK_MAGICS@, ROOK_SHIFTS@, true, square as int) ==> r
                == rook_attack_set(occupancy, square as int),
    {
        let s = square as usize;
        proof {
            lemma_rook_shifts();
            lemma_offset_sum_monotone(ROOK_SHIFTS@, s + 1, 64);
            assert(self.rook_masks[s as int] == relevance_mask(s as int, true));
        }
        let blockers = occupancy & self.rook_masks[s];
        let hash = slot_of(blockers, ROOK_MAGICS[s], (64 - ROOK_SHIFTS[s]) as i32);
        let r = self.rook_table[self.rook_offsets[s] + hash];
        proof {
            if magic_sound(relevance_masks(true), ROOK_MAGICS@, ROOK_SHIFTS@, true, s as int) {
                lemma_table_read(self.rook_table@, occupancy, s as int, true, ROOK_MAGICS@, ROOK_SHIFTS@);
            }
        }
        r
    }

    /// Squares a bishop on `square` attacks with `occupancy` occupied, read from the bishop
    /// table: the occupied relevant squares go through the square's magic to their entry. That
    /// entry holds the bishop's attack set whenever the square's magic is sound.
    pub fn bishop_attacks(&self, square: u8, occupancy: u64) -> (r: u64)
        requires
            self.wf(),
            square < 64,
        ensures
            r == self.bishop_table@[offset_sum(BISHOP_SHIFTS@, square as int) + magic_slot(
                occupancy & relevance_mask(square as int, false),
                BISHOP_MAGICS[square as int],
                64 - BISHOP_SHIFTS[square as int],
            )],
            magic_sound(relevance_masks(false), BISHOP_MAGICS@, BISHOP_SHIFTS@, false, square as int)
                ==> r == bishop_attack_set(occupancy, square as int),
    {
        let s = square as usize;
        proof {
            lemma_bishop_shifts();
            lemma_offset_sum_monotone(BISHOP_SHIFTS@, s + 1, 64);
            assert(self.bishop_masks[s as int] == relevance_mask(s as int, false));
        }
        let blockers = occupancy & self.bishop_masks[s];
        let hash = slot_of(blockers, BISHOP_MAGICS[s], (64 - BISHOP_SHIFTS[s]) as i32);
        let r = self.bishop_table[self.bishop_offsets[s] + hash];
        proof {
            if magic_sound(relevance_masks(false), BISHOP_MAGICS@, BISHOP_SHIFTS@, false, s as int) {
                lemma_table_read(
                    self.bishop_table@,
                    occupancy,
                    s as int,
                    false,
                    BISHOP_MAGICS@,
                    BISHOP_SHIFTS@,
                );
            }
        }
        r
    }
}

/// Reading a table that holds the attack sets at the slot of an occupancy's relevant squares
/// gives the attack set of the whole occupancy, on a square whose magic is sound.
proof fn lemma_table_read(
    table: Seq<u64>,
    occ: u64,
    s: int,
    rook: bool,
    magics: Seq<u64>,
    shifts: Seq<u32>,
)
    requires
        0 <= s < 64,
        holds_attack_sets(table, relevance_masks(rook), magics, shifts, rook),
        magic_sound(relevance_masks(rook), magics, shifts, rook, s),
    ensures
        table[offset_sum(shifts, s) + magic_slot(occ & relevance_mask(s, rook), magics[s], 64 - shifts[s])]
            == slider_attacks(rook, s, occ),
{
    let m = relevance_mask(s, rook);
    let b = occ & m;
    lemma_slider_sets_exist(occ, s, rook);
    lemma_relevance_popcount(s, rook, m, 64);
    lemma_relevant_at_most_twelve(s, rook, 8);
    lemma_bit_and(occ, m);
    lemma_subset_enumerated(b, m);
    let i = subset_index(b, m, 64) as int;
    assert(relevance_masks(rook)[s] == m);
    assert(table_slot(relevance_masks(rook), magics, shifts, s, i) == magic_slot(b, magics[s], 64 - shifts[s]));
    lemma_relevant_occupancy(occ, s, rook);
}

} // verus!
