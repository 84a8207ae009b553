//! The search for the magic numbers of the sliding pieces: for each square, a multiplier that
//! sends every blocker set of the square's relevant squares to a table slot without two sets of
//! different attacks sharing a slot.
use vstd::prelude::*;
use crate::bits::{
    has_bit, single, popcount, count_below, lowest_bit, lemma_lowest_bit, lemma_bit_xor_single,
    lemma_bit_zero, lemma_bit_or_single, lemma_bits_ext,
};
use crate::evaluate::{rook_attack_set, bishop_attack_set};
use crate::masks::{index_to_blockers, picked_blocker, rook_attacks_bruteforce, bishop_attacks_bruteforce};
use crate::types::{rank_of, file_of};

verus! {

/// Number of tries before the search gives up.
pub const MAX_TRIES: u32 = 10_000_000;

/// Relevant squares of a bishop on each square (from Tord Romstad).
pub const B_BITS: [i32; 64] = [
    6, 5, 5, 5, 5, 5, 5, 6,
    5, 5, 5, 5, 5, 5, 5, 5,
    5, 5, 7, 7, 7, 7, 5, 5,
    5, 5, 7, 9, 9, 7, 5, 5,
    5, 5, 7, 9, 9, 7, 5, 5,
    5, 5, 7, 7, 7, 7, 5, 5,
    5, 5, 5, 5, 5, 5, 5, 5,
    6, 5, 5, 5, 5, 5, 5, 6,
];

/// Relevant squares of a rook on each square.
pub const R_BITS: [i32; 64] = [
    12, 11, 11, 11, 11, 11, 11, 12,
    11, 10, 10, 10, 10, 10, 10, 11,
    11, 10, 10, 10, 10, 10, 10, 11,
    11, 10, 10, 10, 10, 10, 10, 11,
    11, 10, 10, 10, 10, 10, 10, 11,
    11, 10, 10, 10, 10, 10, 10, 11,
    11, 10, 10, 10, 10, 10, 10, 11,
    12, 11, 11, 11, 11, 11, 11, 12,
];

/// One xorshift step (Marsaglia's shifts 13, 7, 17).
pub open spec fn xorshift(x: u64) -> u64 {
    let a = x ^ (x << 13u64);
    let b = a ^ (a >> 7u64);
    b ^ (b << 17u64)
}

/// The state after `k` sparse draws, each of three steps.
pub open spec fn draw_state(s: u64, k: nat) -> u64
    decreases k,
{
    if k == 0 {
        s
    } else {
        xorshift(xorshift(xorshift(draw_state(s, (k - 1) as nat))))
    }
}

/// A number with few bits: the conjunction of the next three values.
pub open spec fn sparse(s: u64) -> u64 {
    xorshift(s) & xorshift(xorshift(s)) & xorshift(xorshift(xorshift(s)))
}

/// The `k`-th sparse draw from state `s`.
pub open spec fn draw(s: u64, k: nat) -> u64 {
    sparse(draw_state(s, k))
}

/// Pseudo-random numbers by xorshift.
pub struct XorShift64 {
    pub state: u64,
}

impl XorShift64 {
    pub fn new(seed: u64) -> (r: Self)
        ensures
            r.state == seed,
    {
        XorShift64 { state: seed }
    }

    /// The next value, which becomes the state.
    pub fn next(&mut self) -> (r: u64)
        ensures
            r == xorshift(old(self).state),
            final(self).state == r,
    {
        let mut x = self.state;
        x = x ^ (x << 13);
        x = x ^ (x >> 7);
        x = x ^ (x << 17);
        self.state = x;
        x
    }

    /// The conjunction of the next three values: a number with few bits set.
    pub fn few_bits(&mut self) -> (r: u64)
        ensures
            r == sparse(old(self).state),
            final(self).state == draw_state(old(self).state, 1),
    {
        let a = self.next();
        let b = self.next();
        let c = self.next();
        assert(draw_state(old(self).state, 0) == old(self).state);
        a & b & c
    }
}

/// Toggling a square of a bitboard changes its count below `n` by one if the square is
/// below `n`.
proof fn lemma_count_below_toggle(b: u64, z: int, n: int)
    requires
        has_bit(b, z),
        0 <= n,
    ensures
        count_below(b ^ single(z), n) + (if z < n { 1int } else { 0int }) == count_below(b, n),
    decreases n,
{
    lemma_bit_xor_single(b, z);
    if n > 0 {
        lemma_count_below_toggle(b, z, n - 1);
    }
}

/// Counts the squares of a bitboard, removing the lowest one at a time.
pub fn count_bits(b: u64) -> (r: u32)
    ensures
        r == popcount(b),
{
    let mut rest = b;
    let mut count: u32 = 0;
    proof {
        crate::bits::lemma_popcount_bound(b);
    }
    while rest != 0
        invariant
            count + popcount(rest) == popcount(b),
            popcount(b) <= 64,
        decreases rest,
    {
        proof {
            lemma_lowest_bit(rest);
            lemma_count_below_toggle(rest, lowest_bit(rest) as int, 64);
        }
        count = count + 1;
        rest = rest & (rest - 1);
    }
    proof {
        lemma_bit_zero();
        assert(popcount(rest) == 0) by {
            lemma_count_zero(rest, 64);
        }
    }
    count
}

proof fn lemma_count_zero(a: u64, n: int)
    requires
        a == 0,
        0 <= n,
    ensures
        count_below(a, n) == 0,
    decreases n,
{
    lemma_bit_zero();
    if n > 0 {
        lemma_count_zero(a, n - 1);
    }
}

/// `t` is a square a rook on `s` must check for blockers: on its rank or file, not itself,
/// and not the last square of the line.
pub open spec fn rook_relevant(s: int, t: int) -> bool {
    &&& 0 <= t < 64
    &&& t != s
    &&& (file_of(t) == file_of(s) && 1 <= rank_of(t) <= 6) || (rank_of(t) == rank_of(s) && 1
        <= file_of(t) <= 6)
}

/// `t` is a square a bishop on `s` must check for blockers: on its diagonals, not itself,
/// and not on the board's edge.
pub open spec fn bishop_relevant(s: int, t: int) -> bool {
    &&& 0 <= t < 64
    &&& t != s
    &&& (rank_of(t) - rank_of(s) == file_of(t) - file_of(s) || rank_of(t) - rank_of(s) == file_of(
        s,
    ) - file_of(t))
    &&& 1 <= rank_of(t) <= 6
    &&& 1 <= file_of(t) <= 6
}

/// The relevant squares of a rook on `sq`.
pub fn rook_mask(sq: i32) -> (result: u64)
    requires
        0 <= sq < 64,
    ensures
        forall|t: int| #[trigger] has_bit(result, t) <==> rook_relevant(sq as int, t),
{
    let target_r = sq / 8;
    let target_f = sq % 8;
    let mut result = 0u64;
    let mut t: i32 = 0;
    proof {
        lemma_bit_zero();
    }
    while t < 64
        invariant
            0 <= t <= 64,
            0 <= sq < 64,
            target_r == sq / 8,
            target_f == sq % 8,
            forall|u: int| #[trigger] has_bit(result, u) <==> (u < t && rook_relevant(sq as int, u)),
        decreases 64 - t,
    {
        let r = t / 8;
        let f = t % 8;
        let ghost before = result;
        if t != sq && ((f == target_f && 1 <= r && r <= 6) || (r == target_r && 1 <= f && f <= 6)) {
            let bit: u64 = 1u64 << (t as u64);
            assert(bit == single(t as int));
            result = result | bit;
        }
        proof {
            lemma_bit_or_single(before, t as int);
            assert(rank_of(t as int) == r && file_of(t as int) == f);
            assert(rank_of(sq as int) == target_r && file_of(sq as int) == target_f);
            assert(!has_bit(before, t as int));
            assert forall|u: int| #[trigger] has_bit(result, u) <==> (u < t + 1 && rook_relevant(sq as int, u)) by {
                assert(has_bit(before, u) <==> (u < t && rook_relevant(sq as int, u)));
            }
        }
        t = t + 1;
    }
    result
}

/// The relevant squares of a bishop on `sq`.
pub fn bishop_mask(sq: i32) -> (result: u64)
    requires
        0 <= sq < 64,
    ensures
        forall|t: int| #[trigger] has_bit(result, t) <==> bishop_relevant(sq as int, t),
{
    let target_r = sq / 8;
    let target_f = sq % 8;
    let mut result = 0u64;
    let mut t: i32 = 0;
    proof {
        lemma_bit_zero();
    }
    while t < 64
        invariant
            0 <= t <= 64,
            0 <= sq < 64,
            target_r == sq / 8,
            target_f == sq % 8,
            forall|u: int| #[trigger] has_bit(result, u) <==> (u < t && bishop_relevant(sq as int, u)),
        decreases 64 - t,
    {
        let r = t / 8;
        let f = t % 8;
        let ghost before = result;
        if t != sq && (r - target_r == f - target_f || r - target_r == target_f - f) && 1 <= r && r
            <= 6 && 1 <= f && f <= 6 {
            let bit: u64 = 1u64 << (t as u64);
            assert(bit == single(t as int));
            result = result | bit;
        }
        proof {
            lemma_bit_or_single(before, t as int);
            assert(rank_of(t as int) == r && file_of(t as int) == f);
            assert(rank_of(sq as int) == target_r && file_of(sq as int) == target_f);
            assert(!has_bit(before, t as int));
            assert forall|u: int| #[trigger] has_bit(result, u) <==> (u < t + 1 && bishop_relevant(sq as int, u)) by {
                assert(has_bit(before, u) <==> (u < t && bishop_relevant(sq as int, u)));
            }
        }
        t = t + 1;
    }
    result
}

/// `m` holds the relevant squares of a rook (`rook`) or a bishop on `s`.
pub open spec fn is_relevance_mask(s: int, rook: bool, m: u64) -> bool {
    forall|t: int| #[trigger]
        has_bit(m, t) <==> if rook {
            rook_relevant(s, t)
        } else {
            bishop_relevant(s, t)
        }
}

/// The relevant squares of a rook (`rook`) or a bishop on `s`.
pub open spec fn relevance_mask(s: int, rook: bool) -> u64 {
    choose|m: u64| is_relevance_mask(s, rook, m)
}

/// `r` is the blocker set that `index` picks from the lowest `bits` squares of `mask`.
pub open spec fn is_blocker_set(index: int, bits: int, mask: u64, r: u64) -> bool {
    forall|t: int| #[trigger]
        has_bit(r, t) <==> (picked_blocker(index as i32, mask, t) && count_below(mask, t) < bits)
}

/// The blocker set that `index` picks from the lowest `bits` squares of `mask`.
pub open spec fn blocker_set(index: int, bits: int, mask: u64) -> u64 {
    choose|r: u64| is_blocker_set(index, bits, mask, r)
}

/// The blocker sets of all `2^bits` indices.
pub open spec fn blocker_table(mask: u64, bits: int) -> Seq<u64> {
    Seq::new(
        vstd::arithmetic::power2::pow2(bits as nat),
        |i: int| blocker_set(i, bits, mask),
    )
}

/// The attacks of a rook (`rook`) or a bishop on `sq` for each blocker set.
pub open spec fn attack_table(sq: int, mask: u64, bits: int, rook: bool) -> Seq<u64> {
    Seq::new(
        vstd::arithmetic::power2::pow2(bits as nat),
        |i: int|
            if rook {
                rook_attack_set(blocker_set(i, bits, mask), sq)
            } else {
                bishop_attack_set(blocker_set(i, bits, mask), sq)
            },
    )
}

/// What the search returns from state `s0`: the first of the `MAX_TRIES` sparse draws that
/// is a good magic, with the state after it, or nothing when none is.
pub open spec fn search_outcome(
    s0: u64,
    mask: u64,
    blockers: Seq<u64>,
    attacks: Seq<u64>,
    bits: int,
    r: Option<u64>,
    final_state: u64,
) -> bool {
    &&& r matches Some(m) ==> exists|k: nat|
        k < MAX_TRIES && m == draw(s0, k) && magic_good(mask, blockers, attacks, m, bits) && (
        forall|j: nat|
            j < k ==> !magic_good(mask, blockers, attacks, #[trigger] draw(s0, j), bits))
            && final_state == draw_state(s0, k + 1)
    &&& r is None ==> forall|j: nat|
        j < MAX_TRIES ==> !magic_good(mask, blockers, attacks, #[trigger] draw(s0, j), bits)
}

/// Slot of the blocker set `b` under `magic`: the top `bits` bits of the wrapped product.
pub open spec fn magic_slot(b: u64, magic: u64, bits: int) -> int {
    (b.wrapping_mul(magic) >> ((64 - bits) as u64)) as int
}

/// No two blocker sets share a slot under `magic` while an earlier one has a different,
/// non-empty attack set.
pub open spec fn magic_fits(blockers: Seq<u64>, attacks: Seq<u64>, magic: u64, bits: int) -> bool {
    forall|i: int, j: int|
        0 <= j < i < blockers.len() && magic_slot(blockers[j], magic, bits) == magic_slot(
            blockers[i],
            magic,
            bits,
        ) && attacks[j] != 0 ==> #[trigger] attacks[j] == #[trigger] attacks[i]
}

/// `magic` passes the quick test (at least six bits in the top byte of the product with the
/// mask) and fits the tables.
pub open spec fn magic_good(mask: u64, blockers: Seq<u64>, attacks: Seq<u64>, magic: u64, bits: int) -> bool {
    &&& popcount(mask.wrapping_mul(magic) & 0xFF00_0000_0000_0000u64) >= 6
    &&& magic_fits(blockers, attacks, magic, bits)
}

/// Every slot lies in a table of `2^bits` entries.
pub(crate) proof fn lemma_slot_range(b: u64, magic: u64, bits: int)
    requires
        1 <= bits <= 12,
    ensures
        0 <= magic_slot(b, magic, bits) < vstd::arithmetic::power2::pow2(bits as nat),
{
    let product = b.wrapping_mul(magic);
    let bu = bits as u64;
    let shift = (64 - bits) as u64;
    let x = product >> shift;
    assert(x < (1u64 << bu)) by (bit_vector)
        requires
            x == product >> shift,
            shift == 64 - bu,
            1 <= bu <= 12,
    ;
    vstd::arithmetic::power2::lemma_pow2_strictly_increases(bits as nat, 64);
    vstd::arithmetic::power2::lemma2_to64();
    vstd::bits::lemma_u64_shl_is_mul(1, bu);
}

/// The slot of a blocker set.
pub(crate) fn slot_of(b: u64, magic: u64, bits: i32) -> (r: usize)
    requires
        1 <= bits <= 12,
    ensures
        r == magic_slot(b, magic, bits as int),
        r < vstd::arithmetic::power2::pow2(bits as nat),
{
    let product = b.wrapping_mul(magic);
    let shift = (64 - bits) as u64;
    let x = product >> shift;
    let bu = bits as u64;
    assert(x < (1u64 << bu)) by (bit_vector)
        requires
            x == product >> shift,
            shift == 64 - bu,
            1 <= bu <= 12,
    ;
    proof {
        vstd::arithmetic::power2::lemma_pow2_strictly_increases(bits as nat, 64);
        vstd::arithmetic::power2::lemma2_to64();
        vstd::bits::lemma_u64_shl_is_mul(1, bu);
    }
    x as usize
}

/// Tests `magic` against the tables: every blocker set goes to its slot, and a slot that
/// already holds a different attack set is a destructive collision.
fn magic_fits_tables(blockers: &Vec<u64>, attacks: &Vec<u64>, magic: u64, bits: i32) -> (r: bool)
    requires
        1 <= bits <= 12,
        blockers@.len() == attacks@.len(),
        blockers@.len() == vstd::arithmetic::power2::pow2(bits as nat),
    ensures
        r == magic_fits(blockers@, attacks@, magic, bits as int),
{
    let n = blockers.len();
    let mut used: Vec<u64> = Vec::new();
    let mut k: usize = 0;
    while k < n
        invariant
            k <= n,
            used@.len() == k,
            forall|q: int| 0 <= q < k ==> #[trigger] used@[q] == 0,
        decreases n - k,
    {
        used.push(0);
        k = k + 1;
    }
    let mut fail = false;
    let mut i: usize = 0;
    while i < n && !fail
        invariant
            1 <= bits <= 12,
            n == blockers@.len(),
            n == attacks@.len(),
            n == vstd::arithmetic::power2::pow2(bits as nat),
            used@.len() == n,
            i <= n,
            !fail ==> forall|q: int|
                0 <= q < i && attacks@[q] != 0 ==> #[trigger] used@[magic_slot(
                    blockers@[q],
                    magic,
                    bits as int,
                )] == attacks@[q],
            !fail ==> forall|slot: int|
                0 <= slot < n && #[trigger] used@[slot] != 0 ==> exists|q: int|
                    0 <= q < i && magic_slot(blockers@[q], magic, bits as int) == slot
                        && attacks@[q] == used@[slot],
            !fail ==> forall|a: int, b: int|
                0 <= a < b < i && magic_slot(blockers@[a], magic, bits as int) == magic_slot(
                    blockers@[b],
                    magic,
                    bits as int,
                ) && attacks@[a] != 0 ==> #[trigger] attacks@[a] == #[trigger] attacks@[b],
            fail ==> !magic_fits(blockers@, attacks@, magic, bits as int),
        decreases n - i + if fail {
            0int
        } else {
            1int
        },
    {
        let index = slot_of(blockers[i], magic, bits);
        if used[index] == 0 {
            let ghost before = used@;
            used.set(index, attacks[i]);
            proof {
                assert forall|q: int|
                    0 <= q < i + 1 && attacks@[q] != 0 implies #[trigger] used@[magic_slot(
                    blockers@[q],
                    magic,
                    bits as int,
                )] == attacks@[q] by {
                    let sq = magic_slot(blockers@[q], magic, bits as int);
                    lemma_slot_range(blockers@[q], magic, bits as int);
                    if q == i {
                        assert(sq == index);
                    } else {
                        assert(before[sq] == attacks@[q]);
                        if sq == index {
                            assert(before[index as int] == 0);
                        } else {
                            assert(used@[sq] == before[sq]);
                        }
                    }
                }
                assert forall|slot: int|
                    0 <= slot < n && #[trigger] used@[slot] != 0 implies exists|q: int|
                    0 <= q < i + 1 && magic_slot(blockers@[q], magic, bits as int) == slot
                        && attacks@[q] == used@[slot] by {
                    if slot == index {
                        assert(magic_slot(blockers@[i as int], magic, bits as int) == slot);
                    } else {
                        assert(before[slot] != 0);
                    }
                }
                assert forall|a: int, b: int|
                    0 <= a < b < i + 1 && magic_slot(blockers@[a], magic, bits as int)
                        == magic_slot(blockers@[b], magic, bits as int) && attacks@[a]
                        != 0 implies #[trigger] attacks@[a] == #[trigger] attacks@[b] by {
                    if b == i {
                        assert(before[index as int] == attacks@[a]);
                    }
                }
            }
        } else if used[index] != attacks[i] {
            proof {
                let q = choose|q: int|
                    0 <= q < i && magic_slot(blockers@[q], magic, bits as int) == index
                        && attacks@[q] == used@[index as int];
                assert(attacks@[q] != attacks@[i as int]);
            }
            fail = true;
        } else {
            proof {
                assert forall|a: int, b: int|
                    0 <= a < b < i + 1 && magic_slot(blockers@[a], magic, bits as int)
                        == magic_slot(blockers@[b], magic, bits as int) && attacks@[a]
                        != 0 implies #[trigger] attacks@[a] == #[trigger] attacks@[b] by {
                    if b == i {
                        assert(used@[index as int] == attacks@[a]);
                    }
                }
            }
        }
        if !fail {
            i = i + 1;
        }
    }
    !fail
}

/// Tries sparse random numbers until one is a good magic for the tables, at most `MAX_TRIES`
/// times.
fn search_magic(mask: u64, blockers: &Vec<u64>, attacks: &Vec<u64>, bits: i32, rng: &mut XorShift64) -> (r: Option<u64>)
    requires
        1 <= bits <= 12,
        blockers@.len() == attacks@.len(),
        blockers@.len() == vstd::arithmetic::power2::pow2(bits as nat),
    ensures
        search_outcome(old(rng).state, mask, blockers@, attacks@, bits as int, r, final(rng).state),
{
    let ghost s0 = rng.state;
    let mut tries: u32 = 0;
    while tries < MAX_TRIES
        invariant
            1 <= bits <= 12,
            blockers@.len() == attacks@.len(),
            blockers@.len() == vstd::arithmetic::power2::pow2(bits as nat),
            tries <= MAX_TRIES,
            rng.state == draw_state(s0, tries as nat),
            s0 == old(rng).state,
            forall|j: nat|
                j < tries ==> !magic_good(
                    mask,
                    blockers@,
                    attacks@,
                    #[trigger] draw(s0, j),
                    bits as int,
                ),
        decreases MAX_TRIES - tries,
    {
        let ghost before = rng.state;
        let magic = rng.few_bits();
        proof {
            assert(draw_state(before, 0) == before);
            assert(rng.state == draw_state(s0, tries as nat + 1));
            assert(magic == draw(s0, tries as nat));
        }
        let top = count_bits(mask.wrapping_mul(magic) & 0xFF00_0000_0000_0000);
        if top >= 6 && magic_fits_tables(blockers, attacks, magic, bits) {
            proof {
                let k = tries as nat;
                assert(k < MAX_TRIES && magic == draw(s0, k) && magic_good(mask, blockers@, attacks@, magic, bits as int));
            }
            return Some(magic);
        }
        tries = tries + 1;
    }
    None
}

/// The blocker sets of `mask` by index, and the attacks of a slider on `sq` for each.
fn build_tables(sq: i32, bits: i32, mask: u64, rook: bool) -> (r: (Vec<u64>, Vec<u64>))
    requires
        0 <= sq < 64,
        1 <= bits <= 12,
        bits <= popcount(mask),
    ensures
        r.0@ == blocker_table(mask, bits as int),
        r.1@ == attack_table(sq as int, mask, bits as int, rook),
{
    proof {
        vstd::arithmetic::power2::lemma_pow2_strictly_increases(bits as nat, 13);
        assert(vstd::arithmetic::power2::pow2(13) == 8192) by {
            vstd::arithmetic::power2::lemma2_to64();
        }
        vstd::bits::lemma_usize_shl_is_mul(1, bits as usize);
    }
    let num_combinations = 1usize << (bits as usize);
    let mut b_table: Vec<u64> = Vec::new();
    let mut a_table: Vec<u64> = Vec::new();
    let mut i: usize = 0;
    while i < num_combinations
        invariant
            0 <= sq < 64,
            1 <= bits <= 12,
            bits <= popcount(mask),
            num_combinations == vstd::arithmetic::power2::pow2(bits as nat),
            num_combinations <= 8192,
            i <= num_combinations,
            b_table@.len() == i,
            a_table@.len() == i,
            forall|q: int| 0 <= q < i ==> #[trigger] b_table@[q] == blocker_set(q, bits as int, mask),
            forall|q: int|
                0 <= q < i ==> #[trigger] a_table@[q] == if rook {
                    rook_attack_set(b_table@[q], sq as int)
                } else {
                    bishop_attack_set(b_table@[q], sq as int)
                },
        decreases num_combinations - i,
    {
        let b = index_to_blockers(i as i32, bits, mask);
        proof {
            assert(is_blocker_set(i as int, bits as int, mask, b));
            lemma_blocker_set_unique(i as int, bits as int, mask, b);
        }
        let a = if rook {
            let r = rook_attacks_bruteforce(sq, b);
            proof {
                assert(crate::evaluate::is_rook_attack_set(b, sq as int, r));
                lemma_bits_ext(r, rook_attack_set(b, sq as int));
            }
            r
        } else {
            let r = bishop_attacks_bruteforce(sq, b);
            proof {
                assert(crate::evaluate::is_bishop_attack_set(b, sq as int, r));
                lemma_bits_ext(r, bishop_attack_set(b, sq as int));
            }
            r
        };
        b_table.push(b);
        a_table.push(a);
        i = i + 1;
    }
    assert(b_table@ =~= blocker_table(mask, bits as int));
    assert(a_table@ =~= attack_table(sq as int, mask, bits as int, rook));
    (b_table, a_table)
}

/// The blocker set is the only bitboard with its squares.
proof fn lemma_blocker_set_unique(index: int, bits: int, mask: u64, b: u64)
    requires
        is_blocker_set(index, bits, mask, b),
    ensures
        blocker_set(index, bits, mask) == b,
{
    let c = blocker_set(index, bits, mask);
    assert(is_blocker_set(index, bits, mask, c));
    lemma_bits_ext(b, c);
}

/// The relevance mask is the only bitboard with its squares.
pub(crate) proof fn lemma_relevance_mask_unique(s: int, rook: bool, m: u64)
    requires
        is_relevance_mask(s, rook, m),
    ensures
        relevance_mask(s, rook) == m,
{
    let c = relevance_mask(s, rook);
    assert(is_relevance_mask(s, rook, c));
    lemma_bits_ext(m, c);
}

/// A magic number for a rook on `sq` with `bits` relevant squares: the first sparse draw of
/// `rng` that passes the quick test and fits the rook's blocker and attack tables, or `None`
/// after `MAX_TRIES` draws.
pub fn find_rook_magic(sq: i32, bits: i32, rng: &mut XorShift64) -> (r: Option<u64>)
    requires
        0 <= sq < 64,
        1 <= bits <= 12,
        bits <= popcount(relevance_mask(sq as int, true)),
    ensures
        ({
            let mask = relevance_mask(sq as int, true);
            search_outcome(
                old(rng).state,
                mask,
                blocker_table(mask, bits as int),
                attack_table(sq as int, mask, bits as int, true),
                bits as int,
                r,
                final(rng).state,
            )
        }),
{
    let mask = rook_mask(sq);
    proof {
        assert(is_relevance_mask(sq as int, true, mask));
        lemma_relevance_mask_unique(sq as int, true, mask);
    }
    let (b_table, a_table) = build_tables(sq, bits, mask, true);
    search_magic(mask, &b_table, &a_table, bits, rng)
}

/// A magic number for a bishop on `sq` with `bits` relevant squares: the first sparse draw of
/// `rng` that passes the quick test and fits the bishop's blocker and attack tables, or
/// `None` after `MAX_TRIES` draws.
pub fn find_bishop_magic(sq: i32, bits: i32, rng: &mut XorShift64) -> (r: Option<u64>)
    requires
        0 <= sq < 64,
        1 <= bits <= 12,
        bits <= popcount(relevance_mask(sq as int, false)),
    ensures
        ({
            let mask = relevance_mask(sq as int, false);
            search_outcome(
                old(rng).state,
                mask,
                blocker_table(mask, bits as int),
                attack_table(sq as int, mask, bits as int, false),
                bits as int,
                r,
                final(rng).state,
            )
        }),
{
    let mask = bishop_mask(sq);
    proof {
        assert(is_relevance_mask(sq as int, false, mask));
        lemma_relevance_mask_unique(sq as int, false, mask);
    }
    let (b_table, a_table) = build_tables(sq, bits, mask, false);
    search_magic(mask, &b_table, &a_table, bits, rng)
}

/// The relevant squares of a rook on every square.
pub fn calculate_all_rook_masks() -> (masks: [u64; 64])
    ensures
        forall|s: int, t: int|
            0 <= s < 64 ==> (#[trigger] has_bit(masks[s], t) <==> rook_relevant(s, t)),
{
    let mut masks = [0u64; 64];
    let mut square: usize = 0;
    while square < 64
        invariant
            square <= 64,
            forall|s: int, t: int|
                0 <= s < square ==> (#[trigger] has_bit(masks[s], t) <==> rook_relevant(s, t)),
        decreases 64 - square,
    {
        masks[square] = rook_mask(square as i32);
        square = square + 1;
    }
    masks
}

/// The relevant squares of a bishop on every square.
pub fn calculate_all_bishop_masks() -> (masks: [u64; 64])
    ensures
        forall|s: int, t: int|
            0 <= s < 64 ==> (#[trigger] has_bit(masks[s], t) <==> bishop_relevant(s, t)),
{
    let mut masks = [0u64; 64];
    let mut square: usize = 0;
    while square < 64
        invariant
            square <= 64,
            forall|s: int, t: int|
                0 <= s < square ==> (#[trigger] has_bit(masks[s], t) <==> bishop_relevant(s, t)),
        decreases 64 - square,
    {
        masks[square] = bishop_mask(square as i32);
        square = square + 1;
    }
    masks
}

} // verus!
