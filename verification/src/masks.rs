//! Attack patterns of the pieces, as bitboards.
use vstd::prelude::*;
use crate::bits::{
    has_bit, single, lemma_bit_zero, lemma_bit_or_single, lemma_and_single, count_below, popcount,
    count_ones, pop_lsb, lemma_lowest_bit, lemma_bit_xor_single, lemma_bits_empty,
};
use vstd::arithmetic::power2::pow2;
use crate::types::{rank_of, file_of, square_at, on_board};

verus! {

pub open spec fn abs(x: int) -> int {
    if x < 0 {
        -x
    } else {
        x
    }
}

/// `t` is a knight's jump away from `s`.
pub open spec fn knight_jump(s: int, t: int) -> bool {
    &&& 0 <= s < 64
    &&& 0 <= t < 64
    &&& {
        let dr = abs(rank_of(t) - rank_of(s));
        let df = abs(file_of(t) - file_of(s));
        (dr == 1 && df == 2) || (dr == 2 && df == 1)
    }
}

/// `t` is a king's step away from `s`.
pub open spec fn king_step(s: int, t: int) -> bool {
    &&& 0 <= s < 64
    &&& 0 <= t < 64
    &&& s != t
    &&& abs(rank_of(t) - rank_of(s)) <= 1
    &&& abs(file_of(t) - file_of(s)) <= 1
}

/// Walking from (`r`, `f`) in direction (`dr`, `df`) for at most `n` steps, the walk reaches
/// `t` before it leaves the board or passes a square of `blockers` (a blocker itself is reached).
pub open spec fn ray_hits(blockers: u64, r: int, f: int, dr: int, df: int, t: int, n: nat) -> bool
    decreases n,
{
    if n == 0 {
        false
    } else {
        let r1 = r + dr;
        let f1 = f + df;
        if !on_board(r1, f1) {
            false
        } else if square_at(r1, f1) == t {
            true
        } else if has_bit(blockers, square_at(r1, f1)) {
            false
        } else {
            ray_hits(blockers, r1, f1, dr, df, t, (n - 1) as nat)
        }
    }
}

/// A slider on `s` moving in direction (`dr`, `df`) reaches `t`, given the occupied squares.
pub open spec fn ray(blockers: u64, s: int, dr: int, df: int, t: int) -> bool {
    ray_hits(blockers, rank_of(s), file_of(s), dr, df, t, 8)
}

/// A rook on `s` attacks `t`.
pub open spec fn rook_ray(blockers: u64, s: int, t: int) -> bool {
    ray(blockers, s, 1, 0, t) || ray(blockers, s, -1, 0, t) || ray(blockers, s, 0, 1, t) || ray(
        blockers,
        s,
        0,
        -1,
        t,
    )
}

/// A bishop on `s` attacks `t`.
pub open spec fn bishop_ray(blockers: u64, s: int, t: int) -> bool {
    ray(blockers, s, 1, 1, t) || ray(blockers, s, 1, -1, t) || ray(blockers, s, -1, 1, t) || ray(
        blockers,
        s,
        -1,
        -1,
        t,
    )
}

/// `t` is the square one (`dr`, `df`) step away from `s`, on the board.
pub open spec fn step_target(s: int, dr: int, df: int, t: int) -> bool {
    on_board(rank_of(s) + dr, file_of(s) + df) && t == square_at(rank_of(s) + dr, file_of(s) + df)
}

pub open spec fn knight_dir(i: int) -> (int, int) {
    if i == 0 {
        (2, 1)
    } else if i == 1 {
        (2, -1)
    } else if i == 2 {
        (1, 2)
    } else if i == 3 {
        (1, -2)
    } else if i == 4 {
        (-2, -1)
    } else if i == 5 {
        (-2, 1)
    } else if i == 6 {
        (-1, -2)
    } else {
        (-1, 2)
    }
}

pub open spec fn king_dir(i: int) -> (int, int) {
    if i == 0 {
        (1, 0)
    } else if i == 1 {
        (1, -1)
    } else if i == 2 {
        (1, 1)
    } else if i == 3 {
        (0, 1)
    } else if i == 4 {
        (0, -1)
    } else if i == 5 {
        (-1, -1)
    } else if i == 6 {
        (-1, 0)
    } else {
        (-1, 1)
    }
}

/// `t` is reached from `s` by one of the first `k` knight jumps.
pub open spec fn knight_upto(s: int, t: int, k: int) -> bool
    decreases k,
{
    if k <= 0 {
        false
    } else {
        knight_upto(s, t, k - 1) || step_target(s, knight_dir(k - 1).0, knight_dir(k - 1).1, t)
    }
}

/// `t` is reached from `s` by one of the first `k` king steps.
pub open spec fn king_upto(s: int, t: int, k: int) -> bool
    decreases k,
{
    if k <= 0 {
        false
    } else {
        king_upto(s, t, k - 1) || step_target(s, king_dir(k - 1).0, king_dir(k - 1).1, t)
    }
}

proof fn lemma_square_coords(s: int)
    requires
        0 <= s < 64,
    ensures
        s == 8 * rank_of(s) + file_of(s),
        0 <= rank_of(s) < 8,
        0 <= file_of(s) < 8,
{
}

proof fn lemma_step_target(s: int, dr: int, df: int, t: int)
    requires
        0 <= s < 64,
        0 <= t < 64,
    ensures
        step_target(s, dr, df, t) <==> (rank_of(t) - rank_of(s) == dr && file_of(t) - file_of(s)
            == df),
{
    lemma_square_coords(s);
    lemma_square_coords(t);
}

proof fn lemma_knight_upto(s: int, t: int)
    requires
        0 <= s < 64,
    ensures
        knight_upto(s, t, 8) <==> knight_jump(s, t),
{
    reveal_with_fuel(knight_upto, 9);
    if 0 <= t < 64 {
        lemma_step_target(s, 2, 1, t);
        lemma_step_target(s, 2, -1, t);
        lemma_step_target(s, 1, 2, t);
        lemma_step_target(s, 1, -2, t);
        lemma_step_target(s, -2, -1, t);
        lemma_step_target(s, -2, 1, t);
        lemma_step_target(s, -1, -2, t);
        lemma_step_target(s, -1, 2, t);
    } else {
        lemma_square_coords(s);
    }
}

proof fn lemma_king_upto(s: int, t: int)
    requires
        0 <= s < 64,
    ensures
        king_upto(s, t, 8) <==> king_step(s, t),
{
    reveal_with_fuel(king_upto, 9);
    if 0 <= t < 64 {
        lemma_square_coords(s);
        lemma_square_coords(t);
        lemma_step_target(s, 1, 0, t);
        lemma_step_target(s, 1, -1, t);
        lemma_step_target(s, 1, 1, t);
        lemma_step_target(s, 0, 1, t);
        lemma_step_target(s, 0, -1, t);
        lemma_step_target(s, -1, -1, t);
        lemma_step_target(s, -1, 0, t);
        lemma_step_target(s, -1, 1, t);
    } else {
        lemma_square_coords(s);
    }
}

/// Adds square `t` to the bitboard `m`.
pub fn add_square(m: u64, t: u8) -> (r: u64)
    requires
        t < 64,
    ensures
        r == m | single(t as int),
        forall|x: int| #[trigger] has_bit(r, x) <==> (has_bit(m, x) || x == t as int),
{
    proof {
        lemma_bit_or_single(m, t as int);
    }
    m | (1u64 << t)
}

/// Squares a knight on `square` attacks.
pub fn knight_attacks(square: u8) -> (m: u64)
    requires
        square < 64,
    ensures
        forall|t: int| #[trigger] has_bit(m, t) <==> knight_jump(square as int, t),
{
    let r = square / 8;
    let f = square % 8;
    let ghost s = square as int;
    let mut m: u64 = 0;
    proof {
        lemma_bit_zero();
        lemma_square_coords(s);
    }
    if r + 2 <= 7 && f + 1 <= 7 {
        m = add_square(m, square + 17);
    }
    assert forall|t: int| #[trigger] has_bit(m, t) <==> knight_upto(s, t, 1) by {
        assert(!knight_upto(s, t, 0));
    }
    if r + 2 <= 7 && f >= 1 {
        m = add_square(m, square + 15);
    }
    assert forall|t: int| #[trigger] has_bit(m, t) <==> knight_upto(s, t, 2) by {}
    if r + 1 <= 7 && f + 2 <= 7 {
        m = add_square(m, square + 10);
    }
    assert forall|t: int| #[trigger] has_bit(m, t) <==> knight_upto(s, t, 3) by {}
    if r + 1 <= 7 && f >= 2 {
        m = add_square(m, square + 6);
    }
    assert forall|t: int| #[trigger] has_bit(m, t) <==> knight_upto(s, t, 4) by {}
    if r >= 2 && f >= 1 {
        m = add_square(m, square - 17);
    }
    assert forall|t: int| #[trigger] has_bit(m, t) <==> knight_upto(s, t, 5) by {}
    if r >= 2 && f + 1 <= 7 {
        m = add_square(m, square - 15);
    }
    assert forall|t: int| #[trigger] has_bit(m, t) <==> knight_upto(s, t, 6) by {}
    if r >= 1 && f >= 2 {
        m = add_square(m, square - 10);
    }
    assert forall|t: int| #[trigger] has_bit(m, t) <==> knight_upto(s, t, 7) by {}
    if r >= 1 && f + 2 <= 7 {
        m = add_square(m, square - 6);
    }
    assert forall|t: int| #[trigger] has_bit(m, t) <==> knight_jump(s, t) by {
        assert(has_bit(m, t) <==> knight_upto(s, t, 8));
        lemma_knight_upto(s, t);
    }
    m
}

/// Squares a king on `square` attacks.
pub fn king_attacks(square: u8) -> (m: u64)
    requires
        square < 64,
    ensures
        forall|t: int| #[trigger] has_bit(m, t) <==> king_step(square as int, t),
{
    let r = square / 8;
    let f = square % 8;
    let ghost s = square as int;
    let mut m: u64 = 0;
    proof {
        lemma_bit_zero();
        lemma_square_coords(s);
    }
    if r + 1 <= 7 {
        m = add_square(m, square + 8);
    }
    assert forall|t: int| #[trigger] has_bit(m, t) <==> king_upto(s, t, 1) by {
        assert(!king_upto(s, t, 0));
    }
    if r + 1 <= 7 && f >= 1 {
        m = add_square(m, square + 7);
    }
    assert forall|t: int| #[trigger] has_bit(m, t) <==> king_upto(s, t, 2) by {}
    if r + 1 <= 7 && f + 1 <= 7 {
        m = add_square(m, square + 9);
    }
    assert forall|t: int| #[trigger] has_bit(m, t) <==> king_upto(s, t, 3) by {}
    if f + 1 <= 7 {
        m = add_square(m, square + 1);
    }
    assert forall|t: int| #[trigger] has_bit(m, t) <==> king_upto(s, t, 4) by {}
    if f >= 1 {
        m = add_square(m, square - 1);
    }
    assert forall|t: int| #[trigger] has_bit(m, t) <==> king_upto(s, t, 5) by {}
    if r >= 1 && f >= 1 {
        m = add_square(m, square - 9);
    }
    assert forall|t: int| #[trigger] has_bit(m, t) <==> king_upto(s, t, 6) by {}
    if r >= 1 {
        m = add_square(m, square - 8);
    }
    assert forall|t: int| #[trigger] has_bit(m, t) <==> king_upto(s, t, 7) by {}
    if r >= 1 && f + 1 <= 7 {
        m = add_square(m, square - 7);
    }
    assert forall|t: int| #[trigger] has_bit(m, t) <==> king_step(s, t) by {
        assert(has_bit(m, t) <==> king_upto(s, t, 8));
        lemma_king_upto(s, t);
    }
    m
}

/// Adds to `acc` the squares a slider on `sq` reaches in direction (`dr`, `df`).
fn ray_attacks(sq: i32, blockers: u64, dr: i32, df: i32, acc: u64) -> (result: u64)
    requires
        0 <= sq < 64,
        -1 <= dr <= 1,
        -1 <= df <= 1,
        dr != 0 || df != 0,
    ensures
        forall|t: int| #[trigger] has_bit(result, t) <==> (has_bit(acc, t) || ray(
            blockers,
            sq as int,
            dr as int,
            df as int,
            t,
        )),
{
    let mut result = acc;
    let r0 = sq / 8;
    let f0 = sq % 8;
    let mut r = r0 + dr;
    let mut f = f0 + df;
    let ghost mut pr: int = r0 as int;
    let ghost mut pf: int = f0 as int;
    let ghost mut k: int = 0;
    let mut blocked = false;
    while !blocked && 0 <= r && r <= 7 && 0 <= f && f <= 7
        invariant
            0 <= r0 < 8,
            0 <= f0 < 8,
            sq == r0 * 8 + f0,
            -1 <= dr <= 1,
            -1 <= df <= 1,
            dr != 0 || df != 0,
            0 <= k <= 8,
            r == pr + dr,
            f == pf + df,
            dr == 1 ==> pr == r0 + k,
            dr == 0 ==> pr == r0,
            dr == -1 ==> pr == r0 - k,
            df == 1 ==> pf == f0 + k,
            df == 0 ==> pf == f0,
            df == -1 ==> pf == f0 - k,
            forall|t: int|
                (has_bit(acc, t) || ray(blockers, sq as int, dr as int, df as int, t)) <==> (
                #[trigger] has_bit(result, t) || (!blocked && ray_hits(
                    blockers,
                    pr,
                    pf,
                    dr as int,
                    df as int,
                    t,
                    (8 - k) as nat,
                ))),
        decreases 8 - k + if blocked {
            0int
        } else {
            1int
        },
    {
        let bit: u64 = 1u64 << ((f + r * 8) as u64);
        let ghost x = f + r * 8;
        assert(bit == single(x as int));
        assert(k <= 6);
        assert(ray_hits(blockers, pr, pf, dr as int, df as int, x as int, (8 - k) as nat));
        proof {
            lemma_bit_or_single(result, x as int);
            lemma_and_single(blockers, x as int);
        }
        assert forall|t: int|
            #[trigger] ray_hits(blockers, pr, pf, dr as int, df as int, t, (8 - k) as nat) <==> (t
                == x || (!has_bit(blockers, x as int) && ray_hits(
                blockers,
                r as int,
                f as int,
                dr as int,
                df as int,
                t,
                (7 - k) as nat,
            ))) by {}
        result = result | bit;
        if (blockers & bit) != 0 {
            blocked = true;
        } else {
            proof {
                pr = r as int;
                pf = f as int;
                k = k + 1;
            }
            r = r + dr;
            f = f + df;
        }
    }
    result
}

/// Squares a rook on `sq` attacks when `blockers` are occupied (a blocker itself is attacked).
pub fn rook_attacks_bruteforce(sq: i32, blockers: u64) -> (result: u64)
    requires
        0 <= sq < 64,
    ensures
        forall|t: int| #[trigger] has_bit(result, t) <==> rook_ray(blockers, sq as int, t),
{
    proof {
        lemma_bit_zero();
    }
    let north = ray_attacks(sq, blockers, 1, 0, 0);
    let south = ray_attacks(sq, blockers, -1, 0, north);
    let east = ray_attacks(sq, blockers, 0, 1, south);
    ray_attacks(sq, blockers, 0, -1, east)
}

/// Squares a bishop on `sq` attacks when `blockers` are occupied (a blocker itself is attacked).
pub fn bishop_attacks_bruteforce(sq: i32, blockers: u64) -> (result: u64)
    requires
        0 <= sq < 64,
    ensures
        forall|t: int| #[trigger] has_bit(result, t) <==> bishop_ray(blockers, sq as int, t),
{
    proof {
        lemma_bit_zero();
    }
    let north_east = ray_attacks(sq, blockers, 1, 1, 0);
    let north_west = ray_attacks(sq, blockers, 1, -1, north_east);
    let south_east = ray_attacks(sq, blockers, -1, 1, north_west);
    ray_attacks(sq, blockers, -1, -1, south_east)
}

/// Bit `k` of `index` is set.
pub open spec fn index_selects(index: i32, k: int) -> bool {
    index & (1i32 << (k as u32)) != 0
}

/// The blockers that `index` picks from `mask`: the `k`-th lowest square of the mask is a
/// blocker exactly when bit `k` of `index` is set.
pub open spec fn picked_blocker(index: i32, mask: u64, t: int) -> bool {
    has_bit(mask, t) && index_selects(index, count_below(mask, t) as int)
}

proof fn lemma_count_below_monotone(a: u64, t1: int, t2: int)
    requires
        0 <= t1 <= t2,
    ensures
        count_below(a, t1) <= count_below(a, t2),
    decreases t2 - t1,
{
    if t1 < t2 {
        lemma_count_below_monotone(a, t1, t2 - 1);
    }
}

/// A square of `a` has fewer squares of `a` below it than any later square.
pub(crate) proof fn lemma_count_below_strict(a: u64, t1: int, t2: int)
    requires
        0 <= t1 < t2,
        has_bit(a, t1),
    ensures
        count_below(a, t1) < count_below(a, t2),
{
    lemma_count_below_monotone(a, t1 + 1, t2);
}

/// Every count below `count_below(a, n)` is the count of some square of `a` below `n`.
proof fn lemma_count_below_reached(a: u64, n: int, k: int)
    requires
        0 <= k < count_below(a, n),
        0 <= n,
    ensures
        exists|t: int| 0 <= t < n && has_bit(a, t) && count_below(a, t) == k,
    decreases n,
{
    if k < count_below(a, n - 1) {
        lemma_count_below_reached(a, n - 1, k);
        let t = choose|t: int| 0 <= t < n - 1 && has_bit(a, t) && count_below(a, t) == k;
        assert(0 <= t < n && has_bit(a, t) && count_below(a, t) == k);
    } else {
        assert(has_bit(a, n - 1) && count_below(a, n - 1) == k);
    }
}

/// The blocker set that `index` picks from the lowest `bits` squares of `mask`: the `i`-th
/// lowest square of the mask is a blocker when bit `i` of `index` is set.
pub fn index_to_blockers(index: i32, bits: i32, mask: u64) -> (blockers: u64)
    requires
        0 <= bits <= popcount(mask),
        bits <= 32,
    ensures
        forall|t: int| #[trigger] has_bit(blockers, t) <==> (picked_blocker(index, mask, t)
            && count_below(mask, t) < bits),
{
    let mut rem = mask;
    let mut blockers = 0u64;
    let mut i: i32 = 0;
    proof {
        lemma_bit_zero();
    }
    while i < bits
        invariant
            0 <= i <= bits,
            bits <= popcount(mask),
            bits <= 32,
            forall|t: int|
                #[trigger] has_bit(rem, t) <==> (has_bit(mask, t) && count_below(mask, t) >= i),
            forall|t: int|
                #[trigger] has_bit(blockers, t) <==> (has_bit(mask, t) && count_below(mask, t) < i
                    && index_selects(index, count_below(mask, t) as int)),
        decreases bits - i,
    {
        proof {
            lemma_count_below_reached(mask, 64, i as int);
            let w = choose|t: int| 0 <= t < 64 && has_bit(mask, t) && count_below(mask, t) == i;
            assert(has_bit(rem, w));
            lemma_bits_empty(rem);
        }
        let ghost old_rem = rem;
        let square = pop_lsb(&mut rem);
        proof {
            lemma_lowest_bit(old_rem);
            let z = square as int;
            assert(has_bit(old_rem, z));
            if count_below(mask, z) > i {
                lemma_count_below_reached(mask, z, i as int);
                let t = choose|t: int| 0 <= t < z && has_bit(mask, t) && count_below(mask, t) == i;
                assert(has_bit(old_rem, t));
            }
            assert(count_below(mask, z) == i);
            lemma_bit_xor_single(old_rem, z);
            assert forall|t: int| #[trigger] has_bit(rem, t) <==> (has_bit(mask, t) && count_below(mask, t) >= i + 1) by {
                if has_bit(mask, t) && count_below(mask, t) == i && t != z {
                    if t < z {
                        lemma_count_below_strict(mask, t, z);
                    } else {
                        lemma_count_below_strict(mask, z, t);
                    }
                }
            }
        }
        if (index & (1i32 << (i as u32))) != 0 {
            let ghost before = blockers;
            blockers = blockers | (1u64 << square as u64);
            proof {
                lemma_bit_or_single(before, square as int);
            }
        }
        proof {
            let z = square as int;
            assert forall|t: int| #[trigger] has_bit(blockers, t) <==> (has_bit(mask, t) && count_below(mask, t) < i + 1
                && index_selects(index, count_below(mask, t) as int)) by {
                if has_bit(mask, t) && count_below(mask, t) == i && t != z {
                    if t < z {
                        lemma_count_below_strict(mask, t, z);
                    } else {
                        lemma_count_below_strict(mask, z, t);
                    }
                }
            }
        }
        i = i + 1;
    }
    blockers
}

/// The blocker set that `index` picks from the squares of `mask`: the `i`-th lowest square of
/// the mask is a blocker when bit `i` of `index` is set.
pub fn set_blockers(index: i32, mask: u64) -> (blockers: u64)
    requires
        popcount(mask) <= 32,
    ensures
        forall|t: int| #[trigger] has_bit(blockers, t) <==> picked_blocker(index, mask, t),
{
    let bits = count_ones(mask) as i32;
    let blockers = index_to_blockers(index, bits, mask);
    proof {
        assert forall|t: int| #[trigger] has_bit(blockers, t) <==> picked_blocker(index, mask, t) by {
            if has_bit(mask, t) {
                lemma_count_below_strict(mask, t, 64);
            }
        }
    }
    blockers
}

/// Sum of `2^(64 - shifts[i])` over the first `n` squares: the start of square `n`'s part of
/// a shared attack table.
pub open spec fn offset_sum(shifts: Seq<u32>, n: int) -> int
    decreases n,
{
    if n <= 0 {
        0
    } else {
        offset_sum(shifts, n - 1) + pow2((64 - shifts[n - 1]) as nat)
    }
}

pub(crate) proof fn lemma_offset_sum_monotone(shifts: Seq<u32>, i: int, j: int)
    requires
        0 <= i <= j,
    ensures
        offset_sum(shifts, i) <= offset_sum(shifts, j),
    decreases j - i,
{
    if i < j {
        lemma_offset_sum_monotone(shifts, i, j - 1);
    }
}

/// Where each square's part of a shared attack table starts: square 0 at 0, each next one
/// after the `2^(64 - shift)` entries of the previous square.
pub fn calculate_offsets(shifts: &[u32; 64]) -> (offsets: [usize; 64])
    requires
        forall|i: int| 0 <= i < 64 ==> 64 - usize::BITS < #[trigger] shifts[i] <= 64,
        offset_sum(shifts@, 64) <= usize::MAX,
    ensures
        forall|i: int| 0 <= i < 64 ==> #[trigger] offsets[i] == offset_sum(shifts@, i),
{
    let mut offsets = [0usize; 64];
    let mut square: usize = 0;
    let mut cumulative: usize = 0;
    while square < 64
        invariant
            square <= 64,
            forall|i: int| 0 <= i < 64 ==> 64 - usize::BITS < #[trigger] shifts[i] <= 64,
            offset_sum(shifts@, 64) <= usize::MAX,
            cumulative == offset_sum(shifts@, square as int),
            forall|i: int| 0 <= i < square ==> #[trigger] offsets[i] == offset_sum(shifts@, i),
        decreases 64 - square,
    {
        offsets[square] = cumulative;
        let bits = (64 - shifts[square]) as usize;
        proof {
            lemma_offset_sum_monotone(shifts@, square + 1, 64);
            assert(pow2(bits as nat) <= usize::MAX);
            vstd::bits::lemma_usize_shl_is_mul(1, bits);
        }
        cumulative = cumulative + (1usize << bits);
        square = square + 1;
    }
    offsets
}

/// The knight attack set of every square.
pub fn calculate_knight_attacks() -> (attacks: [u64; 64])
    ensures
        forall|s: int, t: int|
            0 <= s < 64 ==> (#[trigger] has_bit(attacks[s], t) <==> knight_jump(s, t)),
{
    let mut attacks = [0u64; 64];
    let mut square: usize = 0;
    while square < 64
        invariant
            square <= 64,
            forall|s: int, t: int|
                0 <= s < square ==> (#[trigger] has_bit(attacks[s], t) <==> knight_jump(s, t)),
        decreases 64 - square,
    {
        attacks[square] = knight_attacks(square as u8);
        square = square + 1;
    }
    attacks
}

/// The king attack set of every square.
pub fn calculate_king_attacks() -> (attacks: [u64; 64])
    ensures
        forall|s: int, t: int|
            0 <= s < 64 ==> (#[trigger] has_bit(attacks[s], t) <==> king_step(s, t)),
{
    let mut attacks = [0u64; 64];
    let mut square: usize = 0;
    while square < 64
        invariant
            square <= 64,
            forall|s: int, t: int|
                0 <= s < square ==> (#[trigger] has_bit(attacks[s], t) <==> king_step(s, t)),
        decreases 64 - square,
    {
        attacks[square] = king_attacks(square as u8);
        square = square + 1;
    }
    attacks
}

} // verus!
