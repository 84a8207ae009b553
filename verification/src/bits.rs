//! Bitboards: a `u64` read as a set of board squares, bit `s` standing for square `s`.
use vstd::prelude::*;

verus! {

/// Square `s` belongs to the bitboard `bb`.
pub open spec fn has_bit(bb: u64, s: int) -> bool {
    0 <= s < 64 && (bb >> (s as u64)) & 1u64 == 1u64
}

/// The bitboard holding the single square `s`.
pub open spec fn single(s: int) -> u64 {
    1u64 << (s as u64)
}

pub proof fn lemma_bit_zero()
    ensures
        forall|s: int| !has_bit(0u64, s),
{
    assert forall|s: int| !has_bit(0u64, s) by {
        if 0 <= s < 64 {
            let t = s as u64;
            assert((0u64 >> t) & 1u64 == 0u64) by (bit_vector);
        }
    }
}

pub proof fn lemma_bit_single(s: int)
    requires
        0 <= s < 64,
    ensures
        forall|t: int| has_bit(single(s), t) <==> t == s,
{
    let su = s as u64;
    assert forall|t: int| has_bit(single(s), t) <==> t == s by {
        if 0 <= t < 64 {
            let tu = t as u64;
            assert(((1u64 << su) >> tu) & 1u64 == 1u64 <==> tu == su) by (bit_vector)
                requires
                    su < 64,
                    tu < 64,
            ;
        }
    }
}

pub proof fn lemma_bit_or(a: u64, b: u64)
    ensures
        forall|t: int| has_bit(a | b, t) <==> (has_bit(a, t) || has_bit(b, t)),
{
    assert forall|t: int| has_bit(a | b, t) <==> (has_bit(a, t) || has_bit(b, t)) by {
        if 0 <= t < 64 {
            let tu = t as u64;
            assert(((a | b) >> tu) & 1u64 == 1u64 <==> ((a >> tu) & 1u64 == 1u64 || (b >> tu)
                & 1u64 == 1u64)) by (bit_vector);
        }
    }
}

/// Adding one square to a bitboard.
pub proof fn lemma_bit_or_single(b: u64, s: int)
    requires
        0 <= s < 64,
    ensures
        forall|t: int| #[trigger] has_bit(b | single(s), t) <==> (has_bit(b, t) || t == s),
{
    lemma_bit_or(b, single(s));
    lemma_bit_single(s);
}

/// Toggling one square of a bitboard.
pub proof fn lemma_bit_xor_single(b: u64, s: int)
    requires
        0 <= s < 64,
    ensures
        forall|t: int| #[trigger] has_bit(b ^ single(s), t) <==> (has_bit(b, t) != (t == s)),
{
    lemma_bit_xor(b, single(s));
    lemma_bit_single(s);
}

/// Testing one square of a bitboard with a mask.
pub proof fn lemma_and_single(b: u64, s: int)
    requires
        0 <= s < 64,
    ensures
        (b & single(s) != 0) <==> has_bit(b, s),
{
    let su = s as u64;
    assert((b & (1u64 << su) != 0) <==> (b >> su) & 1u64 == 1u64) by (bit_vector)
        requires
            su < 64,
    ;
}

pub proof fn lemma_bit_and(a: u64, b: u64)
    ensures
        forall|t: int| has_bit(a & b, t) <==> (has_bit(a, t) && has_bit(b, t)),
{
    assert forall|t: int| has_bit(a & b, t) <==> (has_bit(a, t) && has_bit(b, t)) by {
        if 0 <= t < 64 {
            let tu = t as u64;
            assert(((a & b) >> tu) & 1u64 == 1u64 <==> ((a >> tu) & 1u64 == 1u64 && (b >> tu)
                & 1u64 == 1u64)) by (bit_vector);
        }
    }
}

pub proof fn lemma_bit_xor(a: u64, b: u64)
    ensures
        forall|t: int| has_bit(a ^ b, t) <==> (has_bit(a, t) != has_bit(b, t)),
{
    assert forall|t: int| has_bit(a ^ b, t) <==> (has_bit(a, t) != has_bit(b, t)) by {
        if 0 <= t < 64 {
            let tu = t as u64;
            assert(((a ^ b) >> tu) & 1u64 == 1u64 <==> ((a >> tu) & 1u64 == 1u64) != ((b >> tu)
                & 1u64 == 1u64)) by (bit_vector);
        }
    }
}

pub proof fn lemma_bit_not(a: u64)
    ensures
        forall|t: int| 0 <= t < 64 ==> (has_bit(!a, t) <==> !has_bit(a, t)),
{
    assert forall|t: int| 0 <= t < 64 implies (has_bit(!a, t) <==> !has_bit(a, t)) by {
        let tu = t as u64;
        assert(((!a) >> tu) & 1u64 == 1u64 <==> !((a >> tu) & 1u64 == 1u64)) by (bit_vector)
            requires
                tu < 64,
        ;
    }
}

/// A bitboard with no square in it is zero, and zero has no square.
pub proof fn lemma_bits_empty(a: u64)
    ensures
        (a == 0) <==> (forall|t: int| !has_bit(a, t)),
{
    lemma_bit_zero();
    if a != 0 {
        let t = lowest_bit(a);
        lemma_lowest_bit(a);
        assert(has_bit(a, t as int));
    }
}

/// Two bitboards share a square exactly when their intersection is not zero.
pub proof fn lemma_and_nonzero(a: u64, b: u64)
    ensures
        (a & b != 0) <==> (exists|t: int| 0 <= t < 64 && has_bit(a, t) && has_bit(b, t)),
{
    lemma_bit_and(a, b);
    lemma_bits_empty(a & b);
    if a & b != 0 {
        let t = choose|t: int| has_bit(a & b, t);
        assert(0 <= t < 64 && has_bit(a, t) && has_bit(b, t));
    }
}

/// Two bitboards that hold the same squares are equal.
pub proof fn lemma_bits_ext(a: u64, b: u64)
    requires
        forall|t: int| 0 <= t < 64 ==> has_bit(a, t) == has_bit(b, t),
    ensures
        a == b,
{
    lemma_bit_xor(a, b);
    lemma_bits_empty(a ^ b);
    assert forall|t: int| !has_bit(a ^ b, t) by {
        if 0 <= t < 64 {
            assert(has_bit(a, t) == has_bit(b, t));
        }
    }
    assert(a ^ b == 0);
    assert(a ^ b == 0 ==> a == b) by (bit_vector);
}

/// The lowest square of a bitboard (64 for the empty one).
pub open spec fn lowest_bit(a: u64) -> u32 {
    vstd::std_specs::bits::u64_trailing_zeros(a)
}

pub proof fn lemma_lowest_bit(a: u64)
    ensures
        lowest_bit(a) <= 64,
        (a == 0) <==> (lowest_bit(a) == 64),
        a != 0 ==> has_bit(a, lowest_bit(a) as int),
        forall|t: int| 0 <= t < lowest_bit(a) ==> !has_bit(a, t),
        a != 0 ==> a & ((a - 1) as u64) == a ^ single(lowest_bit(a) as int),
        a != 0 ==> a & ((a - 1) as u64) < a,
{
    assert(a != 0 ==> a & ((a - 1) as u64) < a) by (bit_vector);
    vstd::std_specs::bits::axiom_u64_trailing_zeros(a);
    let z = lowest_bit(a);
    assert forall|t: int| 0 <= t < z implies !has_bit(a, t) by {
        let tu = t as u64;
        assert((a >> tu) & 1u64 == 0u64);
    }
    if a != 0 {
        let zu = z as u64;
        assert(zu < 64);
        assert((a >> zu) & 1u64 == 1u64);
        assert(a << ((64 - zu) as u64) == 0);
        assert(a & ((a - 1) as u64) == a ^ (1u64 << zu)) by (bit_vector)
            requires
                zu < 64,
                (a >> zu) & 1u64 == 1u64,
                a << ((64 - zu) as u64) == 0,
        ;
    }
}

/// Number of squares in a bitboard, counted over its lowest `n` squares.
pub open spec fn count_below(a: u64, n: int) -> nat
    decreases n,
{
    if n <= 0 {
        0
    } else {
        count_below(a, n - 1) + if has_bit(a, n - 1) {
            1nat
        } else {
            0nat
        }
    }
}

/// Number of squares in a bitboard.
pub open spec fn popcount(a: u64) -> nat {
    count_below(a, 64)
}

proof fn lemma_count_below_bound(a: u64, n: int)
    requires
        0 <= n,
    ensures
        count_below(a, n) <= n,
    decreases n,
{
    if n > 0 {
        lemma_count_below_bound(a, n - 1);
    }
}

pub proof fn lemma_popcount_bound(a: u64)
    ensures
        popcount(a) <= 64,
{
    lemma_count_below_bound(a, 64);
}

/// Counts the squares of a bitboard.
pub fn count_ones(a: u64) -> (r: u32)
    ensures
        r == popcount(a),
        r <= 64,
{
    let mut n: u32 = 0;
    let mut i: u64 = 0;
    while i < 64
        invariant
            i <= 64,
            n == count_below(a, i as int),
            n <= i,
        decreases 64 - i,
    {
        if (a >> i) & 1 == 1 {
            n = n + 1;
        }
        i = i + 1;
    }
    n
}

/// Removes the lowest square of `bb` and returns its index, or -1 when `bb` is empty.
pub fn pop_lsb(bb: &mut u64) -> (r: i32)
    ensures
        *old(bb) == 0 ==> r == -1 && *final(bb) == 0,
        *old(bb) != 0 ==> r == lowest_bit(*old(bb)) && 0 <= r < 64 && *final(bb) == *old(bb)
            ^ single(r as int) && has_bit(*old(bb), r as int) && *final(bb) < *old(bb),
{
    if *bb == 0 {
        return -1;
    }
    proof {
        lemma_lowest_bit(*bb);
    }
    let lsb = bb.trailing_zeros();
    *bb = *bb & (*bb - 1);
    lsb as i32
}

/// Xor of `key(s)` over the squares `s < n` of `x`.
pub open spec fn xor_fold(x: u64, key: spec_fn(int) -> u64, n: int) -> u64
    decreases n,
{
    if n <= 0 {
        0u64
    } else {
        xor_fold(x, key, n - 1) ^ (if has_bit(x, n - 1) {
            key(n - 1)
        } else {
            0u64
        })
    }
}

/// Algebra of exclusive or.
pub proof fn lemma_xor_facts(a: u64, b: u64, c: u64)
    ensures
        a ^ 0 == a,
        0 ^ a == a,
        a ^ a == 0,
        a ^ b == b ^ a,
        (a ^ b) ^ c == a ^ (b ^ c),
        (a ^ b) ^ c == (a ^ c) ^ b,
        (a ^ b) ^ b == a,
{
    assert(a ^ 0 == a && 0 ^ a == a && a ^ a == 0 && a ^ b == b ^ a && (a ^ b) ^ c == a ^ (b ^ c)
        && (a ^ b) ^ c == (a ^ c) ^ b && (a ^ b) ^ b == a) by (bit_vector);
}

/// Xoring the same key into both sides of a sum leaves it unchanged.
pub proof fn lemma_xor_cancel(h: u64, f: u64, k: u64)
    ensures
        (h ^ k) ^ (f ^ k) == h ^ f,
{
    assert((h ^ k) ^ (f ^ k) == h ^ f) by (bit_vector);
}

/// The fold over the empty bitboard is zero.
pub proof fn lemma_xor_fold_zero(key: spec_fn(int) -> u64, n: int)
    requires
        0 <= n,
    ensures
        xor_fold(0u64, key, n) == 0,
    decreases n,
{
    lemma_bit_zero();
    if n > 0 {
        lemma_xor_fold_zero(key, n - 1);
        lemma_xor_facts(0, 0, 0);
    }
}

/// Toggling square `t` of `x` toggles `key(t)` in the fold (when `t` is below `n`).
pub proof fn lemma_xor_fold_toggle(x: u64, key: spec_fn(int) -> u64, t: int, n: int)
    requires
        0 <= t < 64,
        0 <= n <= 64,
    ensures
        xor_fold(x ^ single(t), key, n) == xor_fold(x, key, n) ^ (if t < n {
            key(t)
        } else {
            0u64
        }),
    decreases n,
{
    lemma_bit_xor_single(x, t);
    if n == 0 {
        lemma_xor_facts(0, 0, 0);
    } else {
        lemma_xor_fold_toggle(x, key, t, n - 1);
        let f = xor_fold(x, key, n - 1);
        let e = if has_bit(x, n - 1) {
            key(n - 1)
        } else {
            0u64
        };
        if n - 1 != t {
            let dd = if t < n - 1 {
                key(t)
            } else {
                0u64
            };
            lemma_xor_facts(f, dd, e);
        } else {
            lemma_xor_facts(f, key(t), 0);
            lemma_xor_facts(f, 0, key(t));
        }
    }
}

} // verus!
