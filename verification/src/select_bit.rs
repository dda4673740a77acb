//! Finding the n-th set bit of a word.
//!
//! This is the whole overhead of a sieve lookup, which turns a sparse logical
//! index into a dense physical offset. The bits of a word are counted from the
//! least significant one, and ranks start at zero.
use vstd::prelude::*;
use vstd::std_specs::bits::{
    axiom_u64_leading_zeros, axiom_u64_trailing_zeros, u64_leading_zeros, u64_trailing_zeros,
};

verus! {

/// Whether bit `i` of `mask` is set. No word has a bit at position 64 or above.
pub open spec fn bit_is_set(mask: u64, i: nat) -> bool {
    i < 64 && (mask >> (i as u64)) & 1 == 1
}

/// The number of set bits of `mask` strictly below position `p`.
pub open spec fn rank(mask: u64, p: nat) -> nat
    decreases p,
{
    if p == 0 {
        0
    } else {
        rank(mask, (p - 1) as nat) + if bit_is_set(mask, (p - 1) as nat) {
            1nat
        } else {
            0nat
        }
    }
}

/// The number of set bits of `mask`.
pub open spec fn popcount(mask: u64) -> nat {
    rank(mask, 64)
}

/// Position `p` holds the set bit of rank `n`: bit `p` is set and exactly `n`
/// set bits lie strictly below it.
pub open spec fn is_nth_set_bit(mask: u64, n: nat, p: nat) -> bool {
    bit_is_set(mask, p) && rank(mask, p) == n
}

/// The position of the set bit of rank `n`. Meaningful when `popcount(mask) > n`.
pub open spec fn nth_set_bit(mask: u64, n: nat) -> nat {
    choose|p: nat| is_nth_set_bit(mask, n, p)
}

/// Ranks never decrease with the position, and they step up across a set bit.
pub proof fn lemma_rank_monotone(mask: u64, i: nat, j: nat)
    requires
        i <= j,
    ensures
        rank(mask, i) <= rank(mask, j),
        i < j && bit_is_set(mask, i) ==> rank(mask, i) < rank(mask, j),
        rank(mask, j) <= rank(mask, i) + (j - i),
    decreases j,
{
    if i < j {
        lemma_rank_monotone(mask, i, (j - 1) as nat);
    }
}

/// A rank below the number of set bits under `hi` is held by some set bit under `hi`.
pub proof fn lemma_rank_is_reached(mask: u64, n: nat, hi: nat) -> (p: nat)
    requires
        rank(mask, hi) > n,
    ensures
        p < hi,
        is_nth_set_bit(mask, n, p),
    decreases hi,
{
    if rank(mask, (hi - 1) as nat) > n {
        lemma_rank_is_reached(mask, n, (hi - 1) as nat)
    } else {
        (hi - 1) as nat
    }
}

/// Where no bit from `lo` up to `hi` is set, the rank at `hi` is the rank at `lo`.
pub proof fn lemma_rank_across_clear_bits(mask: u64, lo: nat, hi: nat)
    requires
        lo <= hi,
        forall|i: nat| lo <= i < hi ==> !bit_is_set(mask, i),
    ensures
        rank(mask, hi) == rank(mask, lo),
    decreases hi,
{
    if lo < hi {
        lemma_rank_across_clear_bits(mask, lo, (hi - 1) as nat);
    }
}

/// A word has at most 64 set bits.
pub proof fn lemma_popcount_bound(mask: u64)
    ensures
        popcount(mask) <= 64,
{
    lemma_rank_monotone(mask, 0, 64);
}

/// At most one position holds the set bit of a given rank.
pub proof fn lemma_nth_set_bit_unique(mask: u64, n: nat, p: nat, q: nat)
    requires
        is_nth_set_bit(mask, n, p),
        is_nth_set_bit(mask, n, q),
    ensures
        p == q,
{
    if p < q {
        lemma_rank_monotone(mask, p, q);
    } else if q < p {
        lemma_rank_monotone(mask, q, p);
    }
}

/// Every rank below the population count is held by exactly one set bit, and
/// `nth_set_bit` names it.
pub proof fn lemma_nth_set_bit(mask: u64, n: nat)
    requires
        popcount(mask) > n,
    ensures
        nth_set_bit(mask, n) < 64,
        is_nth_set_bit(mask, n, nth_set_bit(mask, n)),
        forall|p: nat| is_nth_set_bit(mask, n, p) ==> p == nth_set_bit(mask, n),
{
    let w = lemma_rank_is_reached(mask, n, 64);
    assert forall|p: nat| is_nth_set_bit(mask, n, p) implies p == nth_set_bit(mask, n) by {
        lemma_nth_set_bit_unique(mask, n, p, nth_set_bit(mask, n));
    }
}

/// A nonzero word has a set bit of rank 0, and it is the lowest set bit: no
/// bit below it is set, and it stands at the number of trailing zeros.
pub proof fn lemma_first_is_lowest(mask: u64)
    requires
        mask != 0,
    ensures
        popcount(mask) > 0,
        bit_is_set(mask, nth_set_bit(mask, 0)),
        forall|j: nat| j < nth_set_bit(mask, 0) ==> !bit_is_set(mask, j),
        nth_set_bit(mask, 0) == u64_trailing_zeros(mask),
{
    lemma_lowest_set_bit(mask);
    let t = u64_trailing_zeros(mask) as nat;
    lemma_rank_monotone(mask, t, 64);
    assert forall|j: nat| j < t && bit_is_set(mask, j) implies rank(mask, j) < 0 by {}
    lemma_rank_bounded(mask, 0, t);
    lemma_nth_set_bit(mask, 0);
    assert(is_nth_set_bit(mask, 0, t));
}

/// In a nonzero word the set bit of the highest rank is the highest set bit:
/// no bit above it is set, and it stands 63 minus the number of leading zeros
/// from the bottom.
pub proof fn lemma_last_is_highest(mask: u64)
    requires
        mask != 0,
    ensures
        popcount(mask) > 0,
        bit_is_set(mask, nth_set_bit(mask, (popcount(mask) - 1) as nat)),
        forall|j: nat|
            nth_set_bit(mask, (popcount(mask) - 1) as nat) < j ==> !bit_is_set(mask, j),
        nth_set_bit(mask, (popcount(mask) - 1) as nat) == 63 - u64_leading_zeros(mask),
{
    lemma_first_is_lowest(mask);
    let last = (popcount(mask) - 1) as nat;
    lemma_nth_set_bit(mask, last);
    let hi = nth_set_bit(mask, last);
    assert forall|j: nat| hi < j implies !bit_is_set(mask, j) by {
        if bit_is_set(mask, j) {
            lemma_rank_monotone(mask, hi, j);
            lemma_rank_monotone(mask, j, 64);
        }
    }
    axiom_u64_leading_zeros(mask);
    let top = (63 - u64_leading_zeros(mask)) as nat;
    let x = mask;
    let k = top as u64;
    assert((x >> k) & 1 == 1) by (bit_vector)
        requires
            (x >> k) & 1 != 0,
    ;
    assert(bit_is_set(mask, top));
    if hi < top {
        assert(!bit_is_set(mask, top));
    } else if top < hi {
        assert((mask >> (hi as u64)) & 1 == 0);
    }
}

/// The zero word has no set bit.
pub proof fn lemma_zero_word(i: nat)
    ensures
        !bit_is_set(0, i),
{
    if i < 64 {
        let k = i as u64;
        assert((0u64 >> k) & 1 == 0) by (bit_vector)
            requires
                k < 64,
        ;
    }
}

/// Setting bit `n` of a `usize` sets that bit and leaves every other as it was.
pub proof fn lemma_set_bit(sieve: usize, n: usize, i: nat)
    requires
        n < usize::BITS,
    ensures
        bit_is_set((sieve | (1usize << n)) as u64, i) == (bit_is_set(sieve as u64, i) || i == n),
{
    if i < 64 {
        let k = i as u64;
        assert(((((sieve | (1usize << n)) as u64) >> k) & 1 == 1) == ((((sieve as u64) >> k) & 1
            == 1) || k == n)) by (bit_vector)
            requires
                n < usize::BITS,
                k < 64,
        ;
    }
}

/// A `usize` has no set bit at or above its width.
pub proof fn lemma_bits_of_usize(sieve: usize, p: nat)
    ensures
        bit_is_set(sieve as u64, p) ==> p < usize::BITS,
{
    if p < 64 && p >= usize::BITS {
        let x = sieve as u64;
        let i = p as u64;
        assert((x >> i) & 1 == 0) by (bit_vector)
            requires
                x <= 0xffff_ffff,
                32 <= i < 64,
        ;
    }
}

/// A word with a set bit is not zero.
proof fn lemma_set_bit_nonzero(x: u64, i: u64)
    by (bit_vector)
    requires
        i < 64,
        (x >> i) & 1 == 1,
    ensures
        x != 0,
{
}

/// The word `1 << n` has bit `n` set and no other.
proof fn lemma_single_bit(n: u64, i: u64)
    by (bit_vector)
    requires
        n < 64,
        i < 64,
    ensures
        (((1u64 << n) >> i) & 1 == 1) == (i == n),
{
}

/// Every bit of the full word is set, so the set bit of rank `p` stands at `p`.
proof fn lemma_full_word(p: nat)
    requires
        p <= 64,
    ensures
        rank(u64::MAX, p) == p,
        p < 64 ==> bit_is_set(u64::MAX, p),
    decreases p,
{
    if p < 64 {
        let i = p as u64;
        assert((0xffff_ffff_ffff_ffffu64 >> i) & 1 == 1) by (bit_vector)
            requires
                i < 64,
        ;
    }
    if p > 0 {
        lemma_full_word((p - 1) as nat);
    }
}

/// Clearing the lowest set bit of `x`, which stands at position `t`, leaves
/// every other bit as it was.
proof fn lemma_clear_lowest_bit(x: u64, t: u64, i: u64)
    by (bit_vector)
    requires
        t < 64,
        i < 64,
        (x >> t) & 1 == 1,
        x << ((64 - t) as u64) == 0,
    ensures
        (((x & ((x - 1) as u64)) >> i) & 1 == 1) == (((x >> i) & 1 == 1) && i != t),
{
}

/// The lowest set bit of a nonzero word stands at its number of trailing
/// zeros, and clearing it leaves every other bit as it was.
proof fn lemma_lowest_set_bit(x: u64)
    requires
        x != 0,
    ensures
        bit_is_set(x, u64_trailing_zeros(x) as nat),
        forall|j: nat| j < u64_trailing_zeros(x) ==> !bit_is_set(x, j),
        forall|i: nat|
            bit_is_set((x & ((x - 1) as u64)), i) == (bit_is_set(x, i) && i != u64_trailing_zeros(
                x,
            )),
{
    axiom_u64_trailing_zeros(x);
    let t = u64_trailing_zeros(x) as u64;
    assert forall|j: nat| j < u64_trailing_zeros(x) implies !bit_is_set(x, j) by {
        assert((x >> (j as u64)) & 1 == 0);
    }
    assert forall|i: nat|
        bit_is_set((x & ((x - 1) as u64)), i) == (bit_is_set(x, i) && i != u64_trailing_zeros(
            x,
        )) by {
        if i < 64 {
            lemma_clear_lowest_bit(x, t, i as u64);
        }
    }
}

/// If every set bit below `t` has a rank under `k`, at most `k` set bits lie below `t`.
proof fn lemma_rank_bounded(mask: u64, k: nat, t: nat)
    requires
        forall|j: nat| j < t && bit_is_set(mask, j) ==> rank(mask, j) < k,
    ensures
        rank(mask, t) <= k,
    decreases t,
{
    if t > 0 {
        lemma_rank_bounded(mask, k, (t - 1) as nat);
    }
}

/// `bits` is `mask` without its `k` lowest set bits.
spec fn lowest_cleared(mask: u64, k: nat, bits: u64) -> bool {
    forall|i: nat| bit_is_set(bits, i) == (bit_is_set(mask, i) && rank(mask, i) >= k)
}

/// In a word that is `mask` without its `k` lowest set bits, the lowest set
/// bit is the set bit of rank `k` of `mask`; clearing it leaves `mask` without
/// its `k + 1` lowest set bits.
proof fn lemma_lowest_cleared_step(mask: u64, k: nat, bits: u64)
    requires
        lowest_cleared(mask, k, bits),
        popcount(mask) > k,
    ensures
        bits != 0,
        is_nth_set_bit(mask, k, u64_trailing_zeros(bits) as nat),
        lowest_cleared(mask, k + 1, (bits & ((bits - 1) as u64))),
{
    let p = lemma_rank_is_reached(mask, k, 64);
    assert(bit_is_set(bits, p));
    lemma_set_bit_nonzero(bits, p as u64);
    lemma_lowest_set_bit(bits);
    let t = u64_trailing_zeros(bits) as nat;
    assert(bit_is_set(bits, t));
    assert forall|j: nat| j < t && bit_is_set(mask, j) implies rank(mask, j) < k by {
        assert(!bit_is_set(bits, j));
    }
    lemma_rank_bounded(mask, k, t);
    let next = (bits & ((bits - 1) as u64));
    assert forall|i: nat|
        bit_is_set(next, i) == (bit_is_set(mask, i) && rank(mask, i) >= k + 1) by {
        if bit_is_set(mask, i) && rank(mask, i) >= k {
            if i < t {
                lemma_rank_monotone(mask, i, t);
            } else if t < i {
                lemma_rank_monotone(mask, t, i);
            }
        }
    }
}

/// Returns the position of the set bit of rank `n`, by clearing the lowest set
/// bit `n` times and counting the trailing zeros of what is left.
///
/// For a small `n` known at compile time the loop unrolls.
#[inline(always)]
pub fn find_nth_set_bit_small(sieve: usize, n: u32) -> (p: u32)
    requires
        popcount(sieve as u64) > n,
    ensures
        is_nth_set_bit(sieve as u64, n as nat, p as nat),
{
    let mut bits: u64 = sieve as u64;
    let mut k: u32 = 0;
    while k < n
        invariant
            k <= n,
            popcount(sieve as u64) > n,
            lowest_cleared(sieve as u64, k as nat, bits),
        decreases n - k,
    {
        proof {
            lemma_lowest_cleared_step(sieve as u64, k as nat, bits);
        }
        bits = bits & bits.wrapping_sub(1);
        k = k + 1;
    }
    proof {
        lemma_lowest_cleared_step(sieve as u64, n as nat, bits);
    }
    bits.trailing_zeros()
}

/// `bitintr::Pdep::pdep` on 64-bit words: parallel bits deposit.
///
/// The low-order bits of `value` are scattered, in order, to the positions of
/// the set bits of `mask`: the bit of `value` at position `k` lands on the set
/// bit of rank `k` of `mask`. Every other bit of the result is zero.
///
/// The full mask is left out: without the hardware instruction the crate
/// doubles a probe bit once for each set bit of the mask, and the 64th
/// doubling overflows.
#[verifier::external_body]
fn deposit_bits(value: u64, mask: u64) -> (r: u64)
    requires
        mask != u64::MAX,
    ensures
        forall|p: nat|
            bit_is_set(r, p) == (bit_is_set(mask, p) && bit_is_set(value, rank(mask, p))),
{
    bitintr::Pdep::pdep(value, mask)
}

/// Returns the position of the set bit of rank `n`, by depositing a single
/// bit at position `n` through the sieve and counting the trailing zeros of
/// the result.
///
/// This is the fast path where the target has a parallel-bit-deposit
/// instruction.
pub fn find_nth_set_bit_deposit(sieve: usize, n: u32) -> (p: u32)
    requires
        popcount(sieve as u64) > n,
    ensures
        is_nth_set_bit(sieve as u64, n as nat, p as nat),
{
    let mask: u64 = sieve as u64;
    proof {
        lemma_popcount_bound(mask);
    }
    if mask == u64::MAX {
        proof {
            lemma_full_word(n as nat);
        }
        return n;
    }
    let probe: u64 = 1u64 << n;
    let bits: u64 = deposit_bits(probe, mask);
    proof {
        let w = lemma_rank_is_reached(mask, n as nat, 64);
        lemma_single_bit(n as u64, n as u64);
        assert(bit_is_set(bits, w));
        lemma_set_bit_nonzero(bits, w as u64);
        lemma_lowest_set_bit(bits);
        let t = u64_trailing_zeros(bits) as nat;
        assert(bit_is_set(bits, t));
        lemma_rank_monotone(mask, t, 64);
        if rank(mask, t) != n as nat {
            lemma_single_bit(n as u64, rank(mask, t) as u64);
        }
    }
    bits.trailing_zeros()
}

/// `succinct::broadword::select1_raw`: broadword selection in a 64-bit word.
///
/// Where the word has more than `rank` set bits, the call returns the
/// position of the set bit of that rank. What it returns otherwise is not
/// used here.
#[verifier::external_body]
fn broadword_select(rank: usize, word: u64) -> (p: usize)
    requires
        popcount(word) > rank,
    ensures
        is_nth_set_bit(word, rank as nat, p as nat),
{
    succinct::broadword::select1_raw(rank, word)
}

/// Returns the position of the set bit of rank `n`, by broadword selection.
///
/// This needs no bit-manipulation instruction of the target, and its cost
/// does not grow with `n`.
pub fn find_nth_set_bit_broadword(sieve: usize, n: u32) -> (p: u32)
    requires
        popcount(sieve as u64) > n,
    ensures
        is_nth_set_bit(sieve as u64, n as nat, p as nat),
{
    let p: usize = broadword_select(n as usize, sieve as u64);
    p as u32
}

/// Whether the unrolled loop gives way to the bit deposit above rank 3. Set
/// it for targets where the deposit is a single fast instruction.
pub const FAST_DEPOSIT: bool = false;

/// The rank up to which the unrolled loop beats every other strategy.
pub const UNROLLED_MAX_RANK: u32 = 3;

/// The rank from which broadword selection beats the unrolled loop.
pub const BROADWORD_MIN_RANK: u32 = 21;

/// Returns the position of the set bit of rank `n` of `sieve`: the position
/// `p` such that bit `p` is set and exactly `n` set bits lie strictly below
/// it.
///
/// The sieve must have more than `n` set bits. The strategy depends on the
/// rank and on the configuration; the result does not.
#[inline(always)]
pub fn find_nth_set_bit(sieve: usize, n: u32) -> (p: u32)
    requires
        popcount(sieve as u64) > n,
    ensures
        is_nth_set_bit(sieve as u64, n as nat, p as nat),
        p as nat == nth_set_bit(sieve as u64, n as nat),
        p < usize::BITS,
{
    let p: u32 = if n <= UNROLLED_MAX_RANK {
        find_nth_set_bit_small(sieve, n)
    } else if FAST_DEPOSIT {
        find_nth_set_bit_deposit(sieve, n)
    } else if n < BROADWORD_MIN_RANK {
        find_nth_set_bit_small(sieve, n)
    } else {
        find_nth_set_bit_broadword(sieve, n)
    };
    proof {
        lemma_nth_set_bit(sieve as u64, n as nat);
        lemma_bits_of_usize(sieve, p as nat);
    }
    p
}

/// Returns the number of set bits of `sieve`.
pub fn count_set_bits(sieve: usize) -> (c: u32)
    ensures
        c == popcount(sieve as u64),
{
    let mut bits: u64 = sieve as u64;
    let mut c: u32 = 0;
    proof {
        lemma_popcount_bound(sieve as u64);
    }
    while bits != 0
        invariant
            c <= popcount(sieve as u64) <= 64,
            lowest_cleared(sieve as u64, c as nat, bits),
        decreases popcount(sieve as u64) - c,
    {
        proof {
            lemma_lowest_set_bit(bits);
            let t = u64_trailing_zeros(bits) as nat;
            assert(bit_is_set(bits, t));
            lemma_rank_monotone(sieve as u64, t, 64);
            lemma_lowest_cleared_step(sieve as u64, c as nat, bits);
        }
        bits = bits & bits.wrapping_sub(1);
        c = c + 1;
    }
    proof {
        let mask = sieve as u64;
        assert forall|j: nat| j < 64 && bit_is_set(mask, j) implies rank(mask, j) < c by {
            lemma_zero_word(j);
            assert(!bit_is_set(bits, j));
        }
        lemma_rank_bounded(mask, c as nat, 64);
    }
    c
}

/// Returns the position of the set bit of rank `n` of `sieve`, or `None`
/// where the sieve has no more than `n` set bits.
///
/// This is the checked form of [`find_nth_set_bit`]; it counts the set bits
/// first, which the unchecked form leaves to its caller.
pub fn try_find_nth_set_bit(sieve: usize, n: u32) -> (r: Option<u32>)
    ensures
        r is Some <==> popcount(sieve as u64) > n,
        r matches Some(p) ==> is_nth_set_bit(sieve as u64, n as nat, p as nat) && p as nat
            == nth_set_bit(sieve as u64, n as nat),
{
    if n < count_set_bits(sieve) {
        Some(find_nth_set_bit(sieve, n))
    } else {
        None
    }
}

} // verus!
