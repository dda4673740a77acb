//! The inline-sieve table: a dense array of slots next to a sieve that says
//! which of them hold a function.
//!
//! The absent slots are stored all the same, so nothing is saved: this layout
//! measures what it costs to go through a sieve, with the storage held
//! constant.
use crate::select_bit::{
    bit_is_set, count_set_bits, find_nth_set_bit, lemma_nth_set_bit, lemma_rank_across_clear_bits,
    lemma_set_bit, lemma_zero_word, nth_set_bit, popcount, rank,
};
use crate::FuncTablePtr;
use vstd::prelude::*;

verus! {

/// The functions that are there, in order: the `Some` entries of `slots`
/// without the gaps between them.
pub open spec fn present<F>(slots: Seq<Option<F>>) -> Seq<F>
    decreases slots.len(),
{
    if slots.len() == 0 {
        Seq::empty()
    } else {
        match slots.last() {
            Some(f) => present(slots.drop_last()).push(f),
            None => present(slots.drop_last()),
        }
    }
}

/// The number of functions that are there before position `p` of `slots`:
/// the logical index of the function at `p`, if there is one.
pub open spec fn present_before<F>(slots: Seq<Option<F>>, p: int) -> nat {
    present(slots.take(p)).len()
}

/// The logical function list behind a sieve: for each rank, the slot at the
/// position of the set bit of that rank.
pub open spec fn sieved<F>(slots: Seq<F>, sieve: u64) -> Seq<F> {
    Seq::new(popcount(sieve), |k: int| slots[nth_set_bit(sieve, k as nat) as int])
}

/// The slots that a table stores for the given entries: each function at
/// its position and the filler in each gap.
pub open spec fn filled<F>(slots: Seq<Option<F>>, filler: F) -> Seq<F> {
    Seq::new(
        slots.len(),
        |i: int|
            match slots[i] {
                Some(f) => f,
                None => filler,
            },
    )
}

/// The sieve marks the entries of `slots` that are there: bit `i` is set
/// where entry `i` is a function, and no other bit is set.
pub open spec fn marks_present<F>(sieve: u64, slots: Seq<Option<F>>) -> bool {
    forall|i: nat|
        #![trigger bit_is_set(sieve, i)]
        #![trigger slots[i as int]]
        bit_is_set(sieve, i) == (i < slots.len() && slots[i as int] is Some)
}

/// Every set bit of `sieve` stands below `len`.
pub open spec fn sieve_within(sieve: u64, len: nat) -> bool {
    forall|i: nat| bit_is_set(sieve, i) ==> i < len
}

/// A function that is there at position `i` of `slots` is found in the list
/// of the functions that are there, at the index that counts the functions
/// before it.
pub proof fn lemma_present_round_trip<F>(slots: Seq<Option<F>>, i: int)
    requires
        0 <= i < slots.len(),
        slots[i] is Some,
    ensures
        present_before(slots, i) < present(slots).len(),
        present(slots)[present_before(slots, i) as int] == slots[i]->0,
    decreases slots.len(),
{
    let init = slots.drop_last();
    if i == slots.len() - 1 {
        assert(slots.take(i) =~= init);
    } else {
        assert(init.take(i) =~= slots.take(i));
        lemma_present_round_trip(init, i);
    }
}

/// Where the bits of `sieve` below `p` mark the functions that are there, the
/// rank at `p` counts the functions before `p`.
pub proof fn lemma_sieve_counts<F>(slots: Seq<Option<F>>, sieve: u64, p: nat)
    requires
        p <= slots.len(),
        forall|i: nat|
            #![trigger bit_is_set(sieve, i)]
            #![trigger slots[i as int]]
            i < p ==> bit_is_set(sieve, i) == (slots[i as int] is Some),
    ensures
        rank(sieve, p) == present_before(slots, p as int),
    decreases p,
{
    if p > 0 {
        lemma_sieve_counts(slots, sieve, (p - 1) as nat);
        assert(slots.take(p as int).drop_last() =~= slots.take(p - 1));
        assert(slots[p - 1] is Some == bit_is_set(sieve, (p - 1) as nat));
    }
}

/// Where the sieve marks the functions that are there in `slots`, the list
/// behind the sieve, read from the slots that a table stores for them, is the
/// list of the functions that are there.
pub proof fn lemma_sieved_is_present<F>(slots: Seq<Option<F>>, filler: F, sieve: u64)
    requires
        marks_present(sieve, slots),
    ensures
        sieved(filled(slots, filler), sieve) == present(slots),
{
    let funcs = filled(slots, filler);
    let len = slots.len();
    assert(len <= 64 ==> rank(sieve, 64) == rank(sieve, len)) by {
        if len <= 64 {
            lemma_rank_across_clear_bits(sieve, len, 64);
        }
    }
    assert(len > 64 ==> rank(sieve, 64) == rank(sieve, len)) by {
        if len > 64 {
            lemma_rank_across_clear_bits(sieve, 64, len);
        }
    }
    lemma_sieve_counts(slots, sieve, len);
    assert(slots.take(len as int) =~= slots);
    assert forall|k: int| 0 <= k < popcount(sieve) implies sieved(funcs, sieve)[k] == present(
        slots,
    )[k] by {
        lemma_nth_set_bit(sieve, k as nat);
        let i = nth_set_bit(sieve, k as nat);
        assert(slots[i as int] is Some);
        lemma_sieve_counts(slots, sieve, i);
        lemma_present_round_trip(slots, i as int);
    }
    assert(sieved(funcs, sieve) =~= present(slots));
}

/// A dense array of `N` slots and the sieve of the slots that hold a function.
pub struct InlineSieveTable<F, const N: usize> {
    funcs: [F; N],
    /// The sieve that a pointer to this table starts out with: bit `i` is set
    /// where slot `i` holds a function, and clear where it holds the filler.
    default_sieve: usize,
}

impl<F, const N: usize> View for InlineSieveTable<F, N> {
    type V = Seq<F>;

    /// The functions that the table holds, without the fillers: the slots
    /// behind the sieve.
    open spec fn view(&self) -> Seq<F> {
        sieved(self.slots(), self.sieve() as u64)
    }
}

impl<F, const N: usize> InlineSieveTable<F, N> {
    /// The `N` slots as they are stored, fillers and all.
    pub closed spec fn slots(&self) -> Seq<F> {
        self.funcs@
    }

    /// The sieve of the slots that hold a function.
    pub closed spec fn sieve(&self) -> usize {
        self.default_sieve
    }

    #[verifier::type_invariant]
    spec fn sieve_fits(self) -> bool {
        sieve_within(self.default_sieve as u64, N as nat)
    }
}

impl<F: Copy, const N: usize> InlineSieveTable<F, N> {
    /// A table holding the given functions at their positions and the filler
    /// at each position where `None` was passed.
    ///
    /// The sieve is one machine word, so the table must not have more slots
    /// than the word has bits.
    pub fn new(opt_funcs: [Option<F>; N], filler: F) -> (table: Self)
        requires
            N <= usize::BITS,
        ensures
            table.slots() == filled(opt_funcs@, filler),
            marks_present(table.sieve() as u64, opt_funcs@),
            table@ == present(opt_funcs@),
    {
        let mut funcs: [F; N] = [filler;N];
        let mut default_sieve: usize = 0;
        let mut n: usize = 0;
        proof {
            assert forall|i: nat| !bit_is_set(0u64, i) by {
                lemma_zero_word(i);
            }
        }
        while n < N
            invariant
                n <= N <= usize::BITS,
                ({
                    let sieve = default_sieve as u64;
                    forall|i: nat|
                        #![trigger bit_is_set(sieve, i)]
                        #![trigger opt_funcs@[i as int]]
                        bit_is_set(sieve, i) == (i < n && opt_funcs@[i as int] is Some)
                }),
                forall|i: int| 0 <= i < n ==> funcs@[i] == filled(opt_funcs@, filler)[i],
                forall|i: int| n <= i < N ==> funcs@[i] == filler,
            decreases N - n,
        {
            let ghost before = default_sieve;
            match opt_funcs[n] {
                Some(f) => {
                    funcs[n] = f;
                    default_sieve = default_sieve | (1usize << n);
                    proof {
                        let sieve = default_sieve as u64;
                        assert forall|i: nat|
                            #![trigger bit_is_set(sieve, i)]
                            #![trigger opt_funcs@[i as int]]
                            bit_is_set(sieve, i) == (i < n + 1 && opt_funcs@[i as int] is Some) by {
                            lemma_set_bit(before, n, i);
                        }
                    }
                },
                None => {},
            }
            n = n + 1;
        }
        proof {
            assert(funcs@ =~= filled(opt_funcs@, filler));
            lemma_sieved_is_present(opt_funcs@, filler, default_sieve as u64);
        }
        Self { funcs, default_sieve }
    }
}

/// A pointer to an inline-sieve table: the sieve, held by value, and a
/// reference to the slots.
pub struct InlineSievePtr<'vt, F, const N: usize> {
    sieve: usize,
    funcs: &'vt [F; N],
}

impl<'vt, F, const N: usize> View for InlineSievePtr<'vt, F, N> {
    type V = Seq<F>;

    /// The functions of the table that the pointer is bound to, without the
    /// fillers: the slots behind the sieve.
    open spec fn view(&self) -> Seq<F> {
        sieved(self.slots(), self.sieve() as u64)
    }
}

impl<'vt, F, const N: usize> InlineSievePtr<'vt, F, N> {
    /// The `N` slots that the pointer borrows, fillers and all.
    pub closed spec fn slots(&self) -> Seq<F> {
        self.funcs@
    }

    /// The sieve that the pointer holds.
    pub closed spec fn sieve(&self) -> usize {
        self.sieve
    }

    #[verifier::type_invariant]
    spec fn sieve_fits(self) -> bool {
        sieve_within(self.sieve as u64, N as nat)
    }
}

impl<'vt, F: Copy, const N: usize> InlineSievePtr<'vt, F, N> {
    /// A pointer bound to `sieve_table`, with the sieve of that table.
    pub fn new(sieve_table: &'vt InlineSieveTable<F, N>) -> (ptr: Self)
        ensures
            ptr.slots() == sieve_table.slots(),
            ptr.sieve() == sieve_table.sieve(),
            ptr@ == sieve_table@,
    {
        proof {
            use_type_invariant(sieve_table);
        }
        Self { sieve: sieve_table.default_sieve, funcs: &sieve_table.funcs }
    }
}

impl<'vt, F: Copy, const N: usize> Clone for InlineSievePtr<'vt, F, N> {
    fn clone(&self) -> (ptr: Self)
        ensures
            ptr == *self,
    {
        *self
    }
}

impl<'vt, F: Copy, const N: usize> Copy for InlineSievePtr<'vt, F, N> {

}

impl<'vt, F: Copy, const N: usize> FuncTablePtr for InlineSievePtr<'vt, F, N> {
    type Func = F;

    open spec fn functions(&self) -> Seq<F> {
        self@
    }

    #[inline(always)]
    fn get_function(&self, n: u32) -> (f: F) {
        proof {
            use_type_invariant(self);
        }
        let offset = find_nth_set_bit(self.sieve, n);
        self.funcs[offset as usize]
    }

    fn try_get_function(&self, n: u32) -> (f: Option<F>) {
        if n < count_set_bits(self.sieve) {
            Some(self.get_function(n))
        } else {
            None
        }
    }
}

} // verus!
