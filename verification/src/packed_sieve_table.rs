//! The packed-sieve table: groups as in the grouped table, of which only
//! those that are needed are stored, behind a pointer that carries a sieve of
//! the groups in a tag of eight bits.
//!
//! The tag is small enough to share a machine word with the address of a
//! table aligned to 256 bytes. Here the two are held in two fields, which
//! resolves the same functions at the cost of a word.
use crate::multi_ptrs::{grouped, lemma_join_index, lemma_split_index};
use crate::select_bit::{
    bit_is_set, find_nth_set_bit, lemma_nth_set_bit, lemma_nth_set_bit_unique,
    lemma_rank_monotone, lemma_zero_word, nth_set_bit, popcount, rank,
};
use crate::v_table::VTable;
use crate::{fits_in_groups, padded, FuncTable, FuncTablePtr};
use vstd::prelude::*;
use vstd::slice::slice_subrange;

verus! {

/// The most groups that the tag of a pointer can tell apart.
pub const MAX_TRAITS: usize = 8;

/// The number of groups of `group_size` slots that `len` functions take up.
pub open spec fn groups_needed(len: nat, group_size: nat) -> nat {
    if len % group_size == 0 {
        len / group_size
    } else {
        len / group_size + 1
    }
}

/// The groups that `len` functions take up have room for all of them, and
/// the last of the groups is not empty.
pub proof fn lemma_groups_hold_all(len: nat, group_size: nat)
    requires
        group_size > 0,
    ensures
        len <= groups_needed(len, group_size) * group_size,
        groups_needed(len, group_size) * group_size < len + group_size,
{
    let q = len as int / group_size as int;
    let r = len as int % group_size as int;
    let s = group_size as int;
    vstd::arithmetic::div_mod::lemma_fundamental_div_mod(len as int, s);
    vstd::arithmetic::div_mod::lemma_mod_bound(len as int, s);
    assert((q + 1) * s == s * q + s) by (nonlinear_arith);
    assert(q * s == s * q) by (nonlinear_arith);
}

/// `groups` is the number of groups that `len` functions take up where the
/// functions reach into the last of the groups and not beyond it.
proof fn lemma_groups_needed(len: nat, group_size: nat, groups: nat)
    requires
        group_size > 0,
        len <= groups * group_size,
        groups == 0 || (groups - 1) * group_size < len,
    ensures
        groups_needed(len, group_size) == groups,
{
    let q = len as int / group_size as int;
    let r = len as int % group_size as int;
    vstd::arithmetic::div_mod::lemma_fundamental_div_mod(len as int, group_size as int);
    vstd::arithmetic::div_mod::lemma_mod_bound(len as int, group_size as int);
    let g = groups as int;
    let s = group_size as int;
    if r == 0 {
        assert(q == g) by (nonlinear_arith)
            requires
                s > 0,
                s * q <= g * s,
                g == 0 || (g - 1) * s < s * q,
                q >= 0,
                g >= 0,
        ;
    } else {
        assert(q + 1 == g) by (nonlinear_arith)
            requires
                s > 0,
                0 < r < s,
                s * q + r <= g * s,
                g == 0 || (g - 1) * s < s * q + r,
                q >= 0,
                g >= 0,
        ;
    }
}

/// The groups that a list of functions takes up, each a dense table of
/// `FUNC_N` slots, in one heap-owned collection. There is room for `TRAIT_N`
/// groups.
pub struct PackedSieveTable<F, const TRAIT_N: usize, const FUNC_N: usize> {
    traits: Vec<VTable<F, FUNC_N>>,
}

impl<F, const TRAIT_N: usize, const FUNC_N: usize> View for PackedSieveTable<F, TRAIT_N, FUNC_N> {
    type V = Seq<F>;

    /// The slots of the groups that are stored, group after group.
    closed spec fn view(&self) -> Seq<F> {
        grouped(self.traits@)
    }
}

impl<F, const TRAIT_N: usize, const FUNC_N: usize> PackedSieveTable<F, TRAIT_N, FUNC_N> {
    #[verifier::type_invariant]
    spec fn groups_fit(self) -> bool {
        self.traits@.len() <= TRAIT_N
    }
}

impl<F: Copy, const TRAIT_N: usize, const FUNC_N: usize> PackedSieveTable<F, TRAIT_N, FUNC_N> {
    /// A table holding the given functions split into consecutive chunks of
    /// `FUNC_N`, one chunk to a group, and the filler in the slots of the
    /// last group that are left.
    ///
    /// The groups must have room for a function, and the list must not be
    /// longer than `TRAIT_N` groups.
    pub fn new(funcs: &[F], filler: F) -> (table: Self)
        requires
            FUNC_N > 0,
            funcs@.len() <= TRAIT_N * FUNC_N,
        ensures
            table@ == padded(
                funcs@,
                groups_needed(funcs@.len(), FUNC_N as nat) * FUNC_N as nat,
                filler,
            ),
    {
        let mut traits: Vec<VTable<F, FUNC_N>> = Vec::new();
        let mut start: usize = 0;
        assert(traits@.len() * FUNC_N == 0) by (nonlinear_arith)
            requires
                traits@.len() == 0,
        ;
        while start < funcs.len()
            invariant
                FUNC_N > 0,
                funcs@.len() <= TRAIT_N * FUNC_N,
                start <= funcs@.len(),
                start < funcs@.len() ==> start == traits@.len() * FUNC_N,
                start <= traits@.len() * FUNC_N,
                traits@.len() == 0 || (traits@.len() - 1) * FUNC_N < start,
                forall|g: int, j: int|
                    0 <= g < traits@.len() && 0 <= j < FUNC_N ==> #[trigger] traits@[g]@[j] == (if g
                        * FUNC_N + j < funcs@.len() {
                        funcs@[g * FUNC_N + j]
                    } else {
                        filler
                    }),
            decreases funcs@.len() - start,
        {
            let end: usize = if funcs.len() - start > FUNC_N {
                start + FUNC_N
            } else {
                funcs.len()
            };
            let chunk = slice_subrange(funcs, start, end);
            let table = VTable::<F, FUNC_N>::new_from_slice(chunk, filler);
            let ghost before = traits@;
            traits.push(table);
            proof {
                let i = before.len() as int;
                assert((i + 1) * FUNC_N == i * FUNC_N + FUNC_N) by (nonlinear_arith);
                assert forall|g: int, j: int|
                    0 <= g < traits@.len() && 0 <= j < FUNC_N implies #[trigger] traits@[g]@[j]
                    == (if g * FUNC_N + j < funcs@.len() {
                    funcs@[g * FUNC_N + j]
                } else {
                    filler
                }) by {
                    if g == i {
                        if j < chunk@.len() {
                            assert(chunk@[j] == funcs@[start + j]);
                        }
                    } else {
                        assert(traits@[g] == before[g]);
                    }
                }
            }
            start = end;
        }
        proof {
            let groups = traits@.len();
            lemma_groups_needed(funcs@.len(), FUNC_N as nat, groups);
            assert(groups <= TRAIT_N) by (nonlinear_arith)
                requires
                    groups == 0 || (groups - 1) * FUNC_N < funcs@.len(),
                    funcs@.len() <= TRAIT_N * FUNC_N,
                    FUNC_N > 0,
            ;
            let cap = groups * FUNC_N as nat;
            assert forall|k: int| 0 <= k < cap implies grouped(traits@)[k] == padded(
                funcs@,
                cap,
                filler,
            )[k] by {
                lemma_split_index(k, groups as int, FUNC_N as int);
            }
            assert(grouped(traits@) =~= padded(funcs@, cap, filler));
        }
        Self { traits }
    }

    /// As [`PackedSieveTable::new`], or `None` where the groups have no room
    /// for a function or the list is longer than `TRAIT_N` groups.
    pub fn try_new(funcs: &[F], filler: F) -> (table: Option<Self>)
        ensures
            table is Some <==> FUNC_N > 0 && funcs@.len() <= TRAIT_N * FUNC_N,
            table matches Some(t) ==> t@ == padded(
                funcs@,
                groups_needed(funcs@.len(), FUNC_N as nat) * FUNC_N as nat,
                filler,
            ),
    {
        if FUNC_N > 0 && fits_in_groups(funcs.len(), TRAIT_N, FUNC_N) {
            Some(Self::new(funcs, filler))
        } else {
            None
        }
    }
}

/// The sieve marks exactly the first `groups` groups as present.
pub open spec fn marks_first_groups(sieve: u64, groups: nat) -> bool {
    forall|i: nat| bit_is_set(sieve, i) == (i < groups)
}

/// In a sieve that marks exactly the first `groups` groups, the group of
/// rank `r` is group `r` itself, for every `r` below `groups`.
pub proof fn lemma_first_groups_select(sieve: u64, groups: nat, r: nat)
    requires
        marks_first_groups(sieve, groups),
        r < groups,
    ensures
        popcount(sieve) > r,
        nth_set_bit(sieve, r) == r,
{
    lemma_rank_of_first_groups(sieve, groups, r);
    assert(bit_is_set(sieve, r));
    lemma_rank_monotone(sieve, r, 64);
    lemma_nth_set_bit(sieve, r);
    lemma_nth_set_bit_unique(sieve, r, r, nth_set_bit(sieve, r));
}

/// In a sieve that marks exactly the first `groups` groups, as many set bits
/// lie below a position as there are positions, up to `groups`.
proof fn lemma_rank_of_first_groups(sieve: u64, groups: nat, p: nat)
    requires
        marks_first_groups(sieve, groups),
        p <= groups,
    ensures
        rank(sieve, p) == p,
    decreases p,
{
    if p > 0 {
        lemma_rank_of_first_groups(sieve, groups, (p - 1) as nat);
        assert(bit_is_set(sieve, (p - 1) as nat));
    }
}

/// The tag with its `groups` low bits set has those bits set and no other.
proof fn lemma_low_bits(groups: u8, i: u64)
    by (bit_vector)
    requires
        1 <= groups <= 8,
        i < 64,
    ensures
        ((((0xffu8 >> ((8 - groups) as u8)) as u64) >> i) & 1 == 1) == (i < groups),
{
}

/// A pointer to a packed-sieve table: a reference to the table and, in a tag
/// of eight bits, the sieve of the groups that are present.
pub struct PackedSievePtr<'vt, F, const TRAIT_N: usize, const FUNC_N: usize> {
    table: &'vt PackedSieveTable<F, TRAIT_N, FUNC_N>,
    sieve: u8,
}

impl<'vt, F, const TRAIT_N: usize, const FUNC_N: usize> View for PackedSievePtr<
    'vt,
    F,
    TRAIT_N,
    FUNC_N,
> {
    type V = Seq<F>;

    /// The slots of the groups that the pointer reaches through its sieve,
    /// group after group.
    closed spec fn view(&self) -> Seq<F> {
        Seq::new(
            self.table.traits@.len() * FUNC_N as nat,
            |i: int|
                self.table.traits@[nth_set_bit(
                    self.sieve as u64,
                    (i / FUNC_N as int) as nat,
                ) as int]@[i % FUNC_N as int],
        )
    }
}

impl<'vt, F, const TRAIT_N: usize, const FUNC_N: usize> PackedSievePtr<'vt, F, TRAIT_N, FUNC_N> {
    /// The sieve of the groups, as the tag holds it.
    pub closed spec fn sieve(&self) -> u8 {
        self.sieve
    }

    #[verifier::type_invariant]
    spec fn sieve_marks_groups(self) -> bool {
        &&& marks_first_groups(self.sieve as u64, TRAIT_N as nat)
        &&& self.table.traits@.len() <= TRAIT_N
    }
}

impl<'vt, F: Copy, const TRAIT_N: usize, const FUNC_N: usize> PackedSievePtr<
    'vt,
    F,
    TRAIT_N,
    FUNC_N,
> {
    /// A pointer bound to `sieve_table`, with a sieve that marks each of the
    /// `TRAIT_N` groups as present.
    ///
    /// The tag has eight bits, so there must not be more than eight groups.
    pub fn new(sieve_table: &'vt PackedSieveTable<F, TRAIT_N, FUNC_N>) -> (ptr: Self)
        requires
            TRAIT_N <= MAX_TRAITS,
        ensures
            marks_first_groups(ptr.sieve() as u64, TRAIT_N as nat),
            ptr@ == sieve_table@,
    {
        let sieve: u8 = if TRAIT_N == 0 {
            0
        } else {
            u8::MAX >> ((MAX_TRAITS - TRAIT_N) as u8)
        };
        proof {
            use_type_invariant(sieve_table);
            let word = sieve as u64;
            assert forall|i: nat| bit_is_set(word, i) == (i < TRAIT_N) by {
                if TRAIT_N == 0 {
                    lemma_zero_word(i);
                } else if i < 64 {
                    lemma_low_bits(TRAIT_N as u8, i as u64);
                }
            }
        }
        let ptr = Self { table: sieve_table, sieve };
        proof {
            let groups = sieve_table.traits@.len();
            assert forall|i: int| 0 <= i < groups * FUNC_N as nat implies ptr@[i]
                == sieve_table@[i] by {
                lemma_split_index(i, groups as int, FUNC_N as int);
                lemma_first_groups_select(
                    sieve as u64,
                    TRAIT_N as nat,
                    (i / FUNC_N as int) as nat,
                );
            }
            assert(ptr@ =~= sieve_table@);
        }
        ptr
    }

    /// The table that the pointer is bound to.
    #[inline(always)]
    fn multi_v(&self) -> (table: &'vt PackedSieveTable<F, TRAIT_N, FUNC_N>)
        ensures
            table == self.table,
    {
        self.table
    }

    /// As [`PackedSievePtr::new`], or `None` where there are more than eight
    /// groups.
    pub fn try_new(sieve_table: &'vt PackedSieveTable<F, TRAIT_N, FUNC_N>) -> (ptr: Option<Self>)
        ensures
            ptr is Some <==> TRAIT_N <= MAX_TRAITS,
            ptr matches Some(p) ==> marks_first_groups(p.sieve() as u64, TRAIT_N as nat) && p@
                == sieve_table@,
    {
        if TRAIT_N <= MAX_TRAITS {
            Some(Self::new(sieve_table))
        } else {
            None
        }
    }
}

impl<'vt, F: Copy, const TRAIT_N: usize, const FUNC_N: usize> Clone for PackedSievePtr<
    'vt,
    F,
    TRAIT_N,
    FUNC_N,
> {
    fn clone(&self) -> (ptr: Self)
        ensures
            ptr == *self,
    {
        *self
    }
}

impl<'vt, F: Copy, const TRAIT_N: usize, const FUNC_N: usize> Copy for PackedSievePtr<
    'vt,
    F,
    TRAIT_N,
    FUNC_N,
> {

}

impl<'vt, F: Copy, const TRAIT_N: usize, const FUNC_N: usize> FuncTablePtr for PackedSievePtr<
    'vt,
    F,
    TRAIT_N,
    FUNC_N,
> {
    type Func = F;

    open spec fn functions(&self) -> Seq<F> {
        self@
    }

    #[inline(always)]
    fn get_function(&self, n: u32) -> (f: F) {
        proof {
            use_type_invariant(self);
            lemma_split_index(n as int, self.table.traits@.len() as int, FUNC_N as int);
            lemma_first_groups_select(
                self.sieve as u64,
                TRAIT_N as nat,
                (n as int / FUNC_N as int) as nat,
            );
        }
        let trait_n = (n as usize) / FUNC_N;
        let trait_func_n = (n as usize) % FUNC_N;
        let trait_offset = find_nth_set_bit(self.sieve as usize, trait_n as u32);
        let vt_ptr = &self.multi_v().traits[trait_offset as usize];
        proof {
            vt_ptr.lemma_capacity();
        }
        vt_ptr.get_function(trait_func_n as u32)
    }

    fn try_get_function(&self, n: u32) -> (f: Option<F>) {
        if FUNC_N > 0 && (n as usize) / FUNC_N < self.multi_v().traits.len() {
            proof {
                vstd::arithmetic::div_mod::lemma_fundamental_div_mod(n as int, FUNC_N as int);
                vstd::arithmetic::div_mod::lemma_mod_bound(n as int, FUNC_N as int);
                lemma_join_index(
                    n as int / FUNC_N as int,
                    n as int % FUNC_N as int,
                    self.table.traits@.len() as int,
                    FUNC_N as int,
                );
            }
            Some(self.get_function(n))
        } else {
            proof {
                if n < self@.len() {
                    lemma_split_index(n as int, self.table.traits@.len() as int, FUNC_N as int);
                }
            }
            None
        }
    }
}

} // verus!
