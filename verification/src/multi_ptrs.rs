//! The grouped table: the index space is split into groups of equal size,
//! each group a dense table of its own.
//!
//! All groups are physically there, so this layout isolates the cost of
//! carrying several indirections in place of one.
use crate::v_table::VTable;
use crate::{fits_in_groups, padded, FuncTable, FuncTablePtr};
use vstd::prelude::*;
use vstd::slice::slice_subrange;

verus! {

/// The logical function list of a run of dense tables of `FUNC_N` slots each:
/// index `i` stands in group `i / FUNC_N` at offset `i % FUNC_N`.
pub open spec fn grouped<F, const FUNC_N: usize>(groups: Seq<VTable<F, FUNC_N>>) -> Seq<F> {
    Seq::new(
        groups.len() * FUNC_N as nat,
        |i: int| groups[i / FUNC_N as int]@[i % FUNC_N as int],
    )
}

/// An index below `groups * group_size` splits into a group below `groups`
/// and an offset below `group_size`, and the two give the index back.
pub proof fn lemma_split_index(i: int, groups: int, group_size: int)
    requires
        0 <= i < groups * group_size,
        0 <= groups,
        0 <= group_size,
    ensures
        0 < group_size,
        0 <= i / group_size < groups,
        0 <= i % group_size < group_size,
        (i / group_size) * group_size + i % group_size == i,
{
    assert(0 < group_size) by (nonlinear_arith)
        requires
            0 <= i < groups * group_size,
            0 <= group_size,
    ;
    vstd::arithmetic::div_mod::lemma_fundamental_div_mod(i, group_size);
    vstd::arithmetic::div_mod::lemma_mod_bound(i, group_size);
    let q = i / group_size;
    let r = i % group_size;
    assert(0 <= q < groups) by (nonlinear_arith)
        requires
            0 <= i < groups * group_size,
            0 < group_size,
            i == group_size * q + r,
            0 <= r < group_size,
    ;
    assert(group_size * q == q * group_size) by (nonlinear_arith);
}

/// A group and an offset below the group size join into one index, which
/// splits into the same two.
pub proof fn lemma_join_index(group: int, offset: int, groups: int, group_size: int)
    requires
        0 <= group < groups,
        0 <= offset < group_size,
    ensures
        0 <= group * group_size + offset < groups * group_size,
        (group * group_size + offset) / group_size == group,
        (group * group_size + offset) % group_size == offset,
{
    assert(0 <= group * group_size + offset < groups * group_size) by (nonlinear_arith)
        requires
            0 <= group < groups,
            0 <= offset < group_size,
    ;
    vstd::arithmetic::div_mod::lemma_fundamental_div_mod_converse(
        group * group_size + offset,
        group_size,
        group,
        offset,
    );
}

/// `TRAIT_N` dense tables of `FUNC_N` slots each.
pub struct MultiVTable<F, const TRAIT_N: usize, const FUNC_N: usize> {
    tables: [VTable<F, FUNC_N>; TRAIT_N],
}

impl<F, const TRAIT_N: usize, const FUNC_N: usize> View for MultiVTable<F, TRAIT_N, FUNC_N> {
    type V = Seq<F>;

    /// The `TRAIT_N * FUNC_N` slots, group after group.
    closed spec fn view(&self) -> Seq<F> {
        grouped(self.tables@)
    }
}

/// Splits `funcs` into consecutive chunks of `FUNC_N` and writes the dense
/// table of the chunk at `i` into `tables[i]`, for as many chunks as there
/// are. The tables that follow are left as they were.
fn fill_groups<F: Copy, const FUNC_N: usize>(
    tables: &mut [VTable<F, FUNC_N>],
    funcs: &[F],
    filler: F,
)
    requires
        FUNC_N > 0,
        funcs@.len() <= old(tables)@.len() * FUNC_N,
        forall|g: int|
            0 <= g < old(tables)@.len() ==> #[trigger] old(tables)@[g]@ == padded(
                Seq::<F>::empty(),
                FUNC_N as nat,
                filler,
            ),
    ensures
        final(tables)@.len() == old(tables)@.len(),
        grouped(final(tables)@) == padded(funcs@, old(tables)@.len() * FUNC_N as nat, filler),
{
    let mut i: usize = 0;
    let mut start: usize = 0;
    while start < funcs.len()
        invariant
            FUNC_N > 0,
            tables@.len() == old(tables)@.len(),
            funcs@.len() <= tables@.len() * FUNC_N,
            start <= funcs@.len(),
            start < funcs@.len() ==> start == i * FUNC_N,
            start <= i * FUNC_N,
            forall|g: int, j: int|
                0 <= g < i && g < tables@.len() && 0 <= j < FUNC_N ==> #[trigger] tables@[g]@[j]
                    == padded(funcs@, tables@.len() * FUNC_N as nat, filler)[g * FUNC_N + j],
            forall|g: int|
                i <= g < tables@.len() ==> #[trigger] tables@[g]@ == padded(
                    Seq::<F>::empty(),
                    FUNC_N as nat,
                    filler,
                ),
        decreases funcs@.len() - start,
    {
        proof {
            lemma_split_index(start as int, tables@.len() as int, FUNC_N as int);
            lemma_join_index(i as int, 0, i as int + 1, FUNC_N as int);
        }
        let end: usize = if funcs.len() - start > FUNC_N {
            start + FUNC_N
        } else {
            funcs.len()
        };
        let chunk = slice_subrange(funcs, start, end);
        let table = VTable::<F, FUNC_N>::new_from_slice(chunk, filler);
        let ghost before = tables@;
        tables[i] = table;
        proof {
            let cap = tables@.len() * FUNC_N as nat;
            assert forall|g: int, j: int|
                0 <= g < i + 1 && g < tables@.len() && 0 <= j < FUNC_N implies #[trigger] tables@[g]@[j]
                == padded(funcs@, cap, filler)[g * FUNC_N + j] by {
                lemma_join_index(g, j, tables@.len() as int, FUNC_N as int);
                if g == i {
                    if j < chunk@.len() {
                        assert(chunk@[j] == funcs@[start + j]);
                    }
                } else {
                    assert(tables@[g] == before[g]);
                }
            }
            assert((i + 1) * FUNC_N == i * FUNC_N + FUNC_N) by (nonlinear_arith);
        }
        i = i + 1;
        start = end;
    }
    proof {
        let cap = tables@.len() * FUNC_N as nat;
        assert forall|k: int| 0 <= k < cap implies grouped(tables@)[k] == padded(
            funcs@,
            cap,
            filler,
        )[k] by {
            lemma_split_index(k, tables@.len() as int, FUNC_N as int);
            let g = k / FUNC_N as int;
            let j = k % FUNC_N as int;
            if g >= i {
                assert(tables@[g]@[j] == filler);
                assert(g * FUNC_N >= i * FUNC_N) by (nonlinear_arith)
                    requires
                        g >= i,
                        FUNC_N > 0,
                ;
            }
        }
        assert(grouped(tables@) =~= padded(funcs@, cap, filler));
    }
}

impl<F: Copy, const TRAIT_N: usize, const FUNC_N: usize> MultiVTable<F, TRAIT_N, FUNC_N> {
    /// A table holding the given functions split into consecutive chunks of
    /// `FUNC_N`, one chunk to a group, and the filler in every slot that is
    /// left.
    ///
    /// The groups must have room for a function, and the list must not be
    /// longer than the `TRAIT_N * FUNC_N` slots of the table.
    pub fn new(funcs: &[F], filler: F) -> (table: Self)
        requires
            FUNC_N > 0,
            funcs@.len() <= TRAIT_N * FUNC_N,
        ensures
            table@ == padded(funcs@, TRAIT_N as nat * FUNC_N as nat, filler),
    {
        let mut tables = [VTable::<F, FUNC_N>::new_with_filler(filler);TRAIT_N];
        fill_groups(&mut tables, funcs, filler);
        Self { tables }
    }

    /// As [`MultiVTable::new`], or `None` where the groups have no room for a
    /// function or the list is longer than the table.
    pub fn try_new(funcs: &[F], filler: F) -> (table: Option<Self>)
        ensures
            table is Some <==> FUNC_N > 0 && funcs@.len() <= TRAIT_N * FUNC_N,
            table matches Some(t) ==> t@ == padded(
                funcs@,
                TRAIT_N as nat * FUNC_N as nat,
                filler,
            ),
    {
        if FUNC_N > 0 && fits_in_groups(funcs.len(), TRAIT_N, FUNC_N) {
            Some(Self::new(funcs, filler))
        } else {
            None
        }
    }

    /// Returns the function at offset `trait_func_n` of group `trait_n`.
    ///
    /// Both must be within the table; nothing is checked at run time.
    #[inline(always)]
    pub fn get_trait_function(&self, trait_n: u32, trait_func_n: u32) -> (f: F)
        requires
            trait_n < TRAIT_N,
            trait_func_n < FUNC_N,
        ensures
            trait_n * FUNC_N + trait_func_n < self@.len(),
            f == self@[trait_n * FUNC_N + trait_func_n],
    {
        proof {
            lemma_join_index(
                trait_n as int,
                trait_func_n as int,
                TRAIT_N as int,
                FUNC_N as int,
            );
        }
        let trait_ptr = &self.tables[trait_n as usize];
        proof {
            trait_ptr.lemma_capacity();
        }
        trait_ptr.get_function(trait_func_n)
    }
}

/// A pointer to a grouped table: one reference for each group.
pub struct MultiVPtr<'vt, F, const TRAIT_N: usize, const FUNC_N: usize> {
    ptrs: [&'vt VTable<F, FUNC_N>; TRAIT_N],
}

impl<'vt, F, const TRAIT_N: usize, const FUNC_N: usize> View for MultiVPtr<
    'vt,
    F,
    TRAIT_N,
    FUNC_N,
> {
    type V = Seq<F>;

    /// The slots of the groups that the pointer is bound to, group after group.
    closed spec fn view(&self) -> Seq<F> {
        grouped(Seq::new(TRAIT_N as nat, |g: int| *self.ptrs@[g]))
    }
}

impl<'vt, F: Copy, const TRAIT_N: usize, const FUNC_N: usize> MultiVPtr<'vt, F, TRAIT_N, FUNC_N> {
    /// A pointer bound to the groups of `mvt`.
    ///
    /// The table must have a group.
    pub fn new(mvt: &'vt MultiVTable<F, TRAIT_N, FUNC_N>) -> (ptr: Self)
        requires
            TRAIT_N > 0,
        ensures
            ptr@ == mvt@,
    {
        let mut tables_ptr = [&mvt.tables[0];TRAIT_N];
        let mut i: usize = 1;
        while i < TRAIT_N
            invariant
                1 <= i <= TRAIT_N,
                forall|g: int| 0 <= g < i ==> *(#[trigger] tables_ptr@[g]) == mvt.tables@[g],
            decreases TRAIT_N - i,
        {
            tables_ptr[i] = &mvt.tables[i];
            i = i + 1;
        }
        let ptr = Self { ptrs: tables_ptr };
        proof {
            assert(Seq::new(TRAIT_N as nat, |g: int| *ptr.ptrs@[g]) =~= mvt.tables@);
        }
        ptr
    }

    /// As [`MultiVPtr::new`], or `None` where the table has no group.
    pub fn try_new(mvt: &'vt MultiVTable<F, TRAIT_N, FUNC_N>) -> (ptr: Option<Self>)
        ensures
            ptr is Some <==> TRAIT_N > 0,
            ptr matches Some(p) ==> p@ == mvt@,
    {
        if TRAIT_N > 0 {
            Some(Self::new(mvt))
        } else {
            None
        }
    }

    /// Returns the function at offset `trait_func_n` of group `trait_n`.
    ///
    /// Both must be within the table; nothing is checked at run time.
    #[inline(always)]
    pub fn get_trait_function(self, trait_n: u32, trait_func_n: u32) -> (f: F)
        requires
            trait_n < TRAIT_N,
            trait_func_n < FUNC_N,
        ensures
            trait_n * FUNC_N + trait_func_n < self@.len(),
            f == self@[trait_n * FUNC_N + trait_func_n],
    {
        proof {
            lemma_join_index(
                trait_n as int,
                trait_func_n as int,
                TRAIT_N as int,
                FUNC_N as int,
            );
        }
        let trait_ptr = self.ptrs[trait_n as usize];
        proof {
            trait_ptr.lemma_capacity();
        }
        trait_ptr.get_function(trait_func_n)
    }
}

impl<'vt, F: Copy, const TRAIT_N: usize, const FUNC_N: usize> Clone for MultiVPtr<
    'vt,
    F,
    TRAIT_N,
    FUNC_N,
> {
    fn clone(&self) -> (ptr: Self)
        ensures
            ptr == *self,
    {
        *self
    }
}

impl<'vt, F: Copy, const TRAIT_N: usize, const FUNC_N: usize> Copy for MultiVPtr<
    'vt,
    F,
    TRAIT_N,
    FUNC_N,
> {

}

impl<'vt, F: Copy, const TRAIT_N: usize, const FUNC_N: usize> FuncTablePtr for MultiVPtr<
    'vt,
    F,
    TRAIT_N,
    FUNC_N,
> {
    type Func = F;

    open spec fn functions(&self) -> Seq<F> {
        self@
    }

    #[inline(always)]
    fn get_function(&self, n: u32) -> (f: F) {
        proof {
            lemma_split_index(n as int, TRAIT_N as int, FUNC_N as int);
        }
        let trait_n = (n as usize) / FUNC_N;
        let trait_func_n = (n as usize) % FUNC_N;
        self.get_trait_function(trait_n as u32, trait_func_n as u32)
    }

    fn try_get_function(&self, n: u32) -> (f: Option<F>) {
        if FUNC_N > 0 && (n as usize) / FUNC_N < TRAIT_N {
            proof {
                vstd::arithmetic::div_mod::lemma_fundamental_div_mod(n as int, FUNC_N as int);
                vstd::arithmetic::div_mod::lemma_mod_bound(n as int, FUNC_N as int);
                lemma_join_index(
                    n as int / FUNC_N as int,
                    n as int % FUNC_N as int,
                    TRAIT_N as int,
                    FUNC_N as int,
                );
            }
            Some(self.get_function(n))
        } else {
            proof {
                if n < self@.len() {
                    lemma_split_index(n as int, TRAIT_N as int, FUNC_N as int);
                }
            }
            None
        }
    }
}

} // verus!
