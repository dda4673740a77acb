//! The dense table: one array of slots, indexed directly.
//!
//! This is the floor that the sparser encodings are measured against.
use crate::{padded, FuncTable, FuncTablePtr};
use vstd::prelude::*;

verus! {

/// A fixed-capacity array of `N` function slots.
pub struct VTable<F, const N: usize> {
    funcs: [F; N],
}

impl<F, const N: usize> View for VTable<F, N> {
    type V = Seq<F>;

    /// The `N` slots in order.
    closed spec fn view(&self) -> Seq<F> {
        self.funcs@
    }
}

impl<F: Copy, const N: usize> VTable<F, N> {
    /// A dense table has exactly `N` slots.
    pub proof fn lemma_capacity(self)
        ensures
            self@.len() == N,
    {
    }

    /// A table holding exactly the given slots.
    pub fn new(funcs: [F; N]) -> (table: Self)
        ensures
            table@ == funcs@,
    {
        Self { funcs }
    }

    /// A table with the filler in each of its `N` slots.
    pub fn new_with_filler(filler: F) -> (table: Self)
        ensures
            table@ == padded(Seq::<F>::empty(), N as nat, filler),
    {
        let table = Self::new([filler;N]);
        assert(table@ =~= padded(Seq::<F>::empty(), N as nat, filler));
        table
    }

    /// A table holding the given functions in its first slots and the filler
    /// in the slots that are left.
    ///
    /// The slice must not be longer than the table.
    pub fn new_from_slice(funcs: &[F], filler: F) -> (table: Self)
        requires
            funcs@.len() <= N,
        ensures
            table@ == padded(funcs@, N as nat, filler),
    {
        let mut array: [F; N] = [filler;N];
        let mut i: usize = 0;
        while i < funcs.len()
            invariant
                i <= funcs@.len() <= N,
                forall|j: int| 0 <= j < i ==> array@[j] == funcs@[j],
                forall|j: int| i <= j < N ==> array@[j] == filler,
            decreases funcs@.len() - i,
        {
            array[i] = funcs[i];
            i = i + 1;
        }
        let table = Self::new(array);
        assert(table@ =~= padded(funcs@, N as nat, filler));
        table
    }

    /// As [`VTable::new_from_slice`], or `None` where the slice is longer
    /// than the table.
    pub fn try_new_from_slice(funcs: &[F], filler: F) -> (table: Option<Self>)
        ensures
            table is Some <==> funcs@.len() <= N,
            table matches Some(t) ==> t@ == padded(funcs@, N as nat, filler),
    {
        if funcs.len() <= N {
            Some(Self::new_from_slice(funcs, filler))
        } else {
            None
        }
    }
}

impl<F: Copy, const N: usize> Clone for VTable<F, N> {
    fn clone(&self) -> (table: Self)
        ensures
            table == *self,
    {
        *self
    }
}

impl<F: Copy, const N: usize> Copy for VTable<F, N> {

}

impl<F: Copy, const N: usize> FuncTable for VTable<F, N> {
    type Func = F;

    open spec fn functions(&self) -> Seq<F> {
        self@
    }

    #[inline(always)]
    fn get_function(&self, n: u32) -> (f: F) {
        self.funcs[n as usize]
    }
}

/// A pointer to a dense table: a single reference.
pub struct VPtr<'vt, F, const N: usize> {
    table: &'vt VTable<F, N>,
}

impl<'vt, F, const N: usize> View for VPtr<'vt, F, N> {
    type V = Seq<F>;

    /// The slots of the table that the pointer is bound to.
    closed spec fn view(&self) -> Seq<F> {
        self.table@
    }
}

impl<'vt, F: Copy, const N: usize> VPtr<'vt, F, N> {
    /// A pointer bound to `table`.
    pub fn new(table: &'vt VTable<F, N>) -> (ptr: Self)
        ensures
            ptr@ == table@,
    {
        Self { table }
    }
}

impl<'vt, F: Copy, const N: usize> Clone for VPtr<'vt, F, N> {
    fn clone(&self) -> (ptr: Self)
        ensures
            ptr == *self,
    {
        *self
    }
}

impl<'vt, F: Copy, const N: usize> Copy for VPtr<'vt, F, N> {

}

impl<'vt, F: Copy, const N: usize> FuncTablePtr for VPtr<'vt, F, N> {
    type Func = F;

    open spec fn functions(&self) -> Seq<F> {
        self@
    }

    #[inline(always)]
    fn get_function(&self, n: u32) -> (f: F) {
        self.table.get_function(n)
    }

    fn try_get_function(&self, n: u32) -> (f: Option<F>) {
        if (n as usize) < N {
            Some(self.table.get_function(n))
        } else {
            None
        }
    }
}

} // verus!
