//! Alternative representations of an indirect function-dispatch table.
//!
//! A caller builds one table from an ordered list of function slots, binds a
//! small copyable pointer to it, and from then on resolves logical indices to
//! slots through the pointer. The representations differ in how the slots are
//! laid out and in whether a sieve (a bitmask of populated positions) stands
//! between the logical index and the physical offset.
//!
//! A function slot is any `Copy` value: the tables store and hand out slots
//! and never look inside one. A caller that dispatches through machine-level
//! function pointers wraps its pointer type in a slot type of its own.
use vstd::prelude::*;

pub mod fibonacci;
pub mod inline_sieve_table;
pub mod multi_ptrs;
pub mod packed_sieve_table;
pub mod select_bit;
pub mod v_table;

verus! {

/// The function list `funcs`, filled up to `len` slots with the filler.
pub open spec fn padded<F>(funcs: Seq<F>, len: nat, filler: F) -> Seq<F> {
    Seq::new(
        len,
        |i: int|
            if i < funcs.len() {
                funcs[i]
            } else {
                filler
            },
    )
}

/// A table filled up with fillers still holds each function it was built
/// from at that function's own index.
pub proof fn lemma_padded_round_trip<F>(funcs: Seq<F>, len: nat, filler: F, n: int)
    requires
        0 <= n < funcs.len() <= len,
    ensures
        n < padded(funcs, len, filler).len(),
        padded(funcs, len, filler)[n] == funcs[n],
{
}

/// Whether `len` functions fit into `groups` groups of `group_size` slots each.
pub fn fits_in_groups(len: usize, groups: usize, group_size: usize) -> (fits: bool)
    ensures
        fits == (len <= groups * group_size),
{
    match groups.checked_mul(group_size) {
        Some(capacity) => len <= capacity,
        None => true,
    }
}

/// Whether a call of a filler is within the contract of a table. It never is:
/// a filler only keeps the shape of a table regular.
pub open spec fn filler_may_be_called() -> bool {
    false
}

/// Stands in a slot that holds no function.
///
/// It is never called in a correct program. No caller can meet its
/// precondition, and a call from outside the contract ends the program.
pub fn filler_function<I, A, R>(_index: I, _arg: A) -> R
    requires
        filler_may_be_called(),
{
    vstd::pervasive::unreached()
}

/// The pointer a caller resolves functions through: a small copyable handle
/// bound to one table.
///
/// For simplicity all functions of a table have the same slot type.
pub trait FuncTablePtr: Copy {
    /// The type of a function slot.
    type Func: Copy;

    /// The ordered list of functions that the pointer knows about.
    spec fn functions(&self) -> Seq<Self::Func>;

    /// Returns the `n`-th function from the pointer.
    ///
    /// The pointer must know about more than `n` functions; nothing is
    /// checked at run time.
    fn get_function(&self, n: u32) -> (f: Self::Func)
        requires
            n < self.functions().len(),
        ensures
            f == self.functions()[n as int],
    ;

    /// Returns the `n`-th function from the pointer, or `None` where the
    /// pointer knows about no more than `n` functions.
    fn try_get_function(&self, n: u32) -> (f: Option<Self::Func>)
        ensures
            f == if n < self.functions().len() {
                Some(self.functions()[n as int])
            } else {
                None
            },
    ;
}

/// A table that hands out its functions by index without a pointer in between.
pub trait FuncTable: Copy {
    /// The type of a function slot.
    type Func: Copy;

    /// The ordered list of functions that the table knows about.
    spec fn functions(&self) -> Seq<Self::Func>;

    /// Returns the `n`-th function from the table.
    ///
    /// The table must know about more than `n` functions; nothing is checked
    /// at run time.
    fn get_function(&self, n: u32) -> (f: Self::Func)
        requires
            n < self.functions().len(),
        ensures
            f == self.functions()[n as int],
    ;
}

} // verus!
