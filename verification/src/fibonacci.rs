//! A sample workload: Fibonacci numbers computed by functions that find each
//! other through a function table.
//!
//! The functions stand in the slots of a table as tags, and a call through a
//! slot goes by the tag. Whatever the table looks like, the pointer hands out
//! the same functions at the same indices, so every layout computes the same
//! numbers.
use crate::inline_sieve_table::{present, InlineSievePtr, InlineSieveTable};
use crate::multi_ptrs::{MultiVPtr, MultiVTable};
use crate::packed_sieve_table::{
    groups_needed, lemma_groups_hold_all, PackedSievePtr, PackedSieveTable, MAX_TRAITS,
};
use crate::v_table::{VPtr, VTable};
use crate::{filler_function, padded, FuncTablePtr};
use vstd::prelude::*;

verus! {

/// The Fibonacci numbers: 0, 1, 1, 2, 3, 5, ...
pub open spec fn fib(n: nat) -> nat
    decreases n,
{
    if n == 0 {
        0
    } else if n == 1 {
        1
    } else {
        fib((n - 1) as nat) + fib((n - 2) as nat)
    }
}

/// The Fibonacci numbers never decrease.
pub proof fn lemma_fib_monotone(i: nat, j: nat)
    requires
        i <= j,
    ensures
        fib(i) <= fib(j),
    decreases j,
{
    if i < j {
        lemma_fib_monotone(i, (j - 1) as nat);
    }
}

/// A function of the workload, as it stands in a slot.
#[derive(Clone, Copy, Debug, PartialEq, Eq, Structural)]
pub enum FibonacciFn {
    /// [`fibonacci_00`]: fib(n).
    Fibonacci00,
    /// A filler between the functions.
    Fibonacci01,
    /// [`fibonacci_02`]: fib(0).
    Fibonacci02,
    /// A filler between the functions.
    Fibonacci03,
    /// [`fibonacci_04`]: fib(1).
    Fibonacci04,
    /// A filler between the functions.
    Fibonacci05,
    /// [`fibonacci_06`]: fib(n - 1).
    Fibonacci06,
    /// [`fibonacci_07`]: fib(n - 2).
    Fibonacci07,
    /// The filler of the slots that a table has left.
    Filler,
}

/// The functions of the workload, in the order in which a table holds them.
pub open spec fn fibonacci_functions() -> Seq<FibonacciFn> {
    seq![
        FibonacciFn::Fibonacci00,
        FibonacciFn::Fibonacci01,
        FibonacciFn::Fibonacci02,
        FibonacciFn::Fibonacci03,
        FibonacciFn::Fibonacci04,
        FibonacciFn::Fibonacci05,
        FibonacciFn::Fibonacci06,
        FibonacciFn::Fibonacci07,
    ]
}

/// The list holds the functions of the workload where they look for each
/// other: at the indices 0, 2, 4, 6 and 7.
pub open spec fn knows_fibonacci(functions: Seq<FibonacciFn>) -> bool {
    &&& functions.len() >= 8
    &&& functions[0] == FibonacciFn::Fibonacci00
    &&& functions[2] == FibonacciFn::Fibonacci02
    &&& functions[4] == FibonacciFn::Fibonacci04
    &&& functions[6] == FibonacciFn::Fibonacci06
    &&& functions[7] == FibonacciFn::Fibonacci07
}

impl FibonacciFn {
    /// Whether the function is a filler.
    pub open spec fn is_filler(self) -> bool {
        match self {
            FibonacciFn::Fibonacci01
            | FibonacciFn::Fibonacci03
            | FibonacciFn::Fibonacci05
            | FibonacciFn::Filler => true,
            _ => false,
        }
    }

    /// What the function returns for the argument `n`, where it takes it.
    pub open spec fn value(self, n: u64) -> nat {
        match self {
            FibonacciFn::Fibonacci00 => fib(n as nat),
            FibonacciFn::Fibonacci04 => 1,
            FibonacciFn::Fibonacci06 => fib((n - 1) as nat),
            FibonacciFn::Fibonacci07 => fib((n - 2) as nat),
            _ => 0,
        }
    }

    /// Whether the function takes the argument `n`: it is no filler, the
    /// numbers below `n` that it reaches for are there, and what it returns
    /// fits the machine word.
    pub open spec fn takes(self, n: u64) -> bool {
        &&& !self.is_filler()
        &&& self is Fibonacci06 ==> n >= 1
        &&& self is Fibonacci07 ==> n >= 2
        &&& self.value(n) <= u64::MAX
    }

    /// Calls the function with the pointer `index` and the argument `n`.
    pub fn call<I>(self, index: I, n: u64) -> (r: u64) where I: FuncTablePtr<Func = FibonacciFn>
        requires
            knows_fibonacci(index.functions()),
            self.takes(n),
        ensures
            r == self.value(n),
        decreases
                n,
                (if self is Fibonacci00 {
                    4int
                } else {
                    2int
                }),
    {
        match self {
            FibonacciFn::Fibonacci00 => fibonacci_00(index, n),
            FibonacciFn::Fibonacci02 => fibonacci_02(index, n),
            FibonacciFn::Fibonacci04 => fibonacci_04(index, n),
            FibonacciFn::Fibonacci06 => fibonacci_06(index, n),
            FibonacciFn::Fibonacci07 => fibonacci_07(index, n),
            _ => filler_function(index, n),
        }
    }
}

/// Returns fib(n).
pub fn fibonacci_00<I>(index: I, n: u64) -> (r: u64) where I: FuncTablePtr<Func = FibonacciFn>
    requires
        knows_fibonacci(index.functions()),
        fib(n as nat) <= u64::MAX,
    ensures
        r == fib(n as nat),
    decreases n, 3int,
{
    match n {
        0 => {
            let fib_02 = index.get_function(2);
            fib_02.call(index, n)
        },
        1 => {
            let fib_04 = index.get_function(4);
            fib_04.call(index, n)
        },
        n => {
            let fib_06 = index.get_function(6);
            let fib_07 = index.get_function(7);
            fib_06.call(index, n) + fib_07.call(index, n)
        },
    }
}

/// Returns fib(0) == 0.
pub fn fibonacci_02<I>(_index: I, _n: u64) -> (r: u64) where I: FuncTablePtr<Func = FibonacciFn>
    ensures
        r == 0,
{
    0
}

/// Returns fib(1) == 1.
pub fn fibonacci_04<I>(_index: I, _n: u64) -> (r: u64) where I: FuncTablePtr<Func = FibonacciFn>
    ensures
        r == 1,
{
    1
}

/// Returns fib(n-1).
pub fn fibonacci_06<I>(index: I, n: u64) -> (r: u64) where I: FuncTablePtr<Func = FibonacciFn>
    requires
        knows_fibonacci(index.functions()),
        n >= 1,
        fib((n - 1) as nat) <= u64::MAX,
    ensures
        r == fib((n - 1) as nat),
    decreases n, 1int,
{
    let a0_00 = index.get_function(0);
    a0_00.call(index, n - 1)
}

/// Returns fib(n-2).
pub fn fibonacci_07<I>(index: I, n: u64) -> (r: u64) where I: FuncTablePtr<Func = FibonacciFn>
    requires
        knows_fibonacci(index.functions()),
        n >= 2,
        fib((n - 2) as nat) <= u64::MAX,
    ensures
        r == fib((n - 2) as nat),
    decreases n, 1int,
{
    let a0_00 = index.get_function(0);
    a0_00.call(index, n - 2)
}

/// The entry point of the workload: resolves the function at index 0 and
/// calls it with the pointer and the argument. Returns fib(n).
pub fn fibonacci<I>(index: I, n: u64) -> (r: u64) where I: FuncTablePtr<Func = FibonacciFn>
    requires
        knows_fibonacci(index.functions()),
        fib(n as nat) <= u64::MAX,
    ensures
        r == fib(n as nat),
{
    index.get_function(0).call(index, n)
}

/// Whether the pointer hands out the functions of the workload where they
/// look for each other.
pub fn holds_fibonacci<I>(index: I) -> (holds: bool) where I: FuncTablePtr<Func = FibonacciFn>
    ensures
        holds == knows_fibonacci(index.functions()),
{
    if index.try_get_function(7).is_none() {
        return false;
    }
    index.get_function(0) == FibonacciFn::Fibonacci00 && index.get_function(2)
        == FibonacciFn::Fibonacci02 && index.get_function(4) == FibonacciFn::Fibonacci04
        && index.get_function(6) == FibonacciFn::Fibonacci06 && index.get_function(7)
        == FibonacciFn::Fibonacci07
}

/// As [`fibonacci`], or `None` where the pointer does not hand out the
/// functions of the workload or fib(n) does not fit the machine word.
pub fn try_fibonacci<I>(index: I, n: u64) -> (r: Option<u64>) where
    I: FuncTablePtr<Func = FibonacciFn>,

    ensures
        r is Some <==> knows_fibonacci(index.functions()) && fib(n as nat) <= u64::MAX,
        r matches Some(v) ==> v == fib(n as nat),
{
    if holds_fibonacci(index) && try_fibonacci_fast(n).is_some() {
        Some(fibonacci(index, n))
    } else {
        None
    }
}

/// The workload in a dense table.
pub fn make_fibonacci_vtable() -> (table: VTable<FibonacciFn, 8>)
    ensures
        table@ == fibonacci_functions(),
{
    let table = VTable::new(
        [
            FibonacciFn::Fibonacci00,
            FibonacciFn::Fibonacci01,
            FibonacciFn::Fibonacci02,
            FibonacciFn::Fibonacci03,
            FibonacciFn::Fibonacci04,
            FibonacciFn::Fibonacci05,
            FibonacciFn::Fibonacci06,
            FibonacciFn::Fibonacci07,
        ],
    );
    assert(table@ =~= fibonacci_functions());
    table
}

/// Returns fib(n), computed through a dense table.
pub fn fibonacci_vtable(n: u64) -> (r: u64)
    requires
        fib(n as nat) <= u64::MAX,
    ensures
        r == fib(n as nat),
{
    let table = make_fibonacci_vtable();
    let ptr = VPtr::new(&table);
    fibonacci(ptr, n)
}

/// The workload in a grouped table of `TRAIT_N` groups of `FUNC_N` slots.
///
/// The table must have room for the eight functions.
pub fn make_fibonacci_multiptr<const TRAIT_N: usize, const FUNC_N: usize>() -> (table: MultiVTable<
    FibonacciFn,
    TRAIT_N,
    FUNC_N,
>)
    requires
        FUNC_N > 0,
        8 <= TRAIT_N * FUNC_N,
    ensures
        table@ == padded(
            fibonacci_functions(),
            TRAIT_N as nat * FUNC_N as nat,
            FibonacciFn::Filler,
        ),
        knows_fibonacci(table@),
{
    let funcs = [
        FibonacciFn::Fibonacci00,
        FibonacciFn::Fibonacci01,
        FibonacciFn::Fibonacci02,
        FibonacciFn::Fibonacci03,
        FibonacciFn::Fibonacci04,
        FibonacciFn::Fibonacci05,
        FibonacciFn::Fibonacci06,
        FibonacciFn::Fibonacci07,
    ];
    assert(funcs@ =~= fibonacci_functions());
    MultiVTable::<FibonacciFn, TRAIT_N, FUNC_N>::new(&funcs, FibonacciFn::Filler)
}

/// Returns fib(n), computed through a grouped table of `TRAIT_N` groups of
/// `FUNC_N` slots.
pub fn fibonacci_multiptr<const TRAIT_N: usize, const FUNC_N: usize>(n: u64) -> (r: u64)
    requires
        FUNC_N > 0,
        8 <= TRAIT_N * FUNC_N,
        fib(n as nat) <= u64::MAX,
    ensures
        r == fib(n as nat),
{
    let table = make_fibonacci_multiptr::<TRAIT_N, FUNC_N>();
    let ptr = MultiVPtr::new(&table);
    fibonacci(ptr, n)
}

/// The workload in an inline-sieve table of twelve slots, four of them gaps.
pub fn make_fibonacci_inline_sieve() -> (table: InlineSieveTable<FibonacciFn, 12>)
    ensures
        table@ == fibonacci_functions(),
{
    let opt_funcs = [
        Some(FibonacciFn::Fibonacci00),
        None,
        Some(FibonacciFn::Fibonacci01),
        Some(FibonacciFn::Fibonacci02),
        Some(FibonacciFn::Fibonacci03),
        None,
        Some(FibonacciFn::Fibonacci04),
        None,
        Some(FibonacciFn::Fibonacci05),
        None,
        Some(FibonacciFn::Fibonacci06),
        Some(FibonacciFn::Fibonacci07),
    ];
    proof {
        lemma_fibonacci_with_gaps(opt_funcs@);
    }
    InlineSieveTable::new(opt_funcs, FibonacciFn::Filler)
}

/// The functions of the workload with gaps between them are, without the
/// gaps, the functions of the workload.
proof fn lemma_fibonacci_with_gaps(slots: Seq<Option<FibonacciFn>>)
    requires
        slots == seq![
            Some(FibonacciFn::Fibonacci00),
            None,
            Some(FibonacciFn::Fibonacci01),
            Some(FibonacciFn::Fibonacci02),
            Some(FibonacciFn::Fibonacci03),
            None,
            Some(FibonacciFn::Fibonacci04),
            None,
            Some(FibonacciFn::Fibonacci05),
            None,
            Some(FibonacciFn::Fibonacci06),
            Some(FibonacciFn::Fibonacci07),
        ],
    ensures
        present(slots) == fibonacci_functions(),
{
    let s12 = slots;
    let s11 = s12.drop_last();
    let s10 = s11.drop_last();
    let s9 = s10.drop_last();
    let s8 = s9.drop_last();
    let s7 = s8.drop_last();
    let s6 = s7.drop_last();
    let s5 = s6.drop_last();
    let s4 = s5.drop_last();
    let s3 = s4.drop_last();
    let s2 = s3.drop_last();
    let s1 = s2.drop_last();
    let s0 = s1.drop_last();
    assert(present(s0) =~= Seq::<FibonacciFn>::empty());
    assert(present(s1) =~= seq![FibonacciFn::Fibonacci00]);
    assert(present(s2) =~= present(s1));
    assert(present(s3) =~= present(s2).push(FibonacciFn::Fibonacci01));
    assert(present(s4) =~= present(s3).push(FibonacciFn::Fibonacci02));
    assert(present(s5) =~= present(s4).push(FibonacciFn::Fibonacci03));
    assert(present(s6) =~= present(s5));
    assert(present(s7) =~= present(s6).push(FibonacciFn::Fibonacci04));
    assert(present(s8) =~= present(s7));
    assert(present(s9) =~= present(s8).push(FibonacciFn::Fibonacci05));
    assert(present(s10) =~= present(s9));
    assert(present(s11) =~= present(s10).push(FibonacciFn::Fibonacci06));
    assert(present(s12) =~= present(s11).push(FibonacciFn::Fibonacci07));
    assert(present(s12) =~= fibonacci_functions());
}

/// Returns fib(n), computed through an inline-sieve table.
pub fn fibonacci_inline_sieve(n: u64) -> (r: u64)
    requires
        fib(n as nat) <= u64::MAX,
    ensures
        r == fib(n as nat),
{
    let table = make_fibonacci_inline_sieve();
    let ptr = InlineSievePtr::new(&table);
    fibonacci(ptr, n)
}

/// The workload in a packed-sieve table with room for `TRAIT_N` groups of
/// `FUNC_N` slots.
///
/// The table must have room for the eight functions.
pub fn make_fibonacci_packed_sieve<const TRAIT_N: usize, const FUNC_N: usize>() -> (table:
    PackedSieveTable<FibonacciFn, TRAIT_N, FUNC_N>)
    requires
        FUNC_N > 0,
        8 <= TRAIT_N * FUNC_N,
    ensures
        table@ == padded(
            fibonacci_functions(),
            groups_needed(8, FUNC_N as nat) * FUNC_N as nat,
            FibonacciFn::Filler,
        ),
        knows_fibonacci(table@),
{
    let funcs = [
        FibonacciFn::Fibonacci00,
        FibonacciFn::Fibonacci01,
        FibonacciFn::Fibonacci02,
        FibonacciFn::Fibonacci03,
        FibonacciFn::Fibonacci04,
        FibonacciFn::Fibonacci05,
        FibonacciFn::Fibonacci06,
        FibonacciFn::Fibonacci07,
    ];
    assert(funcs@ =~= fibonacci_functions());
    let table = PackedSieveTable::<FibonacciFn, TRAIT_N, FUNC_N>::new(
        &funcs,
        FibonacciFn::Filler,
    );
    proof {
        lemma_groups_hold_all(8, FUNC_N as nat);
    }
    table
}

/// Returns fib(n), computed through a packed-sieve table with room for
/// `TRAIT_N` groups of `FUNC_N` slots.
pub fn fibonacci_packed_sieve<const TRAIT_N: usize, const FUNC_N: usize>(n: u64) -> (r: u64)
    requires
        FUNC_N > 0,
        8 <= TRAIT_N * FUNC_N,
        TRAIT_N <= MAX_TRAITS,
        fib(n as nat) <= u64::MAX,
    ensures
        r == fib(n as nat),
{
    let table = make_fibonacci_packed_sieve::<TRAIT_N, FUNC_N>();
    let ptr = PackedSievePtr::new(&table);
    fibonacci(ptr, n)
}

/// Returns fib(n), computed by a loop without a table.
pub fn fibonacci_fast(n: u64) -> (r: u64)
    requires
        fib(n as nat) <= u64::MAX,
    ensures
        r == fib(n as nat),
{
    if n == 1 {
        return 1;
    }
    let mut sum: u64 = 0;
    let mut last: u64 = 0;
    let mut curr: u64 = 1;
    let mut i: u64 = 1;
    while i < n
        invariant
            1 <= i,
            i <= n || (n == 0 && i == 1),
            n != 1,
            fib(n as nat) <= u64::MAX,
            curr == fib(i as nat),
            last == fib((i - 1) as nat),
            sum == (if i == 1 {
                0
            } else {
                fib(i as nat)
            }),
        decreases n - i,
    {
        proof {
            lemma_fib_monotone((i + 1) as nat, n as nat);
        }
        sum = last + curr;
        last = curr;
        curr = sum;
        i = i + 1;
    }
    sum
}

/// Returns fib(n), computed by a loop without a table, or `None` where
/// fib(n) does not fit the machine word.
pub fn try_fibonacci_fast(n: u64) -> (r: Option<u64>)
    ensures
        r is Some <==> fib(n as nat) <= u64::MAX,
        r matches Some(v) ==> v == fib(n as nat),
{
    if n == 0 {
        return Some(0);
    }
    let mut last: u64 = 0;
    let mut curr: u64 = 1;
    let mut i: u64 = 1;
    while i < n
        invariant
            1 <= i <= n,
            curr == fib(i as nat),
            last == fib((i - 1) as nat),
        decreases n - i,
    {
        match last.checked_add(curr) {
            Some(next) => {
                last = curr;
                curr = next;
                i = i + 1;
            },
            None => {
                proof {
                    lemma_fib_monotone((i + 1) as nat, n as nat);
                }
                return None;
            },
        }
    }
    Some(curr)
}

} // verus!
