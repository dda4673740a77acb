use bench_vtables::fibonacci::{
    fibonacci, fibonacci_00, fibonacci_02, fibonacci_04, fibonacci_06, fibonacci_07,
    fibonacci_fast, fibonacci_inline_sieve, fibonacci_multiptr, fibonacci_packed_sieve,
    fibonacci_vtable, holds_fibonacci, make_fibonacci_inline_sieve, make_fibonacci_multiptr,
    make_fibonacci_packed_sieve, make_fibonacci_vtable, try_fibonacci, try_fibonacci_fast,
    FibonacciFn,
};
use bench_vtables::inline_sieve_table::InlineSieveTable;
use bench_vtables::v_table::VTable;
use bench_vtables::inline_sieve_table::InlineSievePtr;
use bench_vtables::multi_ptrs::MultiVPtr;
use bench_vtables::packed_sieve_table::PackedSievePtr;
use bench_vtables::v_table::VPtr;
use bench_vtables::FuncTablePtr;

#[test]
fn fibonacci_vptr_test() {
    for n in 0..10 {
        assert!(fibonacci_vtable(n) == fibonacci_fast(n));
    }
}

#[test]
fn fibonacci_multiptr_test() {
    for n in 0..10 {
        assert!(fibonacci_multiptr::<1, 10>(n) == fibonacci_fast(n));
        assert!(fibonacci_multiptr::<5, 2>(n) == fibonacci_fast(n));
    }
}

#[test]
fn fibonacci_inline_sieve_test() {
    for n in 0..10 {
        assert!(fibonacci_inline_sieve(n) == fibonacci_fast(n));
    }
}

#[test]
fn fibonacci_sieve_test() {
    for n in 0..10 {
        assert!(fibonacci_packed_sieve::<1, 10>(n) == fibonacci_fast(n));
        assert!(fibonacci_packed_sieve::<4, 3>(n) == fibonacci_fast(n));
        assert!(fibonacci_packed_sieve::<5, 2>(n) == fibonacci_fast(n));
    }
}

/// The closed form, independent of the library: fib(n) is the integer nearest
/// to phi^n / sqrt(5).
fn closed_form(n: u64) -> u64 {
    let sqrt5 = 5f64.sqrt();
    let phi = (1.0 + sqrt5) / 2.0;
    (phi.powi(n as i32) / sqrt5).round() as u64
}

#[test]
fn fibonacci_fast_has_exact_values() {
    let expected: [u64; 13] = [0, 1, 1, 2, 3, 5, 8, 13, 21, 34, 55, 89, 144];
    for (n, want) in expected.iter().enumerate() {
        assert_eq!(fibonacci_fast(n as u64), *want);
    }
    assert_eq!(fibonacci_fast(30), 832_040);
    assert_eq!(fibonacci_fast(50), 12_586_269_025);
    assert_eq!(fibonacci_fast(93), 12_200_160_415_121_876_738);
}

#[test]
fn fibonacci_fast_agrees_with_closed_form() {
    for n in 0..=60 {
        assert_eq!(fibonacci_fast(n), closed_form(n));
    }
}

#[test]
fn try_fibonacci_fast_stops_at_the_word() {
    assert_eq!(try_fibonacci_fast(0), Some(0));
    assert_eq!(try_fibonacci_fast(1), Some(1));
    assert_eq!(try_fibonacci_fast(2), Some(1));
    assert_eq!(try_fibonacci_fast(10), Some(55));
    assert_eq!(try_fibonacci_fast(93), Some(12_200_160_415_121_876_738));
    assert_eq!(try_fibonacci_fast(94), None);
    assert_eq!(try_fibonacci_fast(95), None);
    assert_eq!(try_fibonacci_fast(u64::MAX), None);
}

#[test]
fn every_layout_computes_the_closed_form() {
    for n in 0..=30 {
        let want = closed_form(n);
        assert_eq!(fibonacci_vtable(n), want);
        assert_eq!(fibonacci_multiptr::<1, 10>(n), want);
        assert_eq!(fibonacci_multiptr::<2, 5>(n), want);
        assert_eq!(fibonacci_multiptr::<3, 4>(n), want);
        assert_eq!(fibonacci_multiptr::<4, 3>(n), want);
        assert_eq!(fibonacci_multiptr::<5, 2>(n), want);
        assert_eq!(fibonacci_multiptr::<8, 1>(n), want);
        assert_eq!(fibonacci_inline_sieve(n), want);
        assert_eq!(fibonacci_packed_sieve::<1, 10>(n), want);
        assert_eq!(fibonacci_packed_sieve::<2, 5>(n), want);
        assert_eq!(fibonacci_packed_sieve::<3, 4>(n), want);
        assert_eq!(fibonacci_packed_sieve::<4, 3>(n), want);
        assert_eq!(fibonacci_packed_sieve::<5, 2>(n), want);
        assert_eq!(fibonacci_packed_sieve::<8, 1>(n), want);
    }
}

#[test]
fn tenth_number_is_55_in_every_layout() {
    assert_eq!(fibonacci_vtable(10), 55);
    assert_eq!(fibonacci_multiptr::<3, 4>(10), 55);
    assert_eq!(fibonacci_inline_sieve(10), 55);
    assert_eq!(fibonacci_packed_sieve::<3, 4>(10), 55);
}

#[test]
fn entry_point_runs_on_a_pointer() {
    let table = make_fibonacci_packed_sieve::<3, 4>();
    let ptr = PackedSievePtr::new(&table);
    assert_eq!(fibonacci(ptr, 20), 6765);

    let table = make_fibonacci_vtable();
    let ptr = VPtr::new(&table);
    assert_eq!(fibonacci(ptr, 20), 6765);

    let table = make_fibonacci_multiptr::<2, 5>();
    let ptr = MultiVPtr::new(&table);
    assert_eq!(fibonacci(ptr, 20), 6765);

    let table = make_fibonacci_inline_sieve();
    let ptr = InlineSievePtr::new(&table);
    assert_eq!(fibonacci(ptr, 20), 6765);
}

const WORKLOAD: [FibonacciFn; 8] = [
    FibonacciFn::Fibonacci00,
    FibonacciFn::Fibonacci01,
    FibonacciFn::Fibonacci02,
    FibonacciFn::Fibonacci03,
    FibonacciFn::Fibonacci04,
    FibonacciFn::Fibonacci05,
    FibonacciFn::Fibonacci06,
    FibonacciFn::Fibonacci07,
];

fn assert_holds_workload<I: FuncTablePtr<Func = FibonacciFn>>(ptr: I) {
    for (n, want) in WORKLOAD.iter().enumerate() {
        assert_eq!(ptr.get_function(n as u32), *want);
        assert_eq!(ptr.try_get_function(n as u32), Some(*want));
    }
}

#[test]
fn every_layout_holds_the_workload_in_order() {
    let table = make_fibonacci_vtable();
    assert_holds_workload(VPtr::new(&table));
    let table = make_fibonacci_multiptr::<3, 4>();
    assert_holds_workload(MultiVPtr::new(&table));
    let table = make_fibonacci_multiptr::<5, 2>();
    assert_holds_workload(MultiVPtr::new(&table));
    let table = make_fibonacci_inline_sieve();
    assert_holds_workload(InlineSievePtr::new(&table));
    let table = make_fibonacci_packed_sieve::<3, 4>();
    assert_holds_workload(PackedSievePtr::new(&table));
    let table = make_fibonacci_packed_sieve::<5, 2>();
    assert_holds_workload(PackedSievePtr::new(&table));
}

#[test]
fn workload_tables_end_where_their_layout_says() {
    let table = make_fibonacci_vtable();
    assert_eq!(VPtr::new(&table).try_get_function(8), None);

    // Three groups of four: twelve slots, the last four hold the filler.
    let table = make_fibonacci_multiptr::<3, 4>();
    let ptr = MultiVPtr::new(&table);
    for n in 8..12 {
        assert_eq!(ptr.try_get_function(n), Some(FibonacciFn::Filler));
    }
    assert_eq!(ptr.try_get_function(12), None);

    // The gaps of the inline sieve are not counted.
    let table = make_fibonacci_inline_sieve();
    assert_eq!(InlineSievePtr::new(&table).try_get_function(8), None);

    // Room for four groups of three, but eight functions take up three.
    let table = make_fibonacci_packed_sieve::<4, 3>();
    let ptr = PackedSievePtr::new(&table);
    assert_eq!(ptr.try_get_function(8), Some(FibonacciFn::Filler));
    assert_eq!(ptr.try_get_function(9), None);
}

#[test]
fn workload_functions_return_their_numbers() {
    let table = make_fibonacci_vtable();
    let ptr = VPtr::new(&table);
    assert_eq!(fibonacci_00(ptr, 0), 0);
    assert_eq!(fibonacci_00(ptr, 1), 1);
    assert_eq!(fibonacci_00(ptr, 12), 144);
    assert_eq!(fibonacci_02(ptr, 7), 0);
    assert_eq!(fibonacci_04(ptr, 7), 1);
    assert_eq!(fibonacci_06(ptr, 12), 89);
    assert_eq!(fibonacci_07(ptr, 12), 55);
    assert_eq!(FibonacciFn::Fibonacci00.call(ptr, 12), 144);
    assert_eq!(FibonacciFn::Fibonacci02.call(ptr, 12), 0);
    assert_eq!(FibonacciFn::Fibonacci04.call(ptr, 12), 1);
    assert_eq!(FibonacciFn::Fibonacci06.call(ptr, 12), 89);
    assert_eq!(FibonacciFn::Fibonacci07.call(ptr, 12), 55);
}

#[test]
fn checked_entry_point_runs_the_workload() {
    let table = make_fibonacci_vtable();
    let ptr = VPtr::new(&table);
    assert!(holds_fibonacci(ptr));
    assert_eq!(try_fibonacci(ptr, 0), Some(0));
    assert_eq!(try_fibonacci(ptr, 1), Some(1));
    assert_eq!(try_fibonacci(ptr, 10), Some(55));
    assert_eq!(try_fibonacci(ptr, 25), Some(75_025));
    assert_eq!(try_fibonacci(ptr, 94), None);
    assert_eq!(try_fibonacci(ptr, u64::MAX), None);

    let table = make_fibonacci_packed_sieve::<3, 4>();
    let ptr = PackedSievePtr::new(&table);
    assert!(holds_fibonacci(ptr));
    assert_eq!(try_fibonacci(ptr, 20), Some(6765));
}

#[test]
fn checked_entry_point_refuses_other_tables() {
    // A filler where the entry function is looked for.
    let table = VTable::<FibonacciFn, 8>::new_with_filler(FibonacciFn::Filler);
    let ptr = VPtr::new(&table);
    assert!(!holds_fibonacci(ptr));
    assert_eq!(try_fibonacci(ptr, 10), None);

    // Too short a table.
    let table = VTable::new([
        FibonacciFn::Fibonacci00,
        FibonacciFn::Fibonacci01,
        FibonacciFn::Fibonacci02,
        FibonacciFn::Fibonacci03,
        FibonacciFn::Fibonacci04,
        FibonacciFn::Fibonacci05,
        FibonacciFn::Fibonacci06,
    ]);
    let ptr = VPtr::new(&table);
    assert!(!holds_fibonacci(ptr));
    assert_eq!(try_fibonacci(ptr, 10), None);

    // The functions in another order.
    let mut slots = WORKLOAD;
    slots.swap(6, 7);
    let table = VTable::new(slots);
    let ptr = VPtr::new(&table);
    assert!(!holds_fibonacci(ptr));
    assert_eq!(try_fibonacci(ptr, 10), None);

    // A gap that swallows a function shifts the ones behind it.
    let table = InlineSieveTable::new(
        [
            Some(FibonacciFn::Fibonacci00),
            Some(FibonacciFn::Fibonacci01),
            None,
            Some(FibonacciFn::Fibonacci03),
            Some(FibonacciFn::Fibonacci04),
            Some(FibonacciFn::Fibonacci05),
            Some(FibonacciFn::Fibonacci06),
            Some(FibonacciFn::Fibonacci07),
            Some(FibonacciFn::Filler),
        ],
        FibonacciFn::Filler,
    );
    let ptr = InlineSievePtr::new(&table);
    assert!(!holds_fibonacci(ptr));
    assert_eq!(try_fibonacci(ptr, 10), None);
}

#[test]
fn fillers_between_the_functions_are_not_looked_at() {
    // The workload looks at the indices 0, 2, 4, 6 and 7 only.
    let mut slots = WORKLOAD;
    slots[1] = FibonacciFn::Filler;
    slots[3] = FibonacciFn::Fibonacci00;
    slots[5] = FibonacciFn::Fibonacci07;
    let table = VTable::new(slots);
    let ptr = VPtr::new(&table);
    assert!(holds_fibonacci(ptr));
    assert_eq!(try_fibonacci(ptr, 15), Some(610));
    assert_eq!(fibonacci(ptr, 15), 610);
}
