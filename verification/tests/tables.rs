use bench_vtables::inline_sieve_table::{InlineSievePtr, InlineSieveTable};
use bench_vtables::multi_ptrs::{MultiVPtr, MultiVTable};
use bench_vtables::packed_sieve_table::{PackedSievePtr, PackedSieveTable, MAX_TRAITS};
use bench_vtables::v_table::{VPtr, VTable};
use bench_vtables::{fits_in_groups, FuncTable, FuncTablePtr};

const FILLER: u32 = 9999;

/// The slots `100, 101, ...`: each tells its own logical index.
fn numbered(len: usize) -> Vec<u32> {
    (0..len as u32).map(|i| 100 + i).collect()
}

/// What a pointer hands out, index by index, until it has no more.
fn all_of<P: FuncTablePtr>(ptr: P) -> Vec<P::Func> {
    let mut out = Vec::new();
    let mut n = 0;
    while let Some(f) = ptr.try_get_function(n) {
        out.push(f);
        n += 1;
    }
    out
}

fn padded(funcs: &[u32], len: usize) -> Vec<u32> {
    let mut want = funcs.to_vec();
    want.resize(len, FILLER);
    want
}

#[test]
fn dense_table_holds_what_it_was_given() {
    let table = VTable::new([7u32, 8, 9]);
    for n in 0..3 {
        assert_eq!(table.get_function(n), 7 + n);
    }
    let ptr = VPtr::new(&table);
    for n in 0..3 {
        assert_eq!(ptr.get_function(n), 7 + n);
        assert_eq!(ptr.try_get_function(n), Some(7 + n));
    }
    assert_eq!(ptr.try_get_function(3), None);
    assert_eq!(ptr.try_get_function(u32::MAX), None);
}

#[test]
fn dense_table_of_fillers() {
    let table = VTable::<u32, 5>::new_with_filler(FILLER);
    assert_eq!(all_of(VPtr::new(&table)), vec![FILLER; 5]);
    let table = VTable::<u32, 0>::new_with_filler(FILLER);
    assert_eq!(all_of(VPtr::new(&table)), Vec::<u32>::new());
}

#[test]
fn dense_table_from_slice_pads_with_fillers() {
    for len in 0..=6 {
        let funcs = numbered(len);
        let table = VTable::<u32, 6>::new_from_slice(&funcs, FILLER);
        let ptr = VPtr::new(&table);
        for n in 0..len {
            assert_eq!(ptr.get_function(n as u32), funcs[n]);
        }
        assert_eq!(all_of(ptr), padded(&funcs, 6));
    }
}

#[test]
fn dense_table_refuses_a_longer_slice() {
    assert!(VTable::<u32, 6>::try_new_from_slice(&numbered(6), FILLER).is_some());
    assert!(VTable::<u32, 6>::try_new_from_slice(&numbered(7), FILLER).is_none());
    assert!(VTable::<u32, 6>::try_new_from_slice(&numbered(100), FILLER).is_none());
    assert!(VTable::<u32, 0>::try_new_from_slice(&numbered(0), FILLER).is_some());
    assert!(VTable::<u32, 0>::try_new_from_slice(&numbered(1), FILLER).is_none());
    let table = VTable::<u32, 6>::try_new_from_slice(&numbered(4), FILLER).unwrap();
    assert_eq!(all_of(VPtr::new(&table)), padded(&numbered(4), 6));
}

#[test]
fn copies_resolve_the_same() {
    let table = VTable::<u32, 4>::new_from_slice(&numbered(3), FILLER);
    let copy = table;
    let ptr = VPtr::new(&table);
    let ptr_copy = ptr;
    assert_eq!(all_of(ptr), all_of(ptr_copy));
    assert_eq!(all_of(VPtr::new(&copy)), all_of(ptr.clone()));
    assert_eq!(table.clone().get_function(2), 102);
}

fn grouped_round_trip<const TRAIT_N: usize, const FUNC_N: usize>() {
    for len in 0..=(TRAIT_N * FUNC_N) {
        let funcs = numbered(len);
        let table = MultiVTable::<u32, TRAIT_N, FUNC_N>::new(&funcs, FILLER);
        let ptr = MultiVPtr::new(&table);
        for n in 0..len {
            assert_eq!(ptr.get_function(n as u32), funcs[n]);
            let group = (n / FUNC_N) as u32;
            let offset = (n % FUNC_N) as u32;
            assert_eq!(table.get_trait_function(group, offset), funcs[n]);
            assert_eq!(ptr.get_trait_function(group, offset), funcs[n]);
        }
        assert_eq!(all_of(ptr), padded(&funcs, TRAIT_N * FUNC_N));
        assert_eq!(all_of(ptr.clone()), all_of(ptr));
    }
}

#[test]
fn grouped_table_holds_what_it_was_given() {
    grouped_round_trip::<1, 1>();
    grouped_round_trip::<1, 10>();
    grouped_round_trip::<2, 5>();
    grouped_round_trip::<3, 4>();
    grouped_round_trip::<5, 2>();
    grouped_round_trip::<7, 1>();
    grouped_round_trip::<12, 3>();
}

#[test]
fn grouped_table_splits_by_group_size() {
    let funcs = numbered(10);
    let table = MultiVTable::<u32, 4, 3>::new(&funcs, FILLER);
    assert_eq!(table.get_trait_function(0, 0), 100);
    assert_eq!(table.get_trait_function(0, 2), 102);
    assert_eq!(table.get_trait_function(1, 0), 103);
    assert_eq!(table.get_trait_function(2, 1), 107);
    assert_eq!(table.get_trait_function(3, 0), 109);
    assert_eq!(table.get_trait_function(3, 1), FILLER);
    assert_eq!(table.get_trait_function(3, 2), FILLER);
    let ptr = MultiVPtr::new(&table);
    assert_eq!(ptr.get_function(7), 107);
    assert_eq!(ptr.try_get_function(11), Some(FILLER));
    assert_eq!(ptr.try_get_function(12), None);
}

#[test]
fn grouped_table_refuses_a_longer_list() {
    assert!(MultiVTable::<u32, 3, 4>::try_new(&numbered(12), FILLER).is_some());
    assert!(MultiVTable::<u32, 3, 4>::try_new(&numbered(13), FILLER).is_none());
    assert!(MultiVTable::<u32, 0, 4>::try_new(&numbered(0), FILLER).is_some());
    assert!(MultiVTable::<u32, 0, 4>::try_new(&numbered(1), FILLER).is_none());
    assert!(MultiVTable::<u32, 3, 0>::try_new(&numbered(0), FILLER).is_none());
    assert!(MultiVTable::<u32, 3, 0>::try_new(&numbered(1), FILLER).is_none());
    let table = MultiVTable::<u32, 3, 4>::try_new(&numbered(5), FILLER).unwrap();
    let ptr = MultiVPtr::try_new(&table).unwrap();
    assert_eq!(all_of(ptr), padded(&numbered(5), 12));
}

#[test]
fn grouped_pointer_needs_a_group() {
    let table = MultiVTable::<u32, 0, 4>::new(&[], FILLER);
    assert!(MultiVPtr::try_new(&table).is_none());
    let table = MultiVTable::<u32, 1, 4>::new(&[], FILLER);
    assert!(MultiVPtr::try_new(&table).is_some());
}

#[test]
fn fits_in_groups_compares_with_the_product() {
    assert!(fits_in_groups(0, 0, 0));
    assert!(!fits_in_groups(1, 0, 5));
    assert!(!fits_in_groups(1, 5, 0));
    assert!(fits_in_groups(12, 3, 4));
    assert!(!fits_in_groups(13, 3, 4));
    assert!(fits_in_groups(usize::MAX, usize::MAX, 2));
    assert!(fits_in_groups(usize::MAX, usize::MAX, 1));
    assert!(!fits_in_groups(usize::MAX, usize::MAX - 1, 1));
}

#[test]
fn inline_sieve_skips_the_gaps() {
    let table = InlineSieveTable::new(
        [Some(10u32), None, Some(11), Some(12), None, None, Some(13), None],
        FILLER,
    );
    let ptr = InlineSievePtr::new(&table);
    assert_eq!(ptr.get_function(0), 10);
    assert_eq!(ptr.get_function(1), 11);
    assert_eq!(ptr.get_function(2), 12);
    assert_eq!(ptr.get_function(3), 13);
    assert_eq!(ptr.try_get_function(3), Some(13));
    assert_eq!(ptr.try_get_function(4), None);
    assert_eq!(all_of(ptr.clone()), vec![10, 11, 12, 13]);
}

#[test]
fn inline_sieve_edge_shapes() {
    let table = InlineSieveTable::<u32, 0>::new([], FILLER);
    assert_eq!(all_of(InlineSievePtr::new(&table)), Vec::<u32>::new());

    let table = InlineSieveTable::<u32, 3>::new([None, None, None], FILLER);
    assert_eq!(all_of(InlineSievePtr::new(&table)), Vec::<u32>::new());

    let table = InlineSieveTable::<u32, 3>::new([Some(1), Some(2), Some(3)], FILLER);
    assert_eq!(all_of(InlineSievePtr::new(&table)), vec![1, 2, 3]);

    let table = InlineSieveTable::<u32, 3>::new([None, None, Some(3)], FILLER);
    assert_eq!(all_of(InlineSievePtr::new(&table)), vec![3]);
}

#[test]
fn inline_sieve_uses_the_whole_word() {
    const N: usize = usize::BITS as usize;
    let mut opt_funcs: [Option<u32>; N] = [None; N];
    let mut want = Vec::new();
    for (i, slot) in opt_funcs.iter_mut().enumerate() {
        if i % 3 != 1 {
            *slot = Some(i as u32);
            want.push(i as u32);
        }
    }
    let table = InlineSieveTable::new(opt_funcs, FILLER);
    let ptr = InlineSievePtr::new(&table);
    for (n, f) in want.iter().enumerate() {
        assert_eq!(ptr.get_function(n as u32), *f);
    }
    assert_eq!(all_of(ptr), want);

    let full: [Option<u32>; N] = core::array::from_fn(|i| Some(2 * i as u32));
    let table = InlineSieveTable::new(full, FILLER);
    let ptr = InlineSievePtr::new(&table);
    for n in 0..N {
        assert_eq!(ptr.get_function(n as u32), 2 * n as u32);
    }
    assert_eq!(ptr.try_get_function(N as u32), None);
}

fn packed_round_trip<const TRAIT_N: usize, const FUNC_N: usize>() {
    for len in 0..=(TRAIT_N * FUNC_N) {
        let funcs = numbered(len);
        let table = PackedSieveTable::<u32, TRAIT_N, FUNC_N>::new(&funcs, FILLER);
        let ptr = PackedSievePtr::new(&table);
        for n in 0..len {
            assert_eq!(ptr.get_function(n as u32), funcs[n]);
        }
        let groups = (len + FUNC_N - 1) / FUNC_N;
        assert_eq!(all_of(ptr), padded(&funcs, groups * FUNC_N));
        assert_eq!(all_of(ptr.clone()), all_of(ptr));
    }
}

#[test]
fn packed_table_holds_what_it_was_given() {
    packed_round_trip::<1, 1>();
    packed_round_trip::<1, 10>();
    packed_round_trip::<2, 5>();
    packed_round_trip::<3, 4>();
    packed_round_trip::<4, 3>();
    packed_round_trip::<5, 2>();
    packed_round_trip::<8, 1>();
    packed_round_trip::<8, 7>();
}

#[test]
fn packed_table_stores_the_groups_it_needs() {
    let table = PackedSieveTable::<u32, 4, 3>::new(&numbered(8), FILLER);
    let ptr = PackedSievePtr::new(&table);
    assert_eq!(ptr.get_function(0), 100);
    assert_eq!(ptr.get_function(7), 107);
    assert_eq!(ptr.try_get_function(8), Some(FILLER));
    assert_eq!(ptr.try_get_function(9), None);

    let table = PackedSieveTable::<u32, 4, 3>::new(&[], FILLER);
    assert_eq!(PackedSievePtr::new(&table).try_get_function(0), None);
}

#[test]
fn packed_table_refuses_a_longer_list() {
    assert!(PackedSieveTable::<u32, 3, 4>::try_new(&numbered(12), FILLER).is_some());
    assert!(PackedSieveTable::<u32, 3, 4>::try_new(&numbered(13), FILLER).is_none());
    assert!(PackedSieveTable::<u32, 3, 0>::try_new(&numbered(0), FILLER).is_none());
    assert!(PackedSieveTable::<u32, 0, 3>::try_new(&numbered(0), FILLER).is_some());
    assert!(PackedSieveTable::<u32, 0, 3>::try_new(&numbered(1), FILLER).is_none());
    let table = PackedSieveTable::<u32, 3, 4>::try_new(&numbered(6), FILLER).unwrap();
    let ptr = PackedSievePtr::try_new(&table).unwrap();
    assert_eq!(all_of(ptr), padded(&numbered(6), 8));
}

#[test]
fn packed_pointer_refuses_more_than_eight_groups() {
    assert_eq!(MAX_TRAITS, 8);
    let table = PackedSieveTable::<u32, 8, 2>::new(&numbered(16), FILLER);
    assert!(PackedSievePtr::try_new(&table).is_some());
    let table = PackedSieveTable::<u32, 9, 2>::new(&numbered(16), FILLER);
    assert!(PackedSievePtr::try_new(&table).is_none());
    let table = PackedSieveTable::<u32, 64, 2>::new(&numbered(3), FILLER);
    assert!(PackedSievePtr::try_new(&table).is_none());
    let table = PackedSieveTable::<u32, 0, 2>::new(&[], FILLER);
    let ptr = PackedSievePtr::try_new(&table).unwrap();
    assert_eq!(ptr.try_get_function(0), None);
}

#[test]
fn all_layouts_resolve_one_list_alike() {
    let funcs = numbered(8);
    let dense = VTable::<u32, 8>::new_from_slice(&funcs, FILLER);
    let grouped = MultiVTable::<u32, 3, 4>::new(&funcs, FILLER);
    let mut with_gaps = [None; 12];
    for (i, f) in funcs.iter().enumerate() {
        with_gaps[i + i / 2] = Some(*f);
    }
    let sieved = InlineSieveTable::new(with_gaps, FILLER);
    let packed = PackedSieveTable::<u32, 3, 4>::new(&funcs, FILLER);
    let dense_ptr = VPtr::new(&dense);
    let grouped_ptr = MultiVPtr::new(&grouped);
    let sieved_ptr = InlineSievePtr::new(&sieved);
    let packed_ptr = PackedSievePtr::new(&packed);
    for n in 0..8 {
        let want = funcs[n as usize];
        assert_eq!(dense_ptr.get_function(n), want);
        assert_eq!(grouped_ptr.get_function(n), want);
        assert_eq!(sieved_ptr.get_function(n), want);
        assert_eq!(packed_ptr.get_function(n), want);
    }
}

#[derive(Clone, Copy)]
struct Callee(fn(u64) -> u64);

fn double(x: u64) -> u64 {
    2 * x
}

fn square(x: u64) -> u64 {
    x * x
}

fn never(_: u64) -> u64 {
    unreachable!("a filler was called")
}

#[test]
fn slots_may_be_function_pointers() {
    let table = InlineSieveTable::new([None, Some(Callee(double)), None, Some(Callee(square))], Callee(never));
    let ptr = InlineSievePtr::new(&table);
    assert_eq!((ptr.get_function(0).0)(7), 14);
    assert_eq!((ptr.get_function(1).0)(7), 49);
    assert!(ptr.try_get_function(2).is_none());

    let table = PackedSieveTable::<Callee, 2, 1>::new(&[Callee(double), Callee(square)], Callee(never));
    let ptr = PackedSievePtr::new(&table);
    assert_eq!((ptr.get_function(0).0)(5), 10);
    assert_eq!((ptr.get_function(1).0)(5), 25);
}
