use vivanta::error::KernelError;
use vivanta::usercopy::{UserPtr, UserSlice};
use vivanta::vmm::tables::{TableEntry, TableRegistry, MAX_TABLES};

#[test]
fn user_ptr_requires_a_passed_check() {
    assert_eq!(UserPtr::<u64>::new(0x1000, true).map(|p| p.addr()), Ok(0x1000));
    assert!(matches!(UserPtr::<u64>::new(0x1000, false), Err(KernelError::InvalidAddress)));
}

#[test]
fn user_slice_reads_within_bounds() {
    let s = UserSlice::read(0x2000, 3, true).ok().unwrap();
    assert_eq!(s.len(), 3);
    assert!(!s.is_empty());
    assert_eq!(s.addr(), 0x2000);
    let user = [7u8, 8, 9];
    assert_eq!(s.read_byte(2, &user), Ok(9));
    assert_eq!(s.read_byte(3, &user), Err(KernelError::InvalidAddress));
    assert!(UserSlice::read(0x2000, 0, true).ok().unwrap().is_empty());
    assert!(matches!(UserSlice::read(0x2000, 3, false), Err(KernelError::InvalidAddress)));
}

#[test]
fn user_slice_copy_needs_room() {
    let s = UserSlice::read(0x2000, 3, true).ok().unwrap();
    let user = [1u8, 2, 3];
    let mut dest = [0u8; 5];
    assert_eq!(s.copy_to_kernel(&user, &mut dest), Ok(()));
    assert_eq!(dest, [1, 2, 3, 0, 0]);
    let mut small = [9u8; 2];
    assert_eq!(s.copy_to_kernel(&user, &mut small), Err(KernelError::InvalidAddress));
    assert_eq!(small, [9, 9]);
}

fn entry(frame: u64, as_id: u64) -> TableEntry {
    TableEntry { frame, as_id, level: 3, parent_table: 0x9000, parent_index: 1, backend: 0 }
}

#[test]
fn table_registry_record_take_lookup() {
    let mut r = TableRegistry::new();
    assert_eq!(r.total(), 0);
    assert!(r.record(entry(0x1000, 1)));
    assert!(r.record(entry(0x2000, 1)));
    assert!(r.record(entry(0x3000, 2)));
    assert_eq!(r.total(), 3);
    assert_eq!(r.count_for_as(1), 2);
    assert_eq!(r.count_for_as(2), 1);
    assert_eq!(r.lookup(0x2000, 1), Some(entry(0x2000, 1)));
    assert_eq!(r.lookup(0x2000, 2), None);
    assert_eq!(r.take(0x1000, 1), Some(entry(0x1000, 1)));
    assert_eq!(r.take(0x1000, 1), None);
    assert_eq!(r.total(), 2);
    assert_eq!(r.entry(0), None);
    assert!(r.record(entry(0x4000, 1)));
    assert_eq!(r.entry(0), Some(entry(0x4000, 1)));
}

#[test]
fn table_registry_find_empty_reads_leaf_counts() {
    let mut r = TableRegistry::new();
    assert!(r.record(entry(0x1000, 1)));
    assert!(r.record(entry(0x2000, 1)));
    assert!(r.record(entry(0x3000, 2)));
    let mut leaves = vec![5u64; MAX_TABLES];
    assert_eq!(r.find_empty(1, &leaves), None);
    leaves[1] = 0;
    leaves[2] = 0;
    assert_eq!(r.find_empty(1, &leaves), Some(entry(0x2000, 1)));
    assert_eq!(r.find_empty(2, &leaves), Some(entry(0x3000, 2)));
    assert_eq!(r.find_empty(3, &leaves), None);
}

#[test]
fn table_registry_full_refuses() {
    let mut r = TableRegistry::new();
    for i in 0..MAX_TABLES as u64 {
        assert!(r.record(entry(0x1000 * (i + 1), 1)));
    }
    assert!(!r.record(entry(0xdead_0000, 1)));
    assert_eq!(r.total(), MAX_TABLES);
}
