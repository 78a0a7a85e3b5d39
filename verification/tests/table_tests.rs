//! Tests of the handle table on its own: lookups answer with the most
//! recent entry, and an unchecked identifier collision shadows rather than
//! fails, as the protocol's design has it.

use remote_fs::handle_table::HandleTable;

#[test]
fn insert_then_get_finds_the_resource() {
    let mut t: HandleTable<u32> = HandleTable::new();
    assert_eq!(t.len(), 0);
    assert!(!t.contains(7));
    assert!(t.get(7).is_none());
    t.insert(7, 100);
    assert_eq!(t.len(), 1);
    assert!(t.contains(7));
    assert_eq!(t.get(7), Some(&100));
    assert!(t.get(8).is_none());
}

#[test]
fn a_colliding_insert_shadows_the_older_entry() {
    let mut t: HandleTable<u32> = HandleTable::new();
    t.insert(7, 100);
    t.insert(7, 200);
    assert_eq!(t.len(), 2);
    assert_eq!(t.get(7), Some(&200));
}

#[test]
fn set_replaces_only_an_existing_entry() {
    let mut t: HandleTable<u32> = HandleTable::new();
    t.insert(1, 10);
    t.insert(2, 20);
    assert!(t.set(1, 11));
    assert_eq!(t.get(1), Some(&11));
    assert_eq!(t.get(2), Some(&20));
    assert!(!t.set(3, 30));
    assert!(t.get(3).is_none());
    assert_eq!(t.len(), 2);
}
