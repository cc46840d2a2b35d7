use builder_admin::flags::{ADMIN, BUILDER};
use builder_admin::store::{GrantStore, MemoryStore};

/// The teams that hold `flag`, in ascending order.
fn holders(store: &MemoryStore, flag: u32) -> Vec<u64> {
    let mut teams = store.list_teams(flag).unwrap();
    teams.sort();
    teams
}

#[test]
fn new_store_is_empty() {
    let store = MemoryStore::new();
    assert_eq!(store.len(), 0);
    assert_eq!(store.find(7), Ok(None));
    assert_eq!(holders(&store, ADMIN), vec![]);
}

#[test]
fn write_then_find() {
    let mut store = MemoryStore::new();
    assert_eq!(store.write(7, ADMIN), Ok(()));
    assert_eq!(store.find(7), Ok(Some(ADMIN)));
    assert_eq!(store.find(8), Ok(None));
    assert_eq!(store.len(), 1);
}

#[test]
fn later_write_replaces_the_flag() {
    let mut store = MemoryStore::new();
    store.write(7, ADMIN).unwrap();
    store.write(9, ADMIN).unwrap();
    store.write(7, BUILDER).unwrap();
    assert_eq!(store.find(7), Ok(Some(BUILDER)));
    assert_eq!(store.find(9), Ok(Some(ADMIN)));
    assert_eq!(store.len(), 2);
}

#[test]
fn write_is_idempotent() {
    let mut store = MemoryStore::new();
    store.write(7, ADMIN).unwrap();
    store.write(7, ADMIN).unwrap();
    assert_eq!(store.find(7), Ok(Some(ADMIN)));
    assert_eq!(store.len(), 1);
    assert_eq!(holders(&store, ADMIN), vec![7]);
}

#[test]
fn any_flag_value_is_stored() {
    let mut store = MemoryStore::new();
    store.write(1, 0).unwrap();
    store.write(2, 0x8000_0004).unwrap();
    store.write(u64::MAX, u32::MAX).unwrap();
    assert_eq!(store.find(1), Ok(Some(0)));
    assert_eq!(store.find(2), Ok(Some(0x8000_0004)));
    assert_eq!(store.find(u64::MAX), Ok(Some(u32::MAX)));
}

#[test]
fn list_teams_scans_for_the_exact_flag() {
    let mut store = MemoryStore::new();
    store.write(7, ADMIN).unwrap();
    store.write(9, BUILDER).unwrap();
    store.write(11, ADMIN).unwrap();
    store.write(13, ADMIN | BUILDER).unwrap();
    assert_eq!(holders(&store, ADMIN), vec![7, 11]);
    assert_eq!(holders(&store, BUILDER), vec![9]);
    assert_eq!(holders(&store, ADMIN | BUILDER), vec![13]);
    assert_eq!(holders(&store, 4), vec![]);
}

#[test]
fn list_teams_follows_replacement() {
    let mut store = MemoryStore::new();
    store.write(7, ADMIN).unwrap();
    store.write(9, ADMIN).unwrap();
    store.write(7, BUILDER).unwrap();
    assert_eq!(holders(&store, ADMIN), vec![9]);
    assert_eq!(holders(&store, BUILDER), vec![7]);
}
