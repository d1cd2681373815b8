use kudos::codec::Count;
use kudos::counter::{get_count, increment_count, increment_count_guarded};
use kudos::error::StoreError;
use kudos::store::MemoryStore;

#[test]
fn first_increment_returns_one() {
    let mut store = MemoryStore::new();
    assert_eq!(increment_count(&mut store, "/never/seen"), Ok(1));
    assert_eq!(store.get("/never/seen"), Some("1".to_string()));
}

#[test]
fn first_guarded_increment_returns_one() {
    let mut store = MemoryStore::new();
    assert_eq!(increment_count_guarded(&mut store, "/never/seen"), Ok(1));
    assert_eq!(store.get("/never/seen"), Some("1".to_string()));
}

#[test]
fn sequential_increments_store_their_number() {
    let mut store = MemoryStore::new();
    for n in 1..=250u64 {
        assert_eq!(increment_count(&mut store, "/page"), Ok(n));
        assert_eq!(store.get("/page"), Some(n.to_string()));
    }
    assert_eq!(get_count(&store, "/page"), Ok(250));
}

#[test]
fn sequential_guarded_increments_store_their_number() {
    let mut store = MemoryStore::new();
    for n in 1..=250u64 {
        assert_eq!(increment_count_guarded(&mut store, "/page"), Ok(n));
        assert_eq!(store.get("/page"), Some(n.to_string()));
    }
    assert_eq!(get_count(&store, "/page"), Ok(250));
}

#[test]
fn plain_and_guarded_increments_mix() {
    let mut store = MemoryStore::new();
    assert_eq!(increment_count(&mut store, "/page"), Ok(1));
    assert_eq!(increment_count_guarded(&mut store, "/page"), Ok(2));
    assert_eq!(increment_count(&mut store, "/page"), Ok(3));
    assert_eq!(increment_count_guarded(&mut store, "/page"), Ok(4));
    assert_eq!(store.get("/page"), Some("4".to_string()));
}

#[test]
fn reads_after_increments_return_their_number() {
    let mut store = MemoryStore::new();
    assert_eq!(get_count(&store, "/page"), Ok(0));
    for n in 1..=40u64 {
        increment_count(&mut store, "/page").unwrap();
        assert_eq!(get_count(&store, "/page"), Ok(n));
    }
}

#[test]
fn repeated_reads_return_the_same_and_change_nothing() {
    let mut store = MemoryStore::new();
    for _ in 0..7 {
        increment_count(&mut store, "/page").unwrap();
    }
    for _ in 0..10 {
        assert_eq!(get_count(&store, "/page"), Ok(7));
        assert_eq!(store.get("/page"), Some("7".to_string()));
    }
    assert_eq!(get_count(&store, "/other"), Ok(0));
    assert_eq!(get_count(&store, "/other"), Ok(0));
    assert_eq!(store.get("/other"), None);
    assert_eq!(increment_count(&mut store, "/page"), Ok(8));
}

#[test]
fn counters_do_not_affect_each_other() {
    let mut store = MemoryStore::new();
    increment_count(&mut store, "/a").unwrap();
    increment_count(&mut store, "/b").unwrap();
    increment_count(&mut store, "/a").unwrap();
    increment_count(&mut store, "/a").unwrap();
    assert_eq!(get_count(&store, "/a"), Ok(3));
    assert_eq!(get_count(&store, "/b"), Ok(1));
    assert_eq!(get_count(&store, "/c"), Ok(0));
}

#[test]
fn malformed_stored_value_counts_zero() {
    let mut store = MemoryStore::new();
    store.put("/page", "Kudos".to_string());
    assert_eq!(get_count(&store, "/page"), Ok(0));
    assert_eq!(store.get("/page"), Some("Kudos".to_string()));
    assert_eq!(increment_count(&mut store, "/page"), Ok(1));
    assert_eq!(store.get("/page"), Some("1".to_string()));
}

#[test]
fn malformed_stored_value_is_replaced_by_a_guarded_increment() {
    let mut store = MemoryStore::new();
    store.put("/page", "-12".to_string());
    assert_eq!(increment_count_guarded(&mut store, "/page"), Ok(1));
    assert_eq!(store.get("/page"), Some("1".to_string()));
}

#[test]
fn increments_continue_from_a_stored_count() {
    let mut store = MemoryStore::new();
    store.put("/page", "0041".to_string());
    assert_eq!(get_count(&store, "/page"), Ok(41));
    assert_eq!(increment_count(&mut store, "/page"), Ok(42));
    assert_eq!(store.get("/page"), Some("42".to_string()));
}

#[test]
fn the_largest_count_cannot_be_incremented() {
    let mut store = MemoryStore::new();
    store.put("/page", "18446744073709551615".to_string());
    assert_eq!(get_count(&store, "/page"), Ok(Count::MAX));
    assert_eq!(increment_count(&mut store, "/page"), Err(StoreError::Overflow));
    assert_eq!(increment_count_guarded(&mut store, "/page"), Err(StoreError::Overflow));
    assert_eq!(store.get("/page"), Some("18446744073709551615".to_string()));
}

#[test]
fn the_count_below_the_largest_can_be_incremented() {
    let mut store = MemoryStore::new();
    store.put("/page", "18446744073709551614".to_string());
    assert_eq!(increment_count(&mut store, "/page"), Ok(Count::MAX));
    assert_eq!(store.get("/page"), Some("18446744073709551615".to_string()));
}

#[test]
fn blog_post_scenario() {
    let mut store = MemoryStore::new();
    assert_eq!(store.get("/blog/post-1"), None);
    assert_eq!(get_count(&store, "/blog/post-1"), Ok(0));
    assert_eq!(increment_count(&mut store, "/blog/post-1"), Ok(1));
    assert_eq!(store.get("/blog/post-1"), Some("1".to_string()));
    assert_eq!(increment_count(&mut store, "/blog/post-1"), Ok(2));
    assert_eq!(store.get("/blog/post-1"), Some("2".to_string()));
}
