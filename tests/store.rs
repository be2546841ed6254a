use kv_cache::store::InMemoryCache;

fn s(x: &str) -> String {
    x.to_string()
}

#[test]
fn read_right_after_insert_with_positive_ttl() {
    let mut c = InMemoryCache::new();
    c.insert_item(s("k"), s("v"), 1, 5_000);
    assert_eq!(c.retrieve_item("k", 5_000), Some(s("v")));
    assert_eq!(c.retrieve_item("k", 5_999), Some(s("v")));
}

#[test]
fn zero_ttl_reads_absent() {
    let mut c = InMemoryCache::new();
    c.insert_item(s("k"), s("v"), 0, 100);
    assert_eq!(c.retrieve_item("k", 100), None);
    assert_eq!(c.retrieve_item("k", 101), None);
}

#[test]
fn remove_makes_key_absent() {
    let mut c = InMemoryCache::new();
    c.insert_item(s("k"), s("v"), 10, 0);
    c.remove_item("k");
    assert_eq!(c.retrieve_item("k", 0), None);
    assert_eq!(c.len(), 0);
}

#[test]
fn remove_of_absent_key_is_harmless() {
    let mut c: InMemoryCache<String> = InMemoryCache::new();
    c.insert_item(s("other"), s("v"), 10, 0);
    c.remove_item("missing");
    assert_eq!(c.retrieve_item("missing", 0), None);
    assert_eq!(c.retrieve_item("other", 0), Some(s("v")));
    assert_eq!(c.len(), 1);
}

#[test]
fn expired_entry_reads_absent_without_sweep() {
    let mut c = InMemoryCache::new();
    c.insert_item(s("k"), s("v"), 3, 1_000);
    assert_eq!(c.retrieve_item("k", 3_999), Some(s("v")));
    assert_eq!(c.retrieve_item("k", 4_000), None);
    assert_eq!(c.retrieve_item("k", 4_001), None);
    assert_eq!(c.len(), 1);
}

#[test]
fn sweep_reclaims_expired_entries() {
    let mut c = InMemoryCache::new();
    c.insert_item(s("short"), s("a"), 1, 0);
    c.insert_item(s("long"), s("b"), 60, 0);
    c.insert_item(s("edge"), s("c"), 2, 0);
    assert_eq!(c.len(), 3);
    c.invalidate_expired(500);
    assert_eq!(c.len(), 3);
    c.invalidate_expired(2_000);
    assert_eq!(c.len(), 1);
    assert_eq!(c.retrieve_item("long", 2_000), Some(s("b")));
    assert_eq!(c.retrieve_item("short", 2_000), None);
}

#[test]
fn sweep_of_empty_store_keeps_it_empty() {
    let mut c: InMemoryCache<String> = InMemoryCache::new();
    c.invalidate_expired(0);
    assert_eq!(c.len(), 0);
}

#[test]
fn reinsert_replaces_value_and_expiry() {
    let mut c = InMemoryCache::new();
    c.insert_item(s("k"), s("old"), 100, 0);
    c.insert_item(s("k"), s("new"), 1, 0);
    assert_eq!(c.len(), 1);
    assert_eq!(c.retrieve_item("k", 500), Some(s("new")));
    assert_eq!(c.retrieve_item("k", 1_500), None);
}

#[test]
fn interleaved_inserts_of_distinct_keys_all_readable() {
    let callers: u64 = 4;
    let per_caller: u64 = 25;
    let mut c = InMemoryCache::new();
    for n in 0..per_caller {
        for m in 0..callers {
            c.insert_item(format!("c{}-k{}", m, n), format!("v{}-{}", m, n), 10, m * 10 + n);
        }
    }
    assert_eq!(c.len(), (callers * per_caller) as usize);
    for m in 0..callers {
        for n in 0..per_caller {
            let key = format!("c{}-k{}", m, n);
            assert_eq!(c.retrieve_item(&key, 1_000), Some(format!("v{}-{}", m, n)));
        }
    }
}

#[test]
fn largest_ttl_and_clock_do_not_overflow() {
    let mut c = InMemoryCache::new();
    c.insert_item(s("k"), s("v"), u64::MAX, u64::MAX);
    assert_eq!(c.retrieve_item("k", u64::MAX), Some(s("v")));
    c.invalidate_expired(u64::MAX);
    assert_eq!(c.len(), 1);
}

#[test]
fn generic_values_are_cloned_out() {
    let mut c: InMemoryCache<Vec<u8>> = InMemoryCache::new();
    c.insert_item(s("bytes"), vec![1, 2, 3], 5, 0);
    assert_eq!(c.retrieve_item("bytes", 0), Some(vec![1, 2, 3]));
    assert_eq!(c.retrieve_item("bytes", 0), Some(vec![1, 2, 3]));
}

#[test]
fn scenario_expires_after_two_seconds() {
    let mut c = InMemoryCache::new();
    c.insert_item(s("a"), s("x"), 1, 0);
    assert_eq!(c.retrieve_item("a", 0), Some(s("x")));
    assert_eq!(c.retrieve_item("a", 2_000), None);
}

#[test]
fn scenario_remove_then_absent() {
    let mut c = InMemoryCache::new();
    c.insert_item(s("a"), s("x"), 10, 0);
    c.remove_item("a");
    assert_eq!(c.retrieve_item("a", 0), None);
}

#[test]
fn scenario_second_insert_wins() {
    let mut c = InMemoryCache::new();
    c.insert_item(s("a"), s("x"), 10, 0);
    c.insert_item(s("a"), s("y"), 10, 0);
    assert_eq!(c.retrieve_item("a", 0), Some(s("y")));
}
