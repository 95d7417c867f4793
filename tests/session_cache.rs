use soash::cache::{TtlCache, MAX_OPS_BEFORE_PRUNE};

#[test]
fn insert_then_get() {
    let mut c: TtlCache<u32> = TtlCache::new(60_000);
    c.insert("k", 7);
    assert_eq!(c.get("k"), Some(7));
    assert_eq!(c.get("other"), None);
    assert_eq!(c.get_expiry(), 60_000);
}

#[test]
fn insert_replaces() {
    let mut c: TtlCache<u32> = TtlCache::new(60_000);
    c.insert_at("k", 1, 10);
    c.insert_at("k", 2, 20);
    assert_eq!(c.get_with_time_at("k", 30), Some((2, 20)));
}

#[test]
fn expired_entry_is_gone() {
    let mut c: TtlCache<u32> = TtlCache::new(100);
    c.insert_at("k", 1, 0);
    assert_eq!(c.get_with_time_at("k", 100), Some((1, 0)));
    assert_eq!(c.get_with_time_at("k", 101), None);
    assert_eq!(c.get_with_time_at("k", 50), None);
}

#[test]
fn remove_drops_entry() {
    let mut c: TtlCache<String> = TtlCache::new(1000);
    c.insert("a", "x".to_string());
    c.remove("a");
    assert_eq!(c.get("a"), None);
}

#[test]
fn periodic_sweep_drops_old_entries() {
    let mut c: TtlCache<u32> = TtlCache::new(100);
    c.insert_at("old", 1, 0);
    for i in 0..(MAX_OPS_BEFORE_PRUNE as u64) {
        c.insert_at("new", 2, 150 + i);
    }
    // "old" was swept out, so a later clock going back cannot revive it.
    assert_eq!(c.get_with_time_at("old", 0), None);
    assert_eq!(c.get_with_time_at("new", 170), Some((2, 165)));
}

#[test]
fn live_entry_is_returned_with_its_time() {
    let mut c: TtlCache<u32> = TtlCache::new(100);
    c.insert_at("k", 9, 5);
    assert_eq!(c.get_with_time_at("k", 105), Some((9, 5)));
    assert_eq!(c.get_with_time_at("missing", 105), None);
}
