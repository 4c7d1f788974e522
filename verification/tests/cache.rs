use std::time::Duration;

use op_cache::cache::{Cache, MAX_TTL};

/// A lifetime as the cache counts it.
fn nanos(d: Duration) -> u128 {
    d.as_nanos()
}

/// An instant `d` after `t`.
fn after(t: u64, d: Duration) -> u64 {
    t + d.as_nanos() as u64
}

/// A day, the longest a secret lives.
fn max_ttl() -> Duration {
    Duration::from_nanos(MAX_TTL as u64)
}

#[test]
fn entries_expire_only_when_given_a_ttl() {
    let mut cache = Cache::default();
    let t0: u64 = 1_000_000_000;
    cache.put("forever".into(), b"a".to_vec(), None, t0);
    cache.put(
        "brief".into(),
        b"b".to_vec(),
        Some(nanos(Duration::from_secs(10))),
        t0,
    );

    let later = after(t0, Duration::from_secs(5));
    assert_eq!(cache.get("forever", later), Some(&b"a"[..]));
    assert_eq!(cache.get("brief", later), Some(&b"b"[..]));
    assert_eq!(
        cache.entries(later),
        vec![
            ("brief", &b"b"[..], Some(nanos(Duration::from_secs(5)))),
            ("forever", &b"a"[..], None)
        ]
    );

    let expired = after(t0, Duration::from_secs(10));
    assert_eq!(
        cache.entries(expired),
        vec![("forever", &b"a"[..], None)]
    );
    assert_eq!(cache.get("brief", expired), None);
    assert_eq!(cache.get("forever", expired), Some(&b"a"[..]));

    cache.clear();
    assert!(cache.entries(expired).is_empty());
}

#[test]
fn lifetimes_are_capped_at_a_day() {
    let mut cache = Cache::default();
    let t0: u64 = 1_000_000_000;
    cache.put("huge".into(), b"h".to_vec(), Some(nanos(Duration::MAX)), t0);
    cache.put("week".into(), b"w".to_vec(), Some(nanos(max_ttl() * 7)), t0);
    cache.put(
        "hour".into(),
        b"o".to_vec(),
        Some(nanos(Duration::from_secs(3600))),
        t0,
    );
    cache.put("exit".into(), b"e".to_vec(), None, t0);
    assert_eq!(
        cache.entries(t0),
        vec![
            ("exit", &b"e"[..], None),
            ("hour", &b"o"[..], Some(nanos(Duration::from_secs(3600)))),
            ("huge", &b"h"[..], Some(nanos(max_ttl()))),
            ("week", &b"w"[..], Some(nanos(max_ttl()))),
        ]
    );

    let a_day_on = after(t0, max_ttl());
    assert_eq!(cache.get("huge", a_day_on), None);
    assert_eq!(cache.get("week", a_day_on), None);
    assert_eq!(cache.get("exit", a_day_on), Some(&b"e"[..]));
}

#[test]
fn a_new_cache_holds_nothing() {
    let mut cache = Cache::new();
    assert!(cache.entries(0).is_empty());
    assert_eq!(cache.get("anything", 0), None);
}

#[test]
fn a_put_replaces_what_the_key_held() {
    let mut cache = Cache::default();
    cache.put("k".into(), b"old".to_vec(), Some(nanos(Duration::from_secs(1))), 0);
    cache.put("k".into(), b"new".to_vec(), None, 0);
    let much_later = after(0, Duration::from_secs(1_000_000));
    assert_eq!(cache.get("k", much_later), Some(&b"new"[..]));
    assert_eq!(cache.entries(much_later).len(), 1);
}

#[test]
fn a_read_gives_back_what_was_written_until_it_expires() {
    let mut cache = Cache::default();
    let t0: u64 = 42;
    cache.put("key".into(), vec![0, 1, 2, 255], Some(nanos(Duration::from_millis(1500))), t0);
    assert_eq!(cache.get("key", t0), Some(&[0u8, 1, 2, 255][..]));
    assert_eq!(
        cache.get("key", after(t0, Duration::from_millis(1499))),
        Some(&[0u8, 1, 2, 255][..])
    );
    assert_eq!(cache.get("key", after(t0, Duration::from_millis(1500))), None);
    // Once expired, the secret is gone for good, even at an earlier instant.
    assert_eq!(cache.get("key", t0), None);
}

#[test]
fn keys_are_separate_entries() {
    let mut cache = Cache::default();
    cache.put("read\u{1f}op://v/i/f".into(), b"a".to_vec(), None, 0);
    cache.put(
        "read\u{1f}--account\u{1f}work\u{1f}op://v/i/f".into(),
        b"b".to_vec(),
        None,
        0,
    );
    assert_eq!(cache.get("read\u{1f}op://v/i/f", 0), Some(&b"a"[..]));
    assert_eq!(
        cache.get("read\u{1f}--account\u{1f}work\u{1f}op://v/i/f", 0),
        Some(&b"b"[..])
    );
    assert_eq!(cache.get("read", 0), None);
}

#[test]
fn entries_come_in_the_order_of_str() {
    let mut cache = Cache::default();
    for key in ["é", "b", "Z", "ab", "a", "", "\u{1f}"] {
        cache.put(key.to_string(), key.as_bytes().to_vec(), None, 0);
    }
    let keys: Vec<&str> = cache.entries(0).into_iter().map(|e| e.0).collect();
    let mut expected = vec!["é", "b", "Z", "ab", "a", "", "\u{1f}"];
    expected.sort();
    assert_eq!(keys, expected);
}

#[test]
fn an_expired_secret_is_dropped_by_a_get_only() {
    let mut cache = Cache::default();
    cache.put("gone".into(), b"g".to_vec(), Some(nanos(Duration::from_secs(1))), 0);
    cache.put("kept".into(), b"k".to_vec(), None, 0);
    let later = after(0, Duration::from_secs(2));
    // entries skips it without dropping it; at an earlier instant it is still there.
    assert_eq!(cache.entries(later).len(), 1);
    assert_eq!(cache.entries(0).len(), 2);
    assert_eq!(cache.get("gone", later), None);
    assert_eq!(cache.entries(0).len(), 1);
}

#[test]
fn a_zero_lifetime_expires_at_once() {
    let mut cache = Cache::default();
    cache.put("k".into(), b"v".to_vec(), Some(0), 7);
    assert_eq!(cache.get("k", 7), None);
}
