use flag_rs::completion::CompletionResult;
use flag_rs::completion_cache::CompletionCache;
use flag_rs::context::FlagMap;
use std::time::{Duration, Instant};

fn wait(d: Duration) {
    let start = Instant::now();
    while start.elapsed() < d {}
}

#[test]
fn test_cache_key_generation() {
    let mut flags = FlagMap::new();
    flags.insert("namespace".to_string(), "default".to_string());
    flags.insert("verbose".to_string(), "true".to_string());

    let key1 = CompletionCache::make_key(&["kubectl".to_string(), "get".to_string()], "po", &flags);
    let key2 = CompletionCache::make_key(&["kubectl".to_string(), "get".to_string()], "po", &flags);
    assert_eq!(key1, key2);

    let key3 = CompletionCache::make_key(&["kubectl".to_string(), "get".to_string()], "pod", &flags);
    assert_ne!(key1, key3);

    flags.insert("all-namespaces".to_string(), "true".to_string());
    let key4 = CompletionCache::make_key(&["kubectl".to_string(), "get".to_string()], "po", &flags);
    assert_ne!(key1, key4);
}

#[test]
fn key_layout_and_flag_order() {
    let mut a = FlagMap::new();
    a.insert("zeta".to_string(), "1".to_string());
    a.insert("alpha".to_string(), "2".to_string());
    let mut b = FlagMap::new();
    b.insert("alpha".to_string(), "2".to_string());
    b.insert("zeta".to_string(), "1".to_string());
    let path = ["app".to_string(), "get".to_string()];
    let ka = CompletionCache::make_key(&path, "x", &a);
    let kb = CompletionCache::make_key(&path, "x", &b);
    assert_eq!(ka, "app:get:__prefix:x:alpha=2:zeta=1");
    assert_eq!(ka, kb);
    assert_eq!(CompletionCache::make_key(&[], "", &FlagMap::new()), "__prefix:");
}

#[test]
fn separators_inside_parts_are_escaped() {
    let joined = CompletionCache::make_key(&["a:b".to_string()], "", &FlagMap::new());
    let split = CompletionCache::make_key(&["a".to_string(), "b".to_string()], "", &FlagMap::new());
    assert_ne!(joined, split);
    assert_eq!(joined, "a\\:b:__prefix:");
    let mut f1 = FlagMap::new();
    f1.insert("a:b".to_string(), "c".to_string());
    let mut f2 = FlagMap::new();
    f2.insert("a".to_string(), "b:c".to_string());
    assert_ne!(
        CompletionCache::make_key(&[], "p", &f1),
        CompletionCache::make_key(&[], "p", &f2)
    );
    assert_ne!(
        CompletionCache::make_key(&["x=".to_string()], "", &FlagMap::new()),
        CompletionCache::make_key(&["x".to_string()], "=", &FlagMap::new())
    );
    let mut f3 = FlagMap::new();
    f3.insert("a=b".to_string(), "c".to_string());
    let mut f4 = FlagMap::new();
    f4.insert("a".to_string(), "b=c".to_string());
    assert_eq!(CompletionCache::make_key(&[], "p", &f3), "__prefix:p:a\\=b=c");
    assert_ne!(
        CompletionCache::make_key(&[], "p", &f3),
        CompletionCache::make_key(&[], "p", &f4)
    );
}

#[test]
fn cache_stores_and_returns_results() {
    let mut cache = CompletionCache::new(Duration::from_secs(60));
    let key = "test:key";
    let result = CompletionResult::new().add("item1").add("item2");

    assert!(cache.get(key).is_none());

    cache.put(key.to_string(), result.duplicate());
    let cached = cache.get(key).unwrap();
    assert_eq!(cached.values, result.values);
    assert_eq!(cache.size(), 1);

    cache.put(key.to_string(), CompletionResult::new().add("other"));
    assert_eq!(cache.size(), 1);
    assert_eq!(cache.get(key).unwrap().values, vec!["other"]);

    cache.clear();
    assert_eq!(cache.size(), 0);
    assert!(cache.get(key).is_none());
}

#[test]
fn zero_ttl_entries_expire_at_once() {
    let mut cache = CompletionCache::new(Duration::ZERO);
    cache.put("k".to_string(), CompletionResult::new().add("v"));
    assert_eq!(cache.size(), 0);
    assert!(cache.get("k").is_none());
}

#[test]
fn default_cache_is_empty() {
    let cache = CompletionCache::default();
    assert_eq!(cache.size(), 0);
    let cache = CompletionCache::with_default_ttl();
    assert_eq!(cache.size(), 0);
}

#[test]
fn test_cache_basic_operations() {
    let mut cache = CompletionCache::new(Duration::from_secs(1));
    let key = "test:key";
    let result = CompletionResult::new().add("item1").add("item2");

    assert!(cache.get(key).is_none());

    cache.put(key.to_string(), result.duplicate());
    let cached = cache.get(key).unwrap();
    assert_eq!(cached.values, result.values);

    wait(Duration::from_millis(1100));
    assert!(cache.get(key).is_none());
}

#[test]
fn test_cache_cleanup() {
    let mut cache = CompletionCache::new(Duration::from_millis(100));

    for i in 0..5 {
        let key = format!("key{i}");
        let result = CompletionResult::new().add(format!("item{i}"));
        cache.put(key, result);
    }

    assert_eq!(cache.size(), 5);

    wait(Duration::from_millis(150));

    cache.put("new".to_string(), CompletionResult::new());

    assert_eq!(cache.size(), 1);
}

#[test]
fn settling_a_lookup_follows_the_entry_age() {
    let mut cache = CompletionCache::new(Duration::from_secs(60));
    cache.put("k".to_string(), CompletionResult::new().add("v"));
    let fresh = cache.settle_lookup(0, 59_999_999_999);
    assert_eq!(fresh.map(|r| r.values), Some(vec!["v".to_string()]));
    assert_eq!(cache.size(), 1);
    // An entry exactly as old as the time-to-live has expired.
    assert!(cache.settle_lookup(0, 60_000_000_000).is_none());
    assert_eq!(cache.size(), 0);
    assert!(cache.get("k").is_none());
}

#[test]
fn entries_as_old_as_the_ttl_are_dropped() {
    let mut cache = CompletionCache::new(Duration::from_secs(60));
    cache.put("a".to_string(), CompletionResult::new().add("1"));
    cache.put("b".to_string(), CompletionResult::new().add("2"));
    cache.put("c".to_string(), CompletionResult::new().add("3"));
    cache.drop_expired(&[0, 60_000_000_000, 59_999_999_999]);
    assert_eq!(cache.size(), 2);
    assert!(cache.get("b").is_none());
    assert_eq!(cache.get("c").map(|r| r.values), Some(vec!["3".to_string()]));
}

#[test]
fn the_default_ttl_is_five_seconds() {
    let mut cache = CompletionCache::with_default_ttl();
    cache.put("k".to_string(), CompletionResult::new().add("v"));
    assert!(cache.settle_lookup(0, 4_999_999_999).is_some());
    assert!(cache.settle_lookup(0, 5_000_000_000).is_none());
    assert_eq!(cache.size(), 0);
}
