use flag_rs::command::CommandBuilder;
use flag_rs::completion::CompletionResult;
use flag_rs::completion_cache::CompletionCache;
use flag_rs::context::{Context, FlagMap};
use std::sync::atomic::{AtomicUsize, Ordering};
use std::sync::{Arc, Mutex};
use std::time::{Duration, Instant};

fn wait(d: Duration) {
    let start = Instant::now();
    while start.elapsed() < d {}
}

#[test]
fn test_completion_cache_functionality() {
    let mut cache = CompletionCache::new(Duration::from_millis(100));

    let result = CompletionResult::new()
        .add("item1")
        .add_with_description("item2", "Description");

    let key = CompletionCache::make_key(
        &["app".to_string(), "cmd".to_string()],
        "prefix",
        &FlagMap::new(),
    );

    assert!(cache.get(&key).is_none());

    cache.put(key.clone(), result.duplicate());

    let cached = cache.get(&key).unwrap();
    assert_eq!(cached.values, result.values);
    assert_eq!(cached.descriptions, result.descriptions);

    wait(Duration::from_millis(150));

    assert!(cache.get(&key).is_none());
}

#[test]
fn test_completion_cache_with_different_contexts() {
    let mut cache = CompletionCache::new(Duration::from_secs(1));

    let result1 = CompletionResult::new().add("result1");
    let result2 = CompletionResult::new().add("result2");

    let key1 = CompletionCache::make_key(&["app".to_string()], "prefix1", &FlagMap::new());
    let key2 = CompletionCache::make_key(&["app".to_string()], "prefix2", &FlagMap::new());

    cache.put(key1.clone(), result1);
    cache.put(key2.clone(), result2);

    assert_eq!(cache.get(&key1).unwrap().values, vec!["result1"]);
    assert_eq!(cache.get(&key2).unwrap().values, vec!["result2"]);

    let mut flags1 = FlagMap::new();
    flags1.insert("verbose".to_string(), "true".to_string());

    let mut flags2 = FlagMap::new();
    flags2.insert("quiet".to_string(), "true".to_string());

    let key3 = CompletionCache::make_key(&["app".to_string()], "prefix", &flags1);
    let key4 = CompletionCache::make_key(&["app".to_string()], "prefix", &flags2);

    assert_ne!(key3, key4);
}

#[test]
fn test_completion_cache_cleanup() {
    let mut cache = CompletionCache::new(Duration::from_millis(50));

    for i in 0..5 {
        let key = format!("key{i}");
        let result = CompletionResult::new().add(format!("value{i}"));
        cache.put(key, result);
    }

    assert_eq!(cache.size(), 5);

    wait(Duration::from_millis(100));

    cache.put("new".to_string(), CompletionResult::new());

    assert_eq!(cache.size(), 1);
}

#[test]
fn test_cached_completion_integration() {
    let cache = Arc::new(Mutex::new(CompletionCache::new(Duration::from_secs(1))));
    let call_count = Arc::new(AtomicUsize::new(0));

    let cache_clone = Arc::clone(&cache);
    let count_clone = Arc::clone(&call_count);

    let app = CommandBuilder::new("cachetest")
        .arg_completion(move |ctx: &Context, prefix: &str| {
            let cache_key =
                CompletionCache::make_key(&["cachetest".to_string()], prefix, ctx.flags());

            if let Some(cached) = cache_clone.lock().unwrap().get(&cache_key) {
                return Ok(cached);
            }

            count_clone.fetch_add(1, Ordering::SeqCst);
            wait(Duration::from_millis(10));

            let result = CompletionResult::new().add(format!("expensive-{prefix}"));

            cache_clone.lock().unwrap().put(cache_key, result.duplicate());

            Ok(result)
        })
        .build();

    let ctx = Context::new(vec!["cachetest".to_string()]);

    let start = Instant::now();
    let result1 = app.get_completions(&ctx, "test", None).ok().unwrap();
    let first_duration = start.elapsed();
    assert!(first_duration >= Duration::from_millis(10));
    assert_eq!(result1.values, vec!["expensive-test"]);
    assert_eq!(call_count.load(Ordering::SeqCst), 1);

    let start = Instant::now();
    let result2 = app.get_completions(&ctx, "test", None).ok().unwrap();
    let second_duration = start.elapsed();
    assert!(second_duration < Duration::from_millis(5));
    assert_eq!(result2.values, vec!["expensive-test"]);
    assert_eq!(call_count.load(Ordering::SeqCst), 1);

    let result3 = app.get_completions(&ctx, "other", None).ok().unwrap();
    assert_eq!(result3.values, vec!["expensive-other"]);
    assert_eq!(call_count.load(Ordering::SeqCst), 2);
}

#[test]
fn test_completion_performance_with_many_items() {
    let app = CommandBuilder::new("perftest")
        .arg_completion(|_ctx: &Context, prefix: &str| {
            let items: Vec<String> = (0..1000)
                .map(|i| format!("item{i:04}"))
                .filter(|item| item.starts_with(prefix))
                .collect();

            Ok(CompletionResult::new().extend(items))
        })
        .build();

    let ctx = Context::new(vec!["perftest".to_string()]);

    let start = Instant::now();
    let result = app.get_completions(&ctx, "", None).ok().unwrap();
    let full_duration = start.elapsed();
    assert_eq!(result.values.len(), 1000);

    let start = Instant::now();
    let result = app.get_completions(&ctx, "item000", None).ok().unwrap();
    let filtered_duration = start.elapsed();
    assert_eq!(result.values.len(), 10);

    assert!(filtered_duration < full_duration);

    assert!(full_duration < Duration::from_millis(100));
    assert!(filtered_duration < Duration::from_millis(50));
}
