use flag_rs::string_pool::StringPool;
use std::sync::Arc;

#[test]
fn test_string_interning() {
    let mut pool = StringPool::new();

    let s1 = pool.intern("hello");
    let s2 = pool.intern("hello");
    let s3 = pool.intern("world");

    assert!(Arc::ptr_eq(&s1, &s2));
    assert!(!Arc::ptr_eq(&s1, &s3));

    assert_eq!(pool.size(), 2);
}

#[test]
fn test_clear() {
    let mut pool = StringPool::new();
    let _ = pool.intern("test1");
    let _ = pool.intern("test2");
    assert_eq!(pool.size(), 2);

    pool.clear();
    assert_eq!(pool.size(), 0);
}

#[test]
fn interned_text_is_the_input() {
    let mut pool = StringPool::default();
    let s = pool.intern("flag-name");
    assert_eq!(&*s, "flag-name");
    let again = pool.intern("flag-name");
    assert!(Arc::ptr_eq(&s, &again));
    assert_eq!(pool.size(), 1);
}
