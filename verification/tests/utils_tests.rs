use aer::utils::all_relative_to;
use aer::utils::fast_hash_str;
use aer::utils::fast_hash_str_with_salt;
use aer::utils::relative_to;
use aer::utils::try_relative_to;
use aer::utils::u64_to_decimal;

#[test]
fn test_fast_hash_str() {
    fast_hash_str("hello world");
}

#[test]
fn test_fast_hash_str_with_salt() {
    fast_hash_str_with_salt("hello world", "salt");
}

#[test]
fn test_relative_to() {
    let relative = relative_to("/a/b/c", "/a");
    assert_eq!(relative, "b/c");
}

#[test]
fn test_all_relative_to() {
    let paths = vec![
        "/a/b/c".to_string(),
        "/a/b/d".to_string(),
        "/a/b/e".to_string(),
    ];
    let relative = all_relative_to(&paths, "/a");
    assert_eq!(
        relative,
        vec!["b/c".to_string(), "b/d".to_string(), "b/e".to_string()]
    );
}

#[test]
fn test_relative_to_trailing_separator_base() {
    assert_eq!(relative_to("/a/b/c", "/a/"), "b/c");
    assert_eq!(relative_to("dir/file.txt", "dir"), "file.txt");
}

#[test]
fn test_try_relative_to_rejects_stray_paths() {
    assert_eq!(try_relative_to("/x/y", "/a"), None);
    assert_eq!(try_relative_to("/ab/c", "/a"), None);
    assert_eq!(try_relative_to("/a/b", "/a"), Some("b".to_string()));
}

#[test]
fn test_u64_to_decimal_exact() {
    assert_eq!(u64_to_decimal(0), "0");
    assert_eq!(u64_to_decimal(7), "7");
    assert_eq!(u64_to_decimal(10), "10");
    assert_eq!(u64_to_decimal(1234567890123), "1234567890123");
    assert_eq!(u64_to_decimal(u64::MAX), "18446744073709551615");
}

#[test]
fn test_fast_hash_str_is_a_decimal_digest() {
    let h = fast_hash_str("hello world");
    assert!(!h.is_empty());
    assert!(h.len() <= 20);
    assert!(h.chars().all(|c| c.is_ascii_digit()));
    assert_ne!(h, "hello world");
    // The same input hashes to the same digest.
    assert_eq!(h, fast_hash_str("hello world"));
}

#[test]
fn test_fast_hash_str_with_salt_depends_on_salt() {
    let a = fast_hash_str_with_salt("hello world", "salt");
    let b = fast_hash_str_with_salt("hello world", "salt");
    assert_eq!(a, b);
    assert!(a.chars().all(|c| c.is_ascii_digit()));
}
