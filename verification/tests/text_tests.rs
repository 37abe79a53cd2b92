use redis_me::text::{join_words_from, split_char, split_whitespace, str_contains};

#[test]
fn split_helpers() {
    assert_eq!(split_char("a,,b", ','), vec!["a", "", "b"]);
    assert_eq!(split_char("", ','), vec![""]);
    assert_eq!(split_whitespace("  a\u{3000}b\n c "), vec!["a", "b", "c"]);
    assert!(split_whitespace(" \t").is_empty());
    assert!(str_contains("myself,master", "master"));
    assert!(!str_contains("slave", "master"));
    assert!(str_contains("x", ""));
    let ws = vec!["a".to_string(), "b".to_string(), "c".to_string()];
    assert_eq!(join_words_from(&ws, 1), "b c");
    assert_eq!(join_words_from(&ws, 3), "");
}
