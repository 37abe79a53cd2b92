use redis_me::model::{BytesFormat, RedisKey};
use redis_me::paging::{
    field_scan_after, field_scan_batch_count, list_page_after, list_page_range,
    psubscribe_patterns, stream_page_after, stream_page_window,
};
use redis_me::server::{
    db_list_from_config, keep_large_keys, memory_scan_step, restore_ttl_of_pttl, same_key,
    DbListError, MemoryScanStep, RedisMemoryParam,
};

#[test]
fn database_list() {
    let dbs = db_list_from_config(Some("3")).unwrap();
    let ids: Vec<u16> = dbs.iter().map(|d| d.db).collect();
    assert_eq!(ids, vec![0, 1, 2]);
    assert!(dbs.iter().all(|d| d.size == 0));
    assert!(db_list_from_config(None).unwrap().is_empty());
    assert!(matches!(db_list_from_config(Some("x")), Err(DbListError::InvalidDatabaseCount)));
}

fn mem(count_limit: u64, scan_total: u64) -> RedisMemoryParam {
    RedisMemoryParam {
        pattern: None,
        scan_count: 100,
        size_limit: 10,
        count_limit,
        scan_total,
        sleep_millis: 0,
        need_key_type: None,
    }
}

#[test]
fn memory_scan_decisions() {
    let keys = vec![b"a".to_vec(), b"b".to_vec(), b"c".to_vec()];
    let kept = keep_large_keys(&keys, &vec![Some(5), None, Some(10)], 10);
    assert_eq!(kept, vec![(b"c".to_vec(), 10)]);
    assert_eq!(memory_scan_step(3, &mem(3, 0), 1, 9), MemoryScanStep::Stop);
    assert_eq!(memory_scan_step(2, &mem(3, 200), 2, 9), MemoryScanStep::Stop);
    assert_eq!(memory_scan_step(2, &mem(3, 300), 2, 0), MemoryScanStep::PauseThenStop);
    assert_eq!(memory_scan_step(2, &mem(0, 0), 2, 9), MemoryScanStep::PauseThenContinue);
}

#[test]
fn copy_and_rename_helpers() {
    assert_eq!(restore_ttl_of_pttl(1500), 1500);
    assert_eq!(restore_ttl_of_pttl(-1), 0);
    assert_eq!(restore_ttl_of_pttl(-2), 0);
    let a = RedisKey { key: "k".into(), bytes: vec![] };
    let b = RedisKey { key: "other".into(), bytes: b"k".to_vec() };
    let c = RedisKey { key: "k2".into(), bytes: vec![] };
    assert!(same_key(&a, &b));
    assert!(!same_key(&a, &c));
}

#[test]
fn list_pages() {
    assert_eq!(list_page_range(0, 10, false), (0, 10));
    assert_eq!(list_page_range(5, 10, true), (5, -1));
    assert_eq!(list_page_after(11, 10, false, 0), (10, false, 10));
    assert_eq!(list_page_after(7, 10, false, 20), (7, true, 20));
    assert_eq!(list_page_after(50, 10, true, 0), (50, true, 0));
}

#[test]
fn stream_pages() {
    let w = stream_page_window("", Some("9-9"), None, 10, false);
    assert_eq!((w.end.as_str(), w.start.as_str(), w.count), ("9-9", "-", Some(11)));
    let w = stream_page_window("5-0", Some("9-9"), Some("1-0"), 10, false);
    assert_eq!((w.end.as_str(), w.start.as_str(), w.count), ("5-0", "1-0", Some(10)));
    let w = stream_page_window("", Some(""), Some(""), 10, true);
    assert_eq!((w.end.as_str(), w.start.as_str(), w.count), ("+", "-", None));
    assert_eq!(stream_page_after(11, 10, false), (true, false));
    assert_eq!(stream_page_after(10, 10, false), (false, true));
    assert_eq!(stream_page_after(11, 10, true), (false, true));
}

#[test]
fn field_scan_batches() {
    assert_eq!(field_scan_batch_count(true, 5), 1000);
    assert_eq!(field_scan_batch_count(false, 0), 20);
    assert_eq!(field_scan_batch_count(false, 5), 5);
    assert_eq!(field_scan_after(0, false, 0, 5), (true, true));
    assert_eq!(field_scan_after(3, false, 5, 5), (true, false));
    assert_eq!(field_scan_after(3, true, 500, 5), (false, false));
}

#[test]
fn subscription_patterns() {
    assert_eq!(psubscribe_patterns(None, "stop"), vec!["*"]);
    assert_eq!(psubscribe_patterns(Some(String::new()), "stop"), vec!["*"]);
    assert_eq!(psubscribe_patterns(Some(" \t ".into()), "stop"), vec!["*"]);
    assert_eq!(psubscribe_patterns(Some(" news.*  chat ".into()), "stop"), vec!["news.*", "chat", "stop"]);
}

#[test]
fn byte_format_is_copy() {
    let f = BytesFormat::Base64;
    let g = f;
    assert_eq!(f, g);
}
