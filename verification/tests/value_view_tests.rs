use redis_me::field_ops::{FieldError, KeyKind};
use redis_me::model::BytesFormat;
use redis_me::value_view::{
    field_exact_lookup, field_scan_found, field_scan_match, field_scan_plan, FieldScanRead, field_scan_reads_ttl, list_page_window,
    stream_page_range, string_read, ExactLookup, ListWindow, StringRead,
};

#[test]
fn list_window_ascending() {
    let w = list_page_window(10, None, None, false, 0, 3, false).unwrap();
    assert_eq!(w, ListWindow { start: 0, stop: 3, reverse: false });
    let w = list_page_window(10, Some(2), Some(6), false, 3, 3, false).unwrap();
    assert_eq!(w, ListWindow { start: 5, stop: 6, reverse: false });
    assert_eq!(list_page_window(10, Some(2), Some(6), false, 5, 3, false), None);
    let w = list_page_window(10, Some(-4), None, false, 0, 100, true).unwrap();
    assert_eq!(w, ListWindow { start: 6, stop: 9, reverse: false });
    assert_eq!(list_page_window(0, None, None, false, 0, 3, false), None);
}

#[test]
fn list_window_descending() {
    let w = list_page_window(10, None, None, true, 0, 3, false).unwrap();
    assert_eq!(w, ListWindow { start: 6, stop: 9, reverse: true });
    let w = list_page_window(10, Some(1), Some(20), true, 7, 3, false).unwrap();
    assert_eq!(w, ListWindow { start: 1, stop: 2, reverse: true });
    assert_eq!(list_page_window(10, Some(5), Some(4), true, 0, 3, false), None);
    let w = list_page_window(10, None, Some(-2), true, 0, 3, true).unwrap();
    assert_eq!(w, ListWindow { start: 0, stop: 8, reverse: true });
}

#[test]
fn stream_range_both_directions() {
    let r = stream_page_range("", Some("9-0"), None, 10, false, true);
    assert!(r.reverse);
    assert_eq!((r.first.as_str(), r.second.as_str(), r.count), ("9-0", "-", Some(11)));
    let r = stream_page_range("", None, Some("1-0"), 10, false, false);
    assert!(!r.reverse);
    assert_eq!((r.first.as_str(), r.second.as_str(), r.count), ("1-0", "+", Some(11)));
    let r = stream_page_range("5-0", None, Some("1-0"), 10, false, false);
    assert_eq!((r.first.as_str(), r.second.as_str(), r.count), ("5-0", "+", Some(10)));
    let r = stream_page_range("", Some(""), None, 10, true, false);
    assert_eq!((r.first.as_str(), r.second.as_str(), r.count), ("-", "+", None));
}

#[test]
fn large_strings_are_previewed() {
    assert_eq!(string_read(100, Some(50), Some(10), None), StringRead::Preview(10));
    assert_eq!(string_read(100, Some(50), None, Some(false)), StringRead::Preview(50));
    assert_eq!(string_read(100, Some(50), Some(10), Some(true)), StringRead::Full);
    assert_eq!(string_read(50, Some(50), Some(10), None), StringRead::Full);
    assert_eq!(string_read(100, None, Some(10), None), StringRead::Full);
}

#[test]
fn field_scan_options() {
    assert_eq!(field_scan_match(""), None);
    assert_eq!(field_scan_match("user:*").as_deref(), Some("user:*"));
    assert!(field_scan_reads_ttl(true, Some(true)));
    assert!(!field_scan_reads_ttl(true, None));
    assert!(!field_scan_reads_ttl(false, Some(true)));
    assert!(matches!(field_exact_lookup(&KeyKind::Hash, "f", BytesFormat::UTF8), Ok(ExactLookup::HashField(b)) if b == b"f".to_vec()));
    assert!(matches!(field_exact_lookup(&KeyKind::SetOf, "bQ==", BytesFormat::Base64), Ok(ExactLookup::SetMember(b)) if b == b"m".to_vec()));
    assert!(matches!(field_exact_lookup(&KeyKind::ZSet, "m", BytesFormat::UTF8), Ok(ExactLookup::ZSetMember(_))));
    assert!(matches!(field_exact_lookup(&KeyKind::ZSet, "!", BytesFormat::Base64), Err(FieldError::InvalidInput)));
    assert!(matches!(field_exact_lookup(&KeyKind::List, "x", BytesFormat::UTF8), Err(FieldError::ScanNotSupported(_))));
}

#[test]
fn field_scan_plan_by_type() {
    assert!(matches!(field_scan_plan(&KeyKind::Absent, None, b"k"), Err(FieldError::KeyNotFound(k)) if k == b"k".to_vec()));
    assert!(matches!(field_scan_plan(&KeyKind::String, Some("x"), b"k"), Ok(FieldScanRead::StringValue)));
    assert!(matches!(field_scan_plan(&KeyKind::Json, None, b"k"), Ok(FieldScanRead::JsonValue)));
    assert!(matches!(field_scan_plan(&KeyKind::Hash, Some("f1"), b"k"), Ok(FieldScanRead::HashField(f)) if f == b"f1".to_vec()));
    assert!(matches!(field_scan_plan(&KeyKind::Hash, Some(""), b"k"), Ok(FieldScanRead::Scan)));
    assert!(matches!(field_scan_plan(&KeyKind::List, None, b"k"), Ok(FieldScanRead::ListPage)));
    assert!(matches!(field_scan_plan(&KeyKind::Stream, Some("1-0"), b"k"), Ok(FieldScanRead::StreamEntry(id)) if id == "1-0"));
    assert!(matches!(field_scan_plan(&KeyKind::Stream, None, b"k"), Ok(FieldScanRead::StreamPage)));
    assert!(matches!(field_scan_plan(&KeyKind::SetOf, None, b"k"), Ok(FieldScanRead::Scan)));
    assert!(matches!(field_scan_plan(&KeyKind::Named("vectorset".into()), None, b"k"), Ok(FieldScanRead::Scan)));
    assert!(matches!(field_scan_plan(&KeyKind::Unknown("none".into()), None, b"k"), Err(FieldError::KeyNotFound(_))));
    assert!(matches!(field_scan_plan(&KeyKind::Unknown("x".into()), None, b"k"), Err(FieldError::KeyTypeUnknown(n)) if n == "x"));
}

#[test]
fn field_scan_missing_entries() {
    let hf = FieldScanRead::HashField(b"f".to_vec());
    assert!(field_scan_found(&hf, true, "f").is_ok());
    assert!(matches!(field_scan_found(&hf, false, "f"), Err(FieldError::FieldNotFound(n)) if n == "f"));
    let se = FieldScanRead::StreamEntry("1-0".into());
    assert!(matches!(field_scan_found(&se, false, "1-0"), Err(FieldError::StreamEntryNotFound(n)) if n == "1-0"));
    assert!(field_scan_found(&FieldScanRead::Scan, false, "").is_ok());
}
