use redis_me::acl_list::sort_texts;
use redis_me::field_ops::{FieldError, KeyKind};
use redis_me::key_commands::{export_command_lines, KeyContent};
use redis_me::model::{default_export_format, BytesFormat, ScanCursor};
use redis_me::operations::{
    batch_key_check, batch_key_source, exact_scan_result, field_scan_command, length_command,
    new_scan_cursor, read_field_ttl, scanned_field_ttl, set_plan, single_scan_advance, ttl_op,
    BatchError, BatchSource, FieldTtlReply, SetPlan, TtlOp,
};
use redis_me::text::shell_escape;
use redis_me::transfer::{
    import_error_outcome, import_line_text, record_outcome, start_progress, TransferOutcome,
};

#[test]
fn exact_search_result() {
    let r = exact_scan_result("user:1", true);
    assert_eq!(r.key_list.len(), 1);
    assert_eq!(r.key_list[0].key, "user:1");
    assert_eq!(r.key_list[0].bytes, b"user:1".to_vec());
    assert!(r.cursor.finished);
    assert_eq!(r.cursor.now_node, "");
    assert_eq!(r.cursor.stream_cursor, "");
    assert_eq!(r.cursor.now_cursor, 0);
    assert!(r.cursor.ready_nodes.is_empty());
    assert!(exact_scan_result("x", false).key_list.is_empty());
}

#[test]
fn single_scan_cursor() {
    let c = new_scan_cursor();
    assert_eq!(c.now_cursor, 0);
    let c = single_scan_advance(c, 17);
    assert_eq!(c.now_cursor, 17);
    assert!(!c.finished);
    let c: ScanCursor = single_scan_advance(c, 0);
    assert!(c.finished);
}

#[test]
fn ttl_and_set_plans() {
    assert_eq!(ttl_op(60), TtlOp::Expire(60));
    assert_eq!(ttl_op(0), TtlOp::Persist);
    assert_eq!(ttl_op(-1), TtlOp::Persist);
    assert!(matches!(set_plan(false, "v", BytesFormat::UTF8, 10), Ok(SetPlan::SetWithExpiry(v, 10)) if v == b"v".to_vec()));
    assert!(matches!(set_plan(false, "v", BytesFormat::UTF8, 0), Ok(SetPlan::SetValue(v)) if v == b"v".to_vec()));
    assert!(matches!(set_plan(true, "[1]", BytesFormat::UTF8, 5), Ok(SetPlan::JsonSet(true))));
    assert!(matches!(set_plan(true, "[1", BytesFormat::UTF8, 5), Err(FieldError::InvalidJson)));
    assert!(matches!(set_plan(true, "[1]", BytesFormat::Base64, 5), Err(FieldError::InvalidInput)));
}

#[test]
fn scan_and_length_commands() {
    assert_eq!(field_scan_command(&KeyKind::Hash).unwrap(), "hscan");
    assert_eq!(field_scan_command(&KeyKind::ZSet).unwrap(), "zscan");
    assert!(matches!(field_scan_command(&KeyKind::List), Err(FieldError::ScanNotSupported(KeyKind::List))));
    assert_eq!(length_command(&KeyKind::Stream, false).as_deref(), Some("XLEN"));
    assert_eq!(length_command(&KeyKind::SetOf, false).as_deref(), Some("SCARD"));
    assert_eq!(length_command(&KeyKind::Hash, true), None);
    assert_eq!(length_command(&KeyKind::String, false), None);
}

#[test]
fn field_ttl_replies() {
    assert_eq!(scanned_field_ttl(FieldTtlReply::Ttl(9)), Some(9));
    assert_eq!(scanned_field_ttl(FieldTtlReply::NotExists), Some(-2));
    assert_eq!(scanned_field_ttl(FieldTtlReply::NoExpiry), Some(-1));
    assert_eq!(scanned_field_ttl(FieldTtlReply::Other), None);
    assert_eq!(read_field_ttl(None), -1);
    assert_eq!(read_field_ttl(Some(FieldTtlReply::NotExists)), -2);
    assert_eq!(read_field_ttl(Some(FieldTtlReply::Other)), -1);
}

#[test]
fn batch_sources() {
    assert_eq!(batch_key_source(2, ""), Ok(BatchSource::Given));
    assert_eq!(batch_key_source(0, "a*"), Ok(BatchSource::ScanPattern));
    assert_eq!(batch_key_source(0, ""), Err(BatchError::EmptyParameters));
    assert_eq!(batch_key_check(true, 0), Err(BatchError::EmptyKeyList));
    assert_eq!(batch_key_check(false, 0), Ok(()));
}

#[test]
fn transfer_progress() {
    let p = start_progress(3);
    let p = record_outcome(p, TransferOutcome::Done);
    let p = record_outcome(p, import_error_outcome("BUSYKEY Target key name already exists."));
    let p = record_outcome(p, import_error_outcome("ERR DUMP payload version or checksum are wrong"));
    assert_eq!((p.ok_count, p.ignore_count, p.err_count, p.total_count), (1, 1, 1, 3));
    assert_eq!(import_line_text("  a,b  ").as_deref(), Some("a,b"));
    assert_eq!(import_line_text(" \t "), None);
}

#[test]
fn export_lines_with_ttl() {
    let c = KeyContent::String(b"v".to_vec());
    assert_eq!(export_command_lines(b"k", &c, Some(30)), vec![r#"SET "k" "v""#, r#"EXPIRE "k" 30"#]);
    assert_eq!(export_command_lines(b"k", &c, Some(-1)), vec![r#"SET "k" "v""#]);
    assert_eq!(export_command_lines(b"k", &c, None), vec![r#"SET "k" "v""#]);
    assert!(export_command_lines(b"k", &KeyContent::List(vec![]), Some(30)).is_empty());
}

#[test]
fn categories_sorted() {
    let v = vec!["string".to_string(), "admin".to_string(), "Zed".to_string(), "hash".to_string()];
    assert_eq!(sort_texts(v), vec!["Zed", "admin", "hash", "string"]);
    assert!(sort_texts(vec![]).is_empty());
}

#[test]
fn shell_quoting_and_defaults() {
    assert_eq!(shell_escape("/Applications/My App.app"), "'/Applications/My App.app'");
    assert_eq!(shell_escape("it's"), "'it'\\''s'");
    assert_eq!(default_export_format(), "csv");
}
