use redis_me::acl_log::{parse_acl_log, parse_acl_log_entry, AclLogError};
use redis_me::cli_display::{reply_text_of, CliValue};

fn bulk(s: &str) -> CliValue {
    CliValue::BulkString(s.as_bytes().to_vec())
}

fn sample_entry() -> CliValue {
    CliValue::Array(vec![
        bulk("count"),
        CliValue::Int(3),
        bulk("reason"),
        bulk("auth"),
        bulk("context"),
        bulk("toplevel"),
        bulk("object"),
        bulk("AUTH"),
        bulk("username"),
        bulk("someuser"),
        bulk("age-seconds"),
        CliValue::Double("12.5".to_string()),
        bulk("client-info"),
        bulk("id=3 addr=127.0.0.1:51832"),
        bulk("entry-id"),
        CliValue::Int(7),
        bulk("timestamp-created"),
        CliValue::Int(1675361492408),
        bulk("timestamp-last-updated"),
        CliValue::Int(1675361492409),
    ])
}

#[test]
fn acl_log_entry_reads_every_field() {
    let e = parse_acl_log_entry(&sample_entry()).unwrap();
    assert_eq!(e.count, 3);
    assert_eq!(e.reason, "auth");
    assert_eq!(e.context, "toplevel");
    assert_eq!(e.object, "AUTH");
    assert_eq!(e.username, "someuser");
    assert_eq!(e.age_seconds, "12.5");
    assert_eq!(e.client_info, "id=3 addr=127.0.0.1:51832");
    assert_eq!(e.entry_id, 7);
    assert_eq!(e.timestamp_created, 1675361492408);
    assert_eq!(e.timestamp_last_updated, 1675361492409);
}

#[test]
fn acl_log_entry_skips_unknown_and_odd_tail() {
    let v = CliValue::Array(vec![
        bulk("other"),
        bulk("x"),
        bulk("timestamp-last"),
        CliValue::Int(9),
        bulk("count"),
        bulk("not a number"),
        bulk("reason"),
    ]);
    let e = parse_acl_log_entry(&v).unwrap();
    assert_eq!(e.timestamp_last_updated, 9);
    assert_eq!(e.count, 0);
    assert_eq!(e.reason, "");
    assert_eq!(e.age_seconds, "");
}

#[test]
fn acl_log_entry_later_field_wins() {
    let v = CliValue::Array(vec![bulk("reason"), bulk("a"), bulk("reason"), bulk("b")]);
    assert_eq!(parse_acl_log_entry(&v).unwrap().reason, "b");
}

#[test]
fn acl_log_entry_must_be_array() {
    assert_eq!(parse_acl_log_entry(&bulk("x")).unwrap_err(), AclLogError::NotAnArray);
}

#[test]
fn acl_log_reads_all_entries_or_fails() {
    let ok = CliValue::Array(vec![sample_entry(), CliValue::Array(vec![])]);
    let entries = parse_acl_log(&ok).unwrap();
    assert_eq!(entries.len(), 2);
    assert_eq!(entries[0].username, "someuser");
    assert_eq!(entries[1].username, "");
    let bad = CliValue::Array(vec![sample_entry(), CliValue::Int(1)]);
    assert_eq!(parse_acl_log(&bad).unwrap_err(), AclLogError::NotAnArray);
    assert_eq!(parse_acl_log(&CliValue::Nil).unwrap_err(), AclLogError::NotAnArray);
}

#[test]
fn reply_text_of_scalars() {
    assert_eq!(reply_text_of(&bulk("abc")), "abc");
    assert_eq!(reply_text_of(&CliValue::SimpleString("OK".into())), "OK");
    assert_eq!(reply_text_of(&CliValue::Int(-42)), "-42");
    assert_eq!(reply_text_of(&CliValue::BigNumber("123456789012345678901".into())), "123456789012345678901");
    assert_eq!(reply_text_of(&CliValue::Nil), "");
    assert_eq!(reply_text_of(&CliValue::BulkString(vec![0x66, 0xff])), "f\u{fffd}");
}
