use redis_me::field_ops::{FieldError, FieldGetOp, KeyKind};
use redis_me::field_read::{
    field_command_from_reply, field_command_read, field_get_value, key_command_read, FieldRead,
    KeyRead,
};
use redis_me::model::BytesFormat;
use redis_me::operations::FieldTtlReply;

#[test]
fn hash_entry_value_and_ttl() {
    let op = FieldGetOp::HashGet(b"f".to_vec(), true);
    let v = field_get_value(op, "f", "", 0, Some(b"hi".to_vec()), Some(FieldTtlReply::Ttl(30)), BytesFormat::Base64).unwrap();
    assert_eq!(v.field_key, "Zg==");
    assert_eq!(v.field_value, "aGk=");
    assert_eq!(v.field_score, None);
    assert_eq!(v.field_ttl, 30);
    let op = FieldGetOp::HashGet(b"f".to_vec(), false);
    let v = field_get_value(op, "f", "", 0, Some(b"hi".to_vec()), Some(FieldTtlReply::Ttl(30)), BytesFormat::UTF8).unwrap();
    assert_eq!(v.field_ttl, -1);
    let op = FieldGetOp::HashGet(b"f".to_vec(), true);
    assert!(matches!(
        field_get_value(op, "f", "", 0, None, None, BytesFormat::UTF8),
        Err(FieldError::FieldNotFound(n)) if n == "f"
    ));
}

#[test]
fn list_and_zset_entry_values() {
    let v = field_get_value(FieldGetOp::ListIndex, "", "", 3, Some(b"x".to_vec()), None, BytesFormat::UTF8).unwrap();
    assert_eq!((v.field_key.as_str(), v.field_value.as_str(), v.field_ttl), ("", "x", -1));
    assert!(matches!(
        field_get_value(FieldGetOp::ListIndex, "", "", -7, None, None, BytesFormat::UTF8),
        Err(FieldError::FieldNotFound(n)) if n == "-7"
    ));
    let v = field_get_value(FieldGetOp::ZSetScore(b"m".to_vec()), "", "m", 0, Some(b"2.5".to_vec()), None, BytesFormat::UTF8).unwrap();
    assert_eq!(v.field_value, "m");
    assert_eq!(v.field_score.as_deref(), Some("2.5"));
    assert!(matches!(
        field_get_value(FieldGetOp::ZSetScore(b"m".to_vec()), "", "m", 0, None, None, BytesFormat::UTF8),
        Err(FieldError::FieldNotFound(n)) if n == "m"
    ));
}

#[test]
fn field_command_reads_by_type() {
    assert!(matches!(field_command_read(KeyKind::Absent, "", "", "", BytesFormat::UTF8, b"k"), Err(FieldError::KeyNotFound(_))));
    assert!(matches!(field_command_read(KeyKind::Hash, "f", "", "", BytesFormat::UTF8, b"k"), Ok(FieldRead::HashField(f)) if f == b"f".to_vec()));
    assert!(matches!(field_command_read(KeyKind::List, "", "", "", BytesFormat::UTF8, b"k"), Ok(FieldRead::ListIndex)));
    assert!(matches!(field_command_read(KeyKind::SetOf, "", "bQ==", "", BytesFormat::Base64, b"k"), Ok(FieldRead::SetMember(m)) if m == b"m".to_vec()));
    assert!(matches!(field_command_read(KeyKind::ZSet, "", "!", "", BytesFormat::Base64, b"k"), Err(FieldError::InvalidInput)));
    assert!(matches!(field_command_read(KeyKind::Stream, "", "", "", BytesFormat::UTF8, b"k"), Err(FieldError::StreamEntryNotFound(n)) if n.is_empty()));
    assert!(matches!(field_command_read(KeyKind::Stream, "", "", "1-0", BytesFormat::UTF8, b"k"), Ok(FieldRead::StreamEntry)));
    assert!(matches!(field_command_read(KeyKind::Json, "", "", "", BytesFormat::UTF8, b"k"), Err(FieldError::KeyTypeUnsupported)));
    assert!(matches!(field_command_read(KeyKind::Unknown("none".into()), "", "", "", BytesFormat::UTF8, b"k"), Err(FieldError::KeyTypeUnsupported)));
}

#[test]
fn field_command_from_replies() {
    let c = field_command_from_reply(b"k", FieldRead::HashField(b"f".to_vec()), "f", "", 0, "", Some(b"v".to_vec()), None).unwrap();
    assert_eq!(c, r#"HSET "k" "f" "v""#);
    assert!(matches!(
        field_command_from_reply(b"k", FieldRead::HashField(b"f".to_vec()), "f", "", 0, "", None, None),
        Err(FieldError::FieldNotFound(n)) if n == "f"
    ));
    let c = field_command_from_reply(b"k", FieldRead::ListIndex, "", "", 2, "", Some(b"e".to_vec()), None).unwrap();
    assert_eq!(c, r#"RPUSH "k" "e""#);
    assert!(matches!(
        field_command_from_reply(b"k", FieldRead::ListIndex, "", "", 2, "", None, None),
        Err(FieldError::FieldNotFound(n)) if n == "2"
    ));
    let c = field_command_from_reply(b"k", FieldRead::SetMember(b"m".to_vec()), "", "m", 0, "", None, None).unwrap();
    assert_eq!(c, r#"SADD "k" "m""#);
    let c = field_command_from_reply(b"k", FieldRead::ZSetScore(b"m".to_vec()), "", "m", 0, "", Some(b"1.5".to_vec()), None).unwrap();
    assert_eq!(c, r#"ZADD "k" 1.5 "m""#);
    let entry = (b"1-0".to_vec(), vec![(b"a".to_vec(), b"b".to_vec())]);
    let c = field_command_from_reply(b"k", FieldRead::StreamEntry, "", "", 0, "1-0", None, Some(entry)).unwrap();
    assert_eq!(c, r#"XADD "k" "1-0" "a" "b""#);
    assert!(matches!(
        field_command_from_reply(b"k", FieldRead::StreamEntry, "", "", 0, "9-9", None, None),
        Err(FieldError::StreamEntryNotFound(n)) if n == "9-9"
    ));
}

#[test]
fn key_command_reads_by_type() {
    assert!(matches!(key_command_read(&KeyKind::Absent, b"k"), Err(FieldError::KeyNotFound(k)) if k == b"k".to_vec()));
    assert_eq!(key_command_read(&KeyKind::ZSet, b"k").unwrap(), KeyRead::ZSet);
    assert_eq!(key_command_read(&KeyKind::Json, b"k").unwrap(), KeyRead::Json);
    assert!(matches!(key_command_read(&KeyKind::Named("vectorset".into()), b"k"), Err(FieldError::KeyTypeUnsupported)));
}
