use redis_me::bytes_format::{format_bytes, parse_bytes, BytesError};
use redis_me::model::BytesFormat;
use redis_me::text::{parse_i64, parse_u16};
use redis_me::transfer::{export_key_line, import_key_line, import_restore_ttl, ImportError};

#[test]
fn bytes_formats() {
    assert_eq!(parse_bytes("aGk=", BytesFormat::Base64).unwrap(), b"hi".to_vec());
    assert_eq!(parse_bytes("中", BytesFormat::UTF8).unwrap(), "中".as_bytes().to_vec());
    assert_eq!(parse_bytes("%%%", BytesFormat::Base64), Err(BytesError::InvalidBase64));
    assert_eq!(format_bytes(b"hi", BytesFormat::Base64), "aGk=");
    assert_eq!(format_bytes(b"h\xffi", BytesFormat::UTF8), "h\u{fffd}i");
    let raw = vec![0u8, 1, 2, 250, 255];
    let text = format_bytes(&raw, BytesFormat::Base64);
    assert_eq!(parse_bytes(&text, BytesFormat::Base64).unwrap(), raw);
}

#[test]
fn restore_ttl_choices() {
    assert_eq!(import_restore_ttl("7", 100, "custom"), 100_000);
    assert_eq!(import_restore_ttl("7", 100, "parse"), 7_000);
    assert_eq!(import_restore_ttl("x", 100, "parse"), 0);
    assert_eq!(import_restore_ttl("-5", 100, "parse"), 0);
    assert_eq!(import_restore_ttl("7", 100, "forever"), 0);
    assert_eq!(import_restore_ttl("7", -3, "custom"), 0);
    assert_eq!(import_restore_ttl("9223372036854775807", 0, "parse"), 9223372036854775807i64.wrapping_mul(1000));
}

#[test]
fn export_line_imports_back() {
    let line = export_key_line(b"k\x00", b"\x01dump", 30);
    assert_eq!(line, "awA=,AWR1bXA=,30");
    let a = import_key_line(&line, 0, "parse", "replace").unwrap();
    assert_eq!(a.key, b"k\x00".to_vec());
    assert_eq!(a.value, b"\x01dump".to_vec());
    assert_eq!(a.ttl, 30_000);
    assert!(a.replace);
    let b = import_key_line(&export_key_line(b"a", b"b", -1), 5, "parse", "ignore").unwrap();
    assert_eq!(b.ttl, 0);
    assert!(!b.replace);
}

#[test]
fn import_line_errors_and_two_fields() {
    assert!(matches!(import_key_line("YQ==", 0, "parse", ""), Err(ImportError::InvalidLine)));
    assert!(matches!(import_key_line("a,b,c,d", 0, "parse", ""), Err(ImportError::InvalidLine)));
    assert!(matches!(import_key_line("!!,YQ==", 0, "parse", ""), Err(ImportError::InvalidBase64)));
    assert!(matches!(import_key_line("YQ==,!!", 0, "parse", ""), Err(ImportError::InvalidBase64)));
    let a = import_key_line("YQ==,Yg==", 9, "custom", "").unwrap();
    assert_eq!(a.key, b"a".to_vec());
    assert_eq!(a.ttl, 9_000);
    let b = import_key_line("YQ==,Yg==", 9, "parse", "").unwrap();
    assert_eq!(b.ttl, 0);
}

#[test]
fn decimal_parsing() {
    assert_eq!(parse_i64("42"), Some(42));
    assert_eq!(parse_i64("+42"), Some(42));
    assert_eq!(parse_i64("-0042"), Some(-42));
    assert_eq!(parse_i64("-9223372036854775808"), Some(i64::MIN));
    assert_eq!(parse_i64("9223372036854775808"), None);
    assert_eq!(parse_i64(""), None);
    assert_eq!(parse_i64("-"), None);
    assert_eq!(parse_i64(" 1"), None);
    assert_eq!(parse_i64("1a"), None);
    assert_eq!(parse_u16("6379"), Some(6379));
    assert_eq!(parse_u16("+1"), Some(1));
    assert_eq!(parse_u16("65536"), None);
    assert_eq!(parse_u16("-1"), None);
}
