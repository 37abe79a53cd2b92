use redis_me::cli_display::{command_uses_verbatim_tty, redis_value_to_cli_display, CliValue};
use redis_me::model::CliOutputMode;
use redis_me::model::CliOutputMode::{Csv, Json, Raw, Standard};

fn display(value: CliValue, mode: CliOutputMode) -> String {
    redis_value_to_cli_display(value, Some(mode), "", &[])
}

fn display_cmd(value: CliValue, mode: CliOutputMode, cmd: &str, args: &[&[u8]]) -> String {
    let args: Vec<Vec<u8>> = args.iter().map(|b| b.to_vec()).collect();
    redis_value_to_cli_display(value, Some(mode), cmd, &args)
}

fn bulk(b: &[u8]) -> CliValue {
    CliValue::BulkString(b.to_vec())
}

#[test]
fn test_tty_scalars() {
    assert_eq!(display(CliValue::Nil, Standard), "(nil)");
    assert_eq!(display(bulk(b"hello"), Standard), "\"hello\"");
    assert_eq!(display(CliValue::Int(42), Standard), "(integer) 42");
    assert_eq!(display(CliValue::Boolean(true), Standard), "(true)");
}

#[test]
fn test_tty_array_numbered() {
    assert_eq!(
        display(CliValue::Array(vec![CliValue::Nil, bulk(b"a")]), Standard),
        "1) (nil)\n2) \"a\""
    );
    assert_eq!(display(CliValue::Array(vec![]), Standard), "(empty array)");
}

#[test]
fn test_raw_mode() {
    assert_eq!(display(CliValue::Nil, Raw), "");
    assert_eq!(display(bulk(b"hello"), Raw), "hello");
    assert_eq!(display(CliValue::Int(7), Raw), "7");
    assert_eq!(display(CliValue::Array(vec![bulk(b"a"), bulk(b"b")]), Raw), "a\nb");
}

#[test]
fn test_csv_mode() {
    assert_eq!(display(CliValue::Nil, Csv), "NULL");
    assert_eq!(display(bulk(b"hi"), Csv), "\"hi\"");
    assert_eq!(display(CliValue::Array(vec![CliValue::Nil, CliValue::Int(1)]), Csv), "NULL,1");
}

#[test]
fn test_json_mode() {
    assert_eq!(display(CliValue::Nil, Json), "null");
    assert_eq!(display(bulk(b"hi"), Json), "\"hi\"");
    assert_eq!(display(CliValue::Int(3), Json), "3");
    assert_eq!(display(CliValue::Boolean(false), Json), "false");
    assert_eq!(display(CliValue::Array(vec![CliValue::Nil, CliValue::Int(1)]), Json), "[null,1]");
    assert_eq!(display(CliValue::MapOf(vec![(bulk(b"k"), bulk(b"v"))]), Json), "{\"k\":\"v\"}");
}

#[test]
fn test_verbatim_tty_commands() {
    let info = b"# Server\r\nredis_version:7.0.0\r\n";
    assert_eq!(
        display_cmd(bulk(info), Standard, "info", &[]),
        "# Server\r\nredis_version:7.0.0\r\n"
    );
    assert_eq!(
        display_cmd(bulk(b"line1\nline2"), Standard, "get", &[b"key"]),
        "\"line1\\nline2\""
    );
    assert_eq!(
        display_cmd(bulk(b"node1\nnode2"), Standard, "cluster", &[b"nodes"]),
        "node1\nnode2"
    );
    assert_eq!(display_cmd(bulk(info), Raw, "info", &[]), "# Server\r\nredis_version:7.0.0\r\n");
    assert_eq!(display(CliValue::Array(vec![bulk(b"a\nb")]), Standard), "1) \"a\\nb\"");
}

#[test]
fn test_command_uses_verbatim_tty() {
    assert!(command_uses_verbatim_tty("INFO", &[]));
    assert!(command_uses_verbatim_tty("cluster", &[b"nodes".to_vec()]));
    assert!(!command_uses_verbatim_tty("get", &[b"key".to_vec()]));
    assert!(!command_uses_verbatim_tty("cluster", &[b"slots".to_vec()]));
}

#[test]
fn test_tty_map_and_set() {
    assert_eq!(display(CliValue::MapOf(vec![(bulk(b"k"), bulk(b"v"))]), Standard), "1# \"k\" => \"v\"");
    assert_eq!(display(CliValue::SetOf(vec![bulk(b"m1")]), Standard), "1~ \"m1\"");
    assert_eq!(display(CliValue::SetOf(vec![]), Standard), "(empty set)");
    assert_eq!(display(CliValue::MapOf(vec![]), Standard), "(empty hash)");
}

#[test]
fn test_default_mode_is_standard() {
    assert_eq!(redis_value_to_cli_display(CliValue::Nil, None, "", &[]), "(nil)");
}

#[test]
fn tty_nested_array_is_indented() {
    let v = CliValue::Array(vec![
        CliValue::Array(vec![bulk(b"a"), bulk(b"b")]),
        CliValue::Int(3),
    ]);
    assert_eq!(display(v, Standard), "1) 1) \"a\"\n   2) \"b\"\n2) (integer) 3");
}

#[test]
fn tty_index_width_grows_with_count() {
    let items: Vec<CliValue> = (0..10).map(|i| CliValue::Int(i)).collect();
    let out = display(CliValue::Array(items), Standard);
    assert!(out.starts_with(" 1) (integer) 0\n 2) (integer) 1"));
    assert!(out.ends_with("10) (integer) 9"));
}

#[test]
fn verbatim_other_commands() {
    assert!(command_uses_verbatim_tty("lolwut", &[]));
    assert!(command_uses_verbatim_tty("MEMORY", &[b"doctor".to_vec()]));
    assert!(command_uses_verbatim_tty("client", &[b"LIST".to_vec()]));
    assert!(command_uses_verbatim_tty("latency", &[b"graph".to_vec(), b"x".to_vec()]));
    assert!(!command_uses_verbatim_tty("latency", &[b"graph".to_vec()]));
    assert!(command_uses_verbatim_tty("proxy", &[b"info".to_vec()]));
    assert!(!command_uses_verbatim_tty("cluster", &[b"nodes".to_vec(), b"x".to_vec()]));
}

#[test]
fn json_escapes_strings() {
    assert_eq!(display(bulk(b"a\"b\n"), Json), "\"a\\\"b\\n\"");
}

#[test]
fn error_and_simple_replies() {
    assert_eq!(display(CliValue::ServerError("ERR x".to_string()), Standard), "(error) ERR x");
    assert_eq!(display(CliValue::Okay, Standard), "OK");
    assert_eq!(display(CliValue::SimpleString("PONG".to_string()), Standard), "PONG");
}

#[test]
fn json_mode_escapes_like_serde_json() {
    assert_eq!(
        display(bulk(b"a\"b\\c\n\t\x01\x7f\xc3\xa9"), Json),
        "\"a\\\"b\\\\c\\n\\t\\u0001\x7f\u{e9}\""
    );
}
