use redis_me::cli_args::split_redis_args;
use redis_me::cli_format::{
    format_expire_command, format_hmset_command, format_hset_command, format_json_set_command,
    format_quoted, format_rpush_command, format_sadd_command, format_set_command,
    format_xadd_command, format_zadd_command,
};

#[test]
fn test_format_quoted_newline_and_binary() {
    assert_eq!(format_quoted(b"Line01\nLine02"), "\"Line01\\nLine02\"");
    assert_eq!(format_quoted(b"\x00\x01\xff"), "\"\\x00\\x01\\xff\"");
}

#[test]
fn test_format_set_multiline() {
    let cmd = format_set_command(b"MultiLine", b"Line01\nLine02");
    assert_eq!(cmd, r#"SET "MultiLine" "Line01\nLine02""#);
    let args = split_redis_args(&cmd).unwrap();
    assert_eq!(args[1], b"MultiLine");
    assert_eq!(args[2], b"Line01\nLine02");
}

#[test]
fn test_format_set_utf8_literal() {
    let value = "RDM!\n中文 hepengju 表情😄 \n\nOfficial".as_bytes().to_vec();
    let cmd = format_set_command(b"RedisME", &value);
    assert!(cmd.contains("中文"));
    assert!(cmd.contains("😄"));
    assert!(!cmd.contains("\\xe4"));
    let args = split_redis_args(&cmd).unwrap();
    assert_eq!(args[2], value);
}

#[test]
fn test_format_hset_single_field() {
    let cmd = format_hset_command(b"user:1", b"name", b"\xe5\xbc\xa0\xe4\xb8\x89");
    assert_eq!(cmd, r#"HSET "user:1" "name" "张三""#);
    let args = split_redis_args(&cmd).unwrap();
    assert_eq!(args[1], b"user:1");
    assert_eq!(args[2], b"name");
    assert_eq!(args[3], b"\xe5\xbc\xa0\xe4\xb8\x89");
}

#[test]
fn test_format_hmset_all_quoted() {
    let pairs = vec![
        (b"k3".to_vec(), b"v111".to_vec()),
        (b"k1".to_vec(), b"v111".to_vec()),
        (b"k2".to_vec(), b"v111".to_vec()),
    ];
    let cmd = format_hmset_command(b"hepengju:hash", &pairs).unwrap();
    assert_eq!(cmd, r#"HMSET "hepengju:hash" "k3" "v111" "k1" "v111" "k2" "v111""#);
    let args = split_redis_args(&cmd).unwrap();
    assert_eq!(args[1], b"hepengju:hash");
    assert_eq!(args[2], b"k3");
}

#[test]
fn test_format_hmset_utf8_field() {
    let pairs = vec![
        (b"name".to_vec(), b"\xe5\xbc\xa0\xe4\xb8\x89".to_vec()),
        (b"age".to_vec(), b"28".to_vec()),
    ];
    let cmd = format_hmset_command(b"user:1", &pairs).unwrap();
    assert!(cmd.contains("\"user:1\""));
    assert!(cmd.contains("\"张三\""));
    let args = split_redis_args(&cmd).unwrap();
    assert_eq!(args[2], b"name");
    assert_eq!(args[3], b"\xe5\xbc\xa0\xe4\xb8\x89");
    assert_eq!(args[4], b"age");
    assert_eq!(args[5], b"28");
}

#[test]
fn test_format_rpush_newline() {
    let cmd = format_rpush_command(b"mylist", &[b"a".to_vec(), b"b\nc".to_vec()]).unwrap();
    assert_eq!(cmd, r#"RPUSH "mylist" "a" "b\nc""#);
    let args = split_redis_args(&cmd).unwrap();
    assert_eq!(args[3], b"b\nc");
}

#[test]
fn test_format_binary_roundtrip() {
    let cmd = format_set_command(b"binkey", b"\x00\x01\xffhello");
    let args = split_redis_args(&cmd).unwrap();
    assert_eq!(args[2], b"\x00\x01\xffhello");
}

#[test]
fn test_empty_collection_returns_none() {
    assert!(format_hmset_command(b"k", &[]).is_none());
    assert!(format_rpush_command(b"k", &[]).is_none());
}

#[test]
fn test_format_sadd_zadd_json() {
    let sadd = format_sadd_command(b"myset", &[b"m1".to_vec(), b"m2".to_vec()]).unwrap();
    assert_eq!(sadd, r#"SADD "myset" "m1" "m2""#);
    let score = format!("{}", 1.5f64);
    let zadd = format_zadd_command(b"rank", &[(b"a".to_vec(), score)]).unwrap();
    assert_eq!(zadd, r#"ZADD "rank" 1.5 "a""#);
    let json = format_json_set_command(b"doc", br#"{"name":"test"}"#);
    assert_eq!(json, r#"JSON.SET "doc" $ "{\"name\":\"test\"}""#);
    let args = split_redis_args(&json).unwrap();
    assert_eq!(args[3], br#"{"name":"test"}"#);
}

#[test]
fn test_format_xadd_field_order() {
    let fields = vec![(b"f2".to_vec(), b"v2".to_vec()), (b"f1".to_vec(), b"v1".to_vec())];
    let cmd = format_xadd_command(b"stream", b"1-0", &fields);
    assert_eq!(cmd, r#"XADD "stream" "1-0" "f2" "v2" "f1" "v1""#);
}

#[test]
fn expire_command_has_plain_ttl() {
    assert_eq!(format_expire_command(b"k", 60), r#"EXPIRE "k" 60"#);
    assert_eq!(format_expire_command(b"k", -1), r#"EXPIRE "k" -1"#);
}

#[test]
fn quoted_escapes_quotes_backslashes_and_controls() {
    assert_eq!(format_quoted(b"a\"b\\c"), r#""a\"b\\c""#);
    assert_eq!(format_quoted(b"\r\t\x07\x08"), r#""\r\t\x07\x08""#);
    assert_eq!(format_quoted(b""), "\"\"");
}

#[test]
fn quoted_bytes_split_back() {
    let raw = b"x \"y\"\n\x00\xff\\z".to_vec();
    let q = format_quoted(&raw);
    let args = split_redis_args(&q).unwrap();
    assert_eq!(args, vec![raw]);
}

#[test]
fn split_args_unbalanced_quotes_is_error() {
    assert!(split_redis_args("set \"a b").is_err());
    assert!(split_redis_args("set 'a b").is_err());
    assert!(split_redis_args("set \"a\"b").is_err());
}

#[test]
fn split_args_plain_words_and_single_quotes() {
    let args = split_redis_args("  get   key  ").unwrap();
    assert_eq!(args, vec![b"get".to_vec(), b"key".to_vec()]);
    let args = split_redis_args("set 'it\\'s' \"\\x41\\n\"").unwrap();
    assert_eq!(args, vec![b"set".to_vec(), b"it's".to_vec(), b"A\n".to_vec()]);
    assert_eq!(split_redis_args("").unwrap(), Vec::<Vec<u8>>::new());
}
