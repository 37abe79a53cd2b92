use redis_me::cli_args::split_redis_args;
use redis_me::key_commands::{
    export_command_lines, field_as_command, key_as_command_lines, key_as_command_text,
    FieldContent, KeyContent,
};

#[test]
fn string_key_as_set() {
    let lines = key_as_command_lines(b"k", &KeyContent::String(b"v\n".to_vec()));
    assert_eq!(lines, vec![r#"SET "k" "v\n""#]);
}

#[test]
fn empty_collections_give_no_line() {
    assert!(key_as_command_lines(b"k", &KeyContent::Hash(vec![])).is_empty());
    assert!(key_as_command_lines(b"k", &KeyContent::List(vec![])).is_empty());
    assert!(key_as_command_lines(b"k", &KeyContent::SetOf(vec![])).is_empty());
    assert!(key_as_command_lines(b"k", &KeyContent::ZSet(vec![])).is_empty());
    assert!(key_as_command_lines(b"k", &KeyContent::Json(vec![])).is_empty());
    assert!(key_as_command_lines(b"k", &KeyContent::Stream(vec![])).is_empty());
}

#[test]
fn collections_as_one_command() {
    let h = KeyContent::Hash(vec![(b"f".to_vec(), b"v".to_vec())]);
    assert_eq!(key_as_command_lines(b"h", &h), vec![r#"HMSET "h" "f" "v""#]);
    let l = KeyContent::List(vec![b"a".to_vec(), b"b".to_vec()]);
    assert_eq!(key_as_command_lines(b"l", &l), vec![r#"RPUSH "l" "a" "b""#]);
    let s = KeyContent::SetOf(vec![b"m".to_vec()]);
    assert_eq!(key_as_command_lines(b"s", &s), vec![r#"SADD "s" "m""#]);
    let z = KeyContent::ZSet(vec![(b"a".to_vec(), "1".to_string()), (b"b".to_vec(), "2.5".to_string())]);
    assert_eq!(key_as_command_lines(b"z", &z), vec![r#"ZADD "z" 1 "a" 2.5 "b""#]);
    let j = KeyContent::Json(br#"{"a":1}"#.to_vec());
    assert_eq!(key_as_command_lines(b"j", &j), vec![r#"JSON.SET "j" $ "{\"a\":1}""#]);
}

#[test]
fn stream_gives_one_xadd_per_entry() {
    let st = KeyContent::Stream(vec![
        (b"1-0".to_vec(), vec![(b"f".to_vec(), b"v".to_vec())]),
        (b"2-0".to_vec(), vec![]),
    ]);
    let text = key_as_command_text(b"s", &st);
    assert_eq!(text, "XADD \"s\" \"1-0\" \"f\" \"v\"\nXADD \"s\" \"2-0\"");
}

#[test]
fn one_entry_as_command() {
    assert_eq!(
        field_as_command(b"h", FieldContent::HashField(b"f".to_vec(), b"v".to_vec())),
        r#"HSET "h" "f" "v""#
    );
    assert_eq!(field_as_command(b"l", FieldContent::ListItem(b"x".to_vec())), r#"RPUSH "l" "x""#);
    assert_eq!(field_as_command(b"s", FieldContent::SetMember(b"m".to_vec())), r#"SADD "s" "m""#);
    assert_eq!(
        field_as_command(b"z", FieldContent::ZSetMember(b"m".to_vec(), "3".into())),
        r#"ZADD "z" 3 "m""#
    );
    assert_eq!(
        field_as_command(b"x", FieldContent::StreamEntry(b"9-1".to_vec(), vec![(b"a".to_vec(), b"b".to_vec())])),
        r#"XADD "x" "9-1" "a" "b""#
    );
}

#[test]
fn exported_commands_split_back_into_arguments() {
    let key = b"k\x00 \"q\"".to_vec();
    let stream = KeyContent::Stream(vec![
        (b"1-0".to_vec(), vec![(b"f\n".to_vec(), vec![0xff, 0x00])]),
        (b"2-0".to_vec(), vec![]),
    ]);
    let lines = export_command_lines(&key, &stream, Some(30));
    assert_eq!(lines.len(), 3);
    assert_eq!(
        split_redis_args(&lines[0]).unwrap(),
        vec![b"XADD".to_vec(), key.clone(), b"1-0".to_vec(), b"f\n".to_vec(), vec![0xff, 0x00]]
    );
    assert_eq!(
        split_redis_args(&lines[1]).unwrap(),
        vec![b"XADD".to_vec(), key.clone(), b"2-0".to_vec()]
    );
    assert_eq!(
        split_redis_args(&lines[2]).unwrap(),
        vec![b"EXPIRE".to_vec(), key.clone(), b"30".to_vec()]
    );

    let zset = KeyContent::ZSet(vec![(b"m 1".to_vec(), "1.5".to_string())]);
    let lines = export_command_lines(&key, &zset, Some(-1));
    assert_eq!(lines.len(), 1);
    assert_eq!(
        split_redis_args(&lines[0]).unwrap(),
        vec![b"ZADD".to_vec(), key.clone(), b"1.5".to_vec(), b"m 1".to_vec()]
    );
    assert!(export_command_lines(&key, &KeyContent::Json(vec![]), Some(5)).is_empty());
}
