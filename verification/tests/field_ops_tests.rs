use redis_me::field_ops::{
    field_get_op, FieldGetOp,
    field_add_expires, field_add_key, field_add_mode, field_add_op, field_del_op, field_set_op,
    other_type_error, AddMode, FieldAddOp, FieldDelOp, FieldEdit, FieldError, FieldInput,
    FieldSetOp, KeyKind, FieldExpiry, field_add_key_check, key_kind_of_type_name,
};
use redis_me::operations::FieldTtlReply;
use redis_me::field_ops::kept_field_expiry;
use redis_me::model::{BytesFormat, RedisKey};

fn row(k: &str, v: &str, ttl: i64) -> FieldInput {
    FieldInput { field_key: k.into(), field_value: v.into(), field_ttl: ttl, field_score: "0".into() }
}

#[test]
fn add_modes_and_expiry() {
    assert_eq!(field_add_mode("key").ok(), Some(AddMode::NewKey));
    assert_eq!(field_add_mode("field").ok(), Some(AddMode::NewFields));
    assert!(matches!(field_add_mode("other"), Err(FieldError::OperationNotSupported(m)) if m == "other"));
    assert!(field_add_expires(AddMode::NewKey, 10));
    assert!(!field_add_expires(AddMode::NewKey, 0));
    assert!(!field_add_expires(AddMode::NewFields, 10));
}

#[test]
fn add_key_from_text_or_bytes() {
    let k = field_add_key(RedisKey { key: "aGk=".into(), bytes: vec![] }, BytesFormat::Base64).unwrap();
    assert_eq!(k.bytes, b"hi".to_vec());
    assert_eq!(k.key, "hi");
    let k = field_add_key(RedisKey { key: "x".into(), bytes: vec![1] }, BytesFormat::Base64).unwrap();
    assert_eq!((k.key.as_str(), k.bytes), ("x", vec![1]));
    assert!(matches!(
        field_add_key(RedisKey { key: "***".into(), bytes: vec![] }, BytesFormat::Base64),
        Err(FieldError::InvalidInput)
    ));
}

#[test]
fn add_operations_by_type() {
    let rows = vec![row("f1", "v1", 5), row("f2", "v2", 0)];
    match field_add_op(KeyKind::Hash, "", &rows, BytesFormat::UTF8, "", b"k").unwrap() {
        FieldAddOp::HashSet(p, t) => {
            assert_eq!(p, vec![(b"f1".to_vec(), b"v1".to_vec()), (b"f2".to_vec(), b"v2".to_vec())]);
            assert_eq!(t, vec![5, 0]);
        },
        _ => panic!("hash"),
    }
    match field_add_op(KeyKind::List, "", &rows, BytesFormat::UTF8, "lpush", b"k").unwrap() {
        FieldAddOp::Push(true, e) => assert_eq!(e, vec![b"v2".to_vec(), b"v1".to_vec()]),
        _ => panic!("lpush"),
    }
    match field_add_op(KeyKind::List, "", &rows, BytesFormat::UTF8, "rpush", b"k").unwrap() {
        FieldAddOp::Push(false, e) => assert_eq!(e, vec![b"v1".to_vec(), b"v2".to_vec()]),
        _ => panic!("rpush"),
    }
    match field_add_op(KeyKind::String, "aGk=", &rows, BytesFormat::Base64, "", b"k").unwrap() {
        FieldAddOp::SetValue(v) => assert_eq!(v, b"hi".to_vec()),
        _ => panic!("string"),
    }
    match field_add_op(KeyKind::Json, "{\"a\":1}", &rows, BytesFormat::UTF8, "", b"k").unwrap() {
        FieldAddOp::JsonSet(d) => assert_eq!(d, "{\"a\":1}"),
        _ => panic!("json"),
    }
    let scored = vec![
        FieldInput { field_key: String::new(), field_value: "m1".into(), field_ttl: 0, field_score: "1.5".into() },
        FieldInput { field_key: String::new(), field_value: "m2".into(), field_ttl: 0, field_score: "-2".into() },
    ];
    match field_add_op(KeyKind::ZSet, "", &scored, BytesFormat::UTF8, "", b"k").unwrap() {
        FieldAddOp::ZSetAdd(m, sc) => {
            assert_eq!(m, vec![b"m1".to_vec(), b"m2".to_vec()]);
            assert_eq!(sc, vec!["1.5".to_string(), "-2".to_string()]);
        },
        _ => panic!("zadd"),
    }
    assert!(matches!(field_add_op(KeyKind::Json, "{oops", &rows, BytesFormat::UTF8, "", b"k"), Err(FieldError::InvalidJson)));
    let bad = vec![row("ok", "!!", 0)];
    assert!(matches!(field_add_op(KeyKind::SetOf, "", &bad, BytesFormat::Base64, "", b"k"), Err(FieldError::InvalidInput)));
    assert!(matches!(field_add_op(KeyKind::Absent, "", &rows, BytesFormat::UTF8, "", b"k"), Err(FieldError::KeyTypeUnsupported)));
}

#[test]
fn type_errors() {
    assert!(matches!(other_type_error(KeyKind::Unknown("none".into()), b"k\xff"), FieldError::KeyNotFound(k) if k == b"k\xff".to_vec()));
    assert!(matches!(other_type_error(KeyKind::Unknown("mytype".into()), b"k"), FieldError::KeyTypeUnknown(n) if n == "mytype"));
    assert!(matches!(other_type_error(KeyKind::Named("vectorset".into()), b"k"), FieldError::KeyTypeUnsupported));
}

#[test]
fn set_and_delete_operations() {
    let e = FieldEdit {
        field_key: "f".into(),
        field_value: "v".into(),
        src_field_value: "old".into(),
        field_ttl: 9,
        include_field_ttl: true,
    };
    match field_set_op(KeyKind::Hash, &e, BytesFormat::UTF8, true, b"k").unwrap() {
        FieldSetOp::HashSet(k, v, exp) => {
            assert_eq!((k, v, exp), (b"f".to_vec(), b"v".to_vec(), FieldExpiry::SetTtl(9)));
        },
        _ => panic!("hset"),
    }
    match field_set_op(KeyKind::ZSet, &e, BytesFormat::UTF8, false, b"k").unwrap() {
        FieldSetOp::ZSetReplace(a, b) => assert_eq!((a, b), (b"old".to_vec(), b"v".to_vec())),
        _ => panic!("zset"),
    }
    assert!(matches!(field_set_op(KeyKind::Stream, &e, BytesFormat::UTF8, false, b"k"), Err(FieldError::KeyTypeUnsupported)));
    assert!(matches!(field_del_op(KeyKind::List, "", "", BytesFormat::UTF8, b"k"), Ok(FieldDelOp::ListRemoveAt)));
    assert!(matches!(field_del_op(KeyKind::Stream, "", "", BytesFormat::UTF8, b"k"), Ok(FieldDelOp::StreamDel)));
    match field_del_op(KeyKind::Hash, "aGk=", "", BytesFormat::Base64, b"k").unwrap() {
        FieldDelOp::HashDel(k) => assert_eq!(k, b"hi".to_vec()),
        _ => panic!("hdel"),
    }
    assert!(matches!(field_del_op(KeyKind::Json, "", "", BytesFormat::UTF8, b"k"), Err(FieldError::KeyTypeUnsupported)));
}

#[test]
fn field_get_op_by_type() {
    match field_get_op(KeyKind::Hash, "f1", "", BytesFormat::UTF8, true, false, b"k").unwrap() {
        FieldGetOp::HashGet(k, ttl) => {
            assert_eq!(k, b"f1".to_vec());
            assert!(!ttl);
        }
        other => panic!("unexpected {other:?}"),
    }
    match field_get_op(KeyKind::Hash, "f1", "", BytesFormat::UTF8, true, true, b"k").unwrap() {
        FieldGetOp::HashGet(_, ttl) => assert!(ttl),
        other => panic!("unexpected {other:?}"),
    }
    assert!(matches!(
        field_get_op(KeyKind::List, "", "", BytesFormat::UTF8, false, false, b"k").unwrap(),
        FieldGetOp::ListIndex
    ));
    match field_get_op(KeyKind::ZSet, "", "bWVt", BytesFormat::Base64, false, false, b"k").unwrap() {
        FieldGetOp::ZSetScore(m) => assert_eq!(m, b"mem".to_vec()),
        other => panic!("unexpected {other:?}"),
    }
    assert!(matches!(
        field_get_op(KeyKind::ZSet, "", "***", BytesFormat::Base64, false, false, b"k"),
        Err(FieldError::InvalidInput)
    ));
    assert!(matches!(
        field_get_op(KeyKind::SetOf, "", "m", BytesFormat::UTF8, false, false, b"k"),
        Err(FieldError::KeyTypeUnsupported)
    ));
    assert!(matches!(
        field_get_op(KeyKind::Unknown("none".into()), "", "", BytesFormat::UTF8, false, false, b"k"),
        Err(FieldError::KeyNotFound(_))
    ));
}

#[test]
fn hash_edit_keeps_expiry_when_ttls_not_loaded() {
    let mut e = FieldEdit {
        field_key: "f".into(),
        field_value: "v".into(),
        src_field_value: String::new(),
        field_ttl: -1,
        include_field_ttl: false,
    };
    match field_set_op(KeyKind::Hash, &e, BytesFormat::UTF8, true, b"k").unwrap() {
        FieldSetOp::HashSet(_, _, exp) => assert_eq!(exp, FieldExpiry::Keep),
        _ => panic!("hset"),
    }
    match field_set_op(KeyKind::Hash, &e, BytesFormat::UTF8, false, b"k").unwrap() {
        FieldSetOp::HashSet(_, _, exp) => assert_eq!(exp, FieldExpiry::Clear),
        _ => panic!("hset"),
    }
    e.include_field_ttl = true;
    match field_set_op(KeyKind::Hash, &e, BytesFormat::UTF8, true, b"k").unwrap() {
        FieldSetOp::HashSet(_, _, exp) => assert_eq!(exp, FieldExpiry::Clear),
        _ => panic!("hset"),
    }
    assert_eq!(kept_field_expiry(Some(FieldTtlReply::Ttl(1767225600000))), Some(1767225600000));
    assert_eq!(kept_field_expiry(Some(FieldTtlReply::NoExpiry)), None);
    assert_eq!(kept_field_expiry(Some(FieldTtlReply::NotExists)), None);
    assert_eq!(kept_field_expiry(None), None);
}

#[test]
fn new_key_must_not_exist() {
    assert!(matches!(field_add_key_check(AddMode::NewKey, true, b"k"), Err(FieldError::KeyAlreadyExists(k)) if k == b"k".to_vec()));
    assert!(field_add_key_check(AddMode::NewKey, false, b"k").is_ok());
    assert!(field_add_key_check(AddMode::NewFields, true, b"k").is_ok());
}

#[test]
fn type_names_to_kinds() {
    assert!(matches!(key_kind_of_type_name("none"), KeyKind::Absent));
    assert!(matches!(key_kind_of_type_name("string"), KeyKind::String));
    assert!(matches!(key_kind_of_type_name("zset"), KeyKind::ZSet));
    assert!(matches!(key_kind_of_type_name("set"), KeyKind::SetOf));
    assert!(matches!(key_kind_of_type_name("ReJSON-RL"), KeyKind::Json));
    assert!(matches!(key_kind_of_type_name("vectorset"), KeyKind::Named(n) if n == "vectorset"));
    assert!(matches!(key_kind_of_type_name("TSDB-TYPE"), KeyKind::Named(n) if n == "TSDB-TYPE"));
    assert!(matches!(key_kind_of_type_name("mytype"), KeyKind::Unknown(n) if n == "mytype"));
}
