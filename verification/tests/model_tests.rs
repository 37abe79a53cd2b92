use redis_me::model::{
    scan_0_batch_count, AppSettings, BytesFormat, CliOutputMode, ConnConfig, ConnMetaValue,
    RedisKey, ScanParam, SentinelOption, SshOption, SslOption,
};

fn conf(meta: Vec<(String, ConnMetaValue)>) -> ConnConfig {
    ConnConfig {
        id: "1".into(),
        name: "local".into(),
        host: "127.0.0.1".into(),
        port: 6379,
        username: String::new(),
        password: String::new(),
        db: 0,
        cluster: false,
        ssl: false,
        ssl_option: SslOption { key: String::new(), cert: String::new(), ca: String::new() },
        sentinel: false,
        sentinel_option: SentinelOption {
            master_name: String::new(),
            master_username: String::new(),
            master_password: String::new(),
        },
        ssh: false,
        ssh_option: SshOption {
            host: String::new(),
            port: 22,
            login_type: "pwd".into(),
            username: String::new(),
            password: String::new(),
            pkfile: String::new(),
            passphrase: String::new(),
        },
        meta,
    }
}

#[test]
fn batch_count_depends_on_non_star_characters() {
    assert_eq!(scan_0_batch_count(""), 1000);
    assert_eq!(scan_0_batch_count("*"), 1000);
    assert_eq!(scan_0_batch_count("*a*"), 1000);
    assert_eq!(scan_0_batch_count("ab"), 10000);
    assert_eq!(scan_0_batch_count("中*文"), 10000);
}

#[test]
fn scan_param_all_starts_from_scratch() {
    let p = ScanParam::all("user:*".into());
    assert_eq!(p.pattern, "user:*");
    assert!(p.scan_type.is_none());
    assert!(p.cursor.is_none());
    assert!(!p.exact);
}

#[test]
fn settings_clamp_timeout() {
    assert_eq!(AppSettings { command_timeout_secs: 1 }.normalized().command_timeout_secs, 5);
    assert_eq!(AppSettings { command_timeout_secs: 30 }.normalized().command_timeout_secs, 30);
    assert_eq!(AppSettings { command_timeout_secs: 301 }.normalized().command_timeout_secs, 300);
    let s = AppSettings { command_timeout_secs: 42 };
    assert_eq!(s.command_timeout().as_secs(), 42);
}

#[test]
fn key_bytes_and_normal_form() {
    let typed = RedisKey { key: "abc".into(), bytes: vec![] };
    assert_eq!(typed.to_bytes(), b"abc");
    let n = typed.to_normal();
    assert_eq!(n.key, "abc");
    assert_eq!(n.bytes, b"abc".to_vec());

    let scanned = RedisKey { key: String::new(), bytes: vec![0x61, 0xff] };
    assert_eq!(scanned.to_bytes(), &[0x61u8, 0xff][..]);
    let n = scanned.to_normal();
    assert_eq!(n.key, "a\u{fffd}");
    assert_eq!(n.bytes, vec![0x61, 0xff]);
    assert_eq!(scanned.to_text(), "a\u{fffd}");

    let both = RedisKey { key: "shown".into(), bytes: b"raw".to_vec() };
    assert_eq!(both.to_bytes(), b"raw");
    let n = both.to_normal();
    assert_eq!(n.key, "shown");
    assert_eq!(n.bytes, b"raw".to_vec());
}

#[test]
fn command_map_reads_string_entries() {
    let obj = ConnMetaValue::Object(vec![
        (" GET ".into(), ConnMetaValue::String(" get2 ".into())),
        ("set".into(), ConnMetaValue::Number("1".into())),
        ("".into(), ConnMetaValue::String("x".into())),
        ("del".into(), ConnMetaValue::String("   ".into())),
        ("get".into(), ConnMetaValue::String("get3".into())),
        ("Config".into(), ConnMetaValue::String("cfg".into())),
    ]);
    let c = conf(vec![("group".into(), ConnMetaValue::Null), ("commandMap".into(), obj)]);
    let mut m = c.command_map();
    m.sort();
    assert_eq!(
        m,
        vec![("config".to_string(), "cfg".to_string()), ("get".to_string(), "get3".to_string())]
    );
    let none = conf(vec![("commandMap".into(), ConnMetaValue::Bool(true))]);
    assert!(none.command_map().is_empty());
    assert!(conf(vec![]).command_map().is_empty());
}

#[test]
fn defaults() {
    assert_eq!(CliOutputMode::default(), CliOutputMode::Standard);
    assert_eq!(BytesFormat::default(), BytesFormat::UTF8);
}
