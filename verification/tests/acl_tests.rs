use redis_me::acl::{
    acl_build_rules, acl_channel_rule_from_text, acl_key_rule_from_text, acl_rule_from_text,
    acl_rule_to_setuser_arg, acl_rule_to_string, acl_rules_to_selector_text,
    acl_selector_from_text, acl_selector_token_to_rule, build_acl_setuser_cmd, AclError, AclRule,
    AclSetuserParam,
};
use redis_me::acl_list::{
    acl_list_users_from_lines, acl_user_detail_from_info, get_getuser_field, getuser_key_name,
    is_acl_list_channel_rule, is_acl_list_command_rule, is_acl_list_key_rule,
    list_channel_to_pattern, list_key_to_pattern, parse_acl_list_line, selector_item_to_text,
    selector_texts, selector_token_to_text, str_lt, tokenize_acl_list_rule_tokens, AclInfoRules,
};
use redis_me::cli_display::CliValue;

fn param(selectors: Vec<&str>) -> AclSetuserParam {
    AclSetuserParam {
        username: "u1".into(),
        enabled: true,
        password_hashes: vec![],
        command_rules: vec!["+@read".into()],
        key_patterns: vec!["*".into()],
        channel_patterns: vec!["*".into()],
        selectors: selectors.into_iter().map(|s| s.to_string()).collect(),
    }
}

#[test]
fn selector_text_roundtrip() {
    let rules = vec![
        AclRule::RemoveCategory("all".into()),
        AclRule::AddCommand("set".into()),
        AclRule::Pattern("key2".into()),
    ];
    let text = acl_rules_to_selector_text(&rules);
    assert_eq!(text, "-@all +set ~key2");

    let AclRule::Selector(parsed) = acl_selector_from_text(&text).expect("parse selector") else {
        panic!("expected Rule::Selector");
    };
    assert_eq!(parsed.len(), 3);
    assert!(matches!(parsed[0], AclRule::RemoveCategory(_)));
    assert!(matches!(parsed[1], AclRule::AddCommand(_)));
    assert!(matches!(parsed[2], AclRule::Pattern(_)));
}

#[test]
fn acl_build_rules_keeps_selectors() {
    let p = param(vec!["-@all +set ~key2"]);
    let rules = acl_build_rules(&p).expect("build acl rules");
    assert!(
        rules.iter().any(|r| matches!(r, AclRule::Selector(_))),
        "expected Rule::Selector in built rules"
    );
}

#[test]
fn parse_acl_list_default_user() {
    let detail = parse_acl_list_line("user default on nopass ~* +@all").expect("parse");
    assert_eq!(detail.username, "default");
    assert!(detail.enabled);
    assert!(detail.nopass);
    assert_eq!(detail.key_patterns, vec!["*"]);
    assert!(detail.command_rules.contains(&"+@all".to_string()));
}

#[test]
fn parse_acl_list_with_hash_and_selector() {
    let line = "user bob on #abc123 ~redis:* -@all +set (-@all +get ~key1)";
    let detail = parse_acl_list_line(line).expect("parse");
    assert_eq!(detail.username, "bob");
    assert_eq!(detail.password_hashes, vec!["abc123".to_string()]);
    assert_eq!(detail.key_patterns, vec!["redis:*"]);
    assert_eq!(detail.command_rules, vec!["-@all".to_string(), "+set".to_string()]);
    assert_eq!(detail.selectors, vec!["-@all +get ~key1".to_string()]);
}

#[test]
fn parse_acl_list_errors() {
    assert!(matches!(parse_acl_list_line("client default on"), Err(AclError::InvalidListLine)));
    assert!(matches!(parse_acl_list_line("user "), Err(AclError::InvalidListLine)));
    assert!(matches!(parse_acl_list_line("user \u{0b}"), Err(AclError::InvalidListLine)));
}

#[test]
fn parse_acl_list_flags_channels_and_off() {
    let d = parse_acl_list_line("  user alice on off resetchannels &news:* sanitize-payload ()  ")
        .expect("parse");
    assert_eq!(d.username, "alice");
    assert!(!d.enabled);
    assert!(!d.nopass);
    assert_eq!(d.flags, vec!["on", "off", "sanitize-payload"]);
    assert_eq!(d.channel_patterns, vec!["resetchannels", "news:*"]);
    assert!(d.selectors.is_empty());
}

#[test]
fn list_users_filtered_and_sorted() {
    let lines = vec![
        "user zed on nopass".to_string(),
        "".to_string(),
        "# comment".to_string(),
        "  user amy off  ".to_string(),
        "user Bob on".to_string(),
    ];
    let users = acl_list_users_from_lines(&lines).expect("list");
    let names: Vec<&str> = users.iter().map(|u| u.username.as_str()).collect();
    assert_eq!(names, vec!["Bob", "amy", "zed"]);
}

#[test]
fn tokenizer_keeps_selectors_whole() {
    let t = tokenize_acl_list_rule_tokens("bob on (-@all +get ~k (x)) ~a \t+set");
    assert_eq!(t, vec!["bob", "on", "(-@all +get ~k (x))", "~a", "+set"]);
    let t = tokenize_acl_list_rule_tokens("a (open");
    assert_eq!(t, vec!["a", "(open"]);
    assert!(tokenize_acl_list_rule_tokens("   ").is_empty());
}

#[test]
fn list_token_helpers() {
    assert_eq!(list_key_to_pattern(" ~AllKeys "), "allkeys");
    assert_eq!(list_key_to_pattern("~~user:*"), "user:*");
    assert_eq!(list_channel_to_pattern("&*"), "*");
    assert_eq!(list_channel_to_pattern("AllChannels"), "allchannels");
    assert_eq!(selector_token_to_text(" ( +get ~k ) "), "+get ~k");
    assert_eq!(selector_token_to_text("("), "(");
    assert!(is_acl_list_command_rule("+@all"));
    assert!(is_acl_list_command_rule("-get"));
    assert!(!is_acl_list_command_rule("+"));
    assert!(is_acl_list_key_rule("~x"));
    assert!(is_acl_list_key_rule("ResetKeys"));
    assert!(!is_acl_list_key_rule("&x"));
    assert!(is_acl_list_channel_rule("&x"));
    assert!(is_acl_list_channel_rule("resetchannels"));
    assert!(!is_acl_list_channel_rule("~x"));
}

#[test]
fn rules_from_text() {
    assert!(matches!(acl_rule_from_text(" +@read "), AclRule::AddCategory(c) if c == "read"));
    assert!(matches!(acl_rule_from_text("-flushall"), AclRule::RemoveCommand(c) if c == "flushall"));
    assert!(matches!(acl_rule_from_text("weird"), AclRule::Other(c) if c == "weird"));
    assert!(matches!(acl_key_rule_from_text("*"), AclRule::AllKeys));
    assert!(matches!(acl_key_rule_from_text("~~a:*"), AclRule::Pattern(p) if p == "a:*"));
    assert!(matches!(acl_channel_rule_from_text("*"), AclRule::Other(p) if p == "allchannels"));
    assert!(matches!(acl_channel_rule_from_text("&c"), AclRule::Channel(p) if p == "c"));
    assert!(matches!(acl_selector_token_to_rule("NoCommands"), AclRule::NoCommands));
    assert!(matches!(acl_selector_token_to_rule(""), AclRule::Other(p) if p.is_empty()));
}

#[test]
fn selector_errors() {
    assert!(matches!(acl_selector_from_text(" ( ) "), Err(AclError::EmptySelector)));
    assert!(matches!(acl_selector_from_text("+get \"x"), Err(AclError::UnbalancedQuotes)));
    let p = param(vec!["   ", "(+get \"x)"]);
    assert!(matches!(acl_build_rules(&p), Err(AclError::UnbalancedQuotes)));
}

#[test]
fn setuser_arguments() {
    let mut p = param(vec!["", "-@all +set ~key2"]);
    p.password_hashes = vec!["abc".into()];
    let args = build_acl_setuser_cmd(&p).expect("args");
    assert_eq!(
        args,
        vec![
            "SETUSER",
            "u1",
            "reset",
            "on",
            "#abc",
            "+@read",
            "allkeys",
            "allchannels",
            "(-@all +set ~key2)"
        ]
    );
    let q = AclSetuserParam {
        username: "v".into(),
        enabled: false,
        password_hashes: vec![],
        command_rules: vec![],
        key_patterns: vec![],
        channel_patterns: vec![],
        selectors: vec![],
    };
    let args = build_acl_setuser_cmd(&q).expect("args");
    assert_eq!(args, vec!["SETUSER", "v", "reset", "off", "nopass", "nocommands", "allkeys", "resetchannels"]);
}

#[test]
fn rule_display_and_arguments() {
    assert_eq!(acl_rule_to_string(&AclRule::AddHashedPass("h".into())), "h");
    assert_eq!(acl_rule_to_string(&AclRule::RemovePass("p".into())), "<p");
    assert_eq!(acl_rule_to_string(&AclRule::Channel("c".into())), "c");
    let sel = AclRule::Selector(vec![AclRule::AddCommand("get".into()), AclRule::Pattern("k".into())]);
    assert_eq!(acl_rule_to_string(&sel), "+get k");
    assert_eq!(acl_rule_to_setuser_arg(&sel), "(+get ~k)");
    assert_eq!(acl_rule_to_setuser_arg(&AclRule::Channel("*".into())), "allchannels");
    assert_eq!(acl_rule_to_setuser_arg(&AclRule::AddPass("x".into())), "unknown");
}

#[test]
fn user_detail_from_getuser_rules() {
    let info = AclInfoRules {
        flags: vec![AclRule::On, AclRule::NoPass],
        passwords: vec![AclRule::AddHashedPass("h1".into())],
        commands: vec![AclRule::AddCategory("all".into())],
        keys: vec![AclRule::Pattern("*".into())],
        channels: vec![AclRule::Channel("*".into())],
    };
    let d = acl_user_detail_from_info("u", &info, vec!["+get".into()]);
    assert_eq!(d.username, "u");
    assert!(d.enabled && d.nopass);
    assert_eq!(d.flags, vec!["on", "nopass"]);
    assert_eq!(d.password_hashes, vec!["h1"]);
    assert_eq!(d.command_rules, vec!["+@all"]);
    assert_eq!(d.key_patterns, vec!["*"]);
    assert_eq!(d.channel_patterns, vec!["*"]);
    assert_eq!(d.selectors, vec!["+get"]);
}

#[test]
fn getuser_selectors_and_fields() {
    let sel = AclInfoRules {
        flags: vec![],
        passwords: vec![],
        commands: vec![AclRule::RemoveCategory("all".into()), AclRule::AddCommand("get".into())],
        keys: vec![AclRule::Pattern("k".into())],
        channels: vec![],
    };
    assert_eq!(selector_item_to_text(None), "");
    let texts = selector_texts(vec![None, Some(sel)]);
    assert_eq!(texts, vec!["-@all +get ~k"]);

    let reply = CliValue::Array(vec![
        CliValue::BulkString(b" \"flags\" ".to_vec()),
        CliValue::Int(1),
        CliValue::SimpleString(" selectors ".into()),
        CliValue::Int(2),
    ]);
    assert_eq!(getuser_key_name(&reply), None);
    assert_eq!(getuser_key_name(&CliValue::BulkString(b"\"x\"".to_vec())), Some("x".to_string()));
    assert!(matches!(get_getuser_field(&reply, "selectors"), Some(CliValue::Int(2))));
    assert!(matches!(get_getuser_field(&reply, "flags"), Some(CliValue::Int(1))));
    assert!(get_getuser_field(&reply, "keys").is_none());
    let odd = CliValue::Array(vec![CliValue::SimpleString("selectors".into())]);
    assert!(get_getuser_field(&odd, "selectors").is_none());
    let map = CliValue::MapOf(vec![(CliValue::SimpleString("keys".into()), CliValue::Nil)]);
    assert!(matches!(get_getuser_field(&map, "keys"), Some(CliValue::Nil)));
}

#[test]
fn text_order_by_code_point() {
    assert!(str_lt("Bob", "amy"));
    assert!(str_lt("ab", "abc"));
    assert!(!str_lt("abc", "abc"));
    assert!(!str_lt("b", "a"));
    assert!(str_lt("", "a"));
}
