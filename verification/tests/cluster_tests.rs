use redis_me::cluster::{
    cluster_scan_advance, cluster_scan_finish, cluster_scan_target, get_node_list_master,
    node_selected, parse_node_list, split_node_address, NodeError,
};
use redis_me::model::ScanCursor;
use redis_me::cli_display::CliValue;
use redis_me::cluster::key_node_from_slots;

const NODES: &str = "01b6 192.168.1.11:7004@17004 myself,slave 0891 0 0 2 connected\n\
86ab 192.168.1.11:7005@17005 slave e82b 0 1758958605000 3 connected\n\
e82b 192.168.1.11:7003@17003 master - 0 1758958606000 3 connected 10923-16383\n\
0891 192.168.1.11:7002@17002 master - 0 1758958607260 2 connected 5461-10922\n\
dead 192.168.1.11:7009@17009 master,fail - 0 0 4 disconnected\n";

#[test]
fn nodes_masters_first_with_slots() {
    let nodes = parse_node_list(NODES);
    let ids: Vec<&str> = nodes.iter().map(|n| n.id.as_str()).collect();
    assert_eq!(ids, vec!["e82b", "0891", "01b6", "86ab"]);
    assert_eq!(nodes[0].node, "192.168.1.11:7003");
    assert_eq!(nodes[0].slots.as_deref(), Some("10923-16383"));
    assert_eq!(nodes[0].slave_of_node, None);
    assert_eq!(nodes[2].flags, "myself,slave");
    assert_eq!(nodes[2].slots, None);
    assert_eq!(nodes[2].slave_of_node.as_deref(), Some("192.168.1.11:7002"));
    assert_eq!(nodes[3].slave_of_node.as_deref(), Some("192.168.1.11:7003"));
}

#[test]
fn masters_of_node_list() {
    let nodes = parse_node_list(NODES);
    assert_eq!(get_node_list_master(&nodes), vec!["192.168.1.11:7003", "192.168.1.11:7002"]);
    assert!(parse_node_list("").is_empty());
}

#[test]
fn master_with_several_slot_ranges() {
    let nodes = parse_node_list("aa h:1@2 master - 0 0 1 connected 0-10 12 [13->-bb]");
    assert_eq!(nodes.len(), 1);
    assert_eq!(nodes[0].slots.as_deref(), Some("0-10 12 [13->-bb]"));
}

#[test]
fn node_addresses() {
    assert_eq!(split_node_address("10.0.0.1:7001"), Ok(("10.0.0.1".to_string(), 7001)));
    assert_eq!(split_node_address("host"), Err(NodeError::InvalidNodeFormat));
    assert_eq!(split_node_address("host:x"), Err(NodeError::InvalidPort));
    assert_eq!(split_node_address("a:1:2"), Err(NodeError::InvalidPort));
}

fn cursor(ready: Vec<&str>) -> ScanCursor {
    ScanCursor {
        ready_nodes: ready.into_iter().map(|s| s.to_string()).collect(),
        now_node: String::new(),
        now_cursor: 7,
        stream_cursor: String::new(),
        finished: false,
    }
}

#[test]
fn cluster_scan_moves_over_masters() {
    let masters = vec!["a:1".to_string(), "b:2".to_string()];
    let c = cursor(vec!["a:1"]);
    assert_eq!(cluster_scan_target(&c, &masters), Some(1));
    let c = cluster_scan_advance(c, "b:2".into(), 5);
    assert_eq!(c.now_node, "b:2");
    assert_eq!(c.now_cursor, 5);
    assert_eq!(c.ready_nodes, vec!["a:1"]);
    let c = cluster_scan_finish(c, 2);
    assert!(!c.finished);
    let c = cluster_scan_advance(c, "b:2".into(), 0);
    assert_eq!(c.ready_nodes, vec!["a:1", "b:2"]);
    let c = cluster_scan_finish(c, 2);
    assert!(c.finished);
    assert_eq!(c.now_node, "");
    assert_eq!(c.now_cursor, 0);
    assert_eq!(cluster_scan_target(&c, &masters), None);
}

#[test]
fn node_filter() {
    assert!(node_selected(&None, "a:1"));
    assert!(node_selected(&Some(String::new()), "a:1"));
    assert!(node_selected(&Some("a:1".into()), "a:1"));
    assert!(!node_selected(&Some("b:2".into()), "a:1"));
}

fn int_reply(i: i64) -> CliValue {
    CliValue::Int(i)
}

fn bulk(s: &str) -> CliValue {
    CliValue::BulkString(s.as_bytes().to_vec())
}

fn node_entry(host: &str, port: i64, id: &str) -> CliValue {
    CliValue::Array(vec![bulk(host), int_reply(port), bulk(id)])
}

fn slots_reply() -> Vec<CliValue> {
    vec![
        CliValue::Array(vec![
            int_reply(0),
            int_reply(5460),
            node_entry("10.0.0.1", 7000, "aaa"),
            node_entry("10.0.0.4", 7003, "ddd"),
        ]),
        CliValue::Array(vec![
            int_reply(5461),
            int_reply(10922),
            node_entry("10.0.0.2", 7001, "bbb"),
            CliValue::Array(vec![bulk("10.0.0.5")]),
            node_entry("10.0.0.6", 7005, "fff"),
        ]),
    ]
}

#[test]
fn key_node_master_then_replicas() {
    let nodes = key_node_from_slots(100, &slots_reply()).unwrap();
    assert_eq!(nodes.len(), 2);
    assert_eq!(nodes[0].node, "10.0.0.1:7000");
    assert_eq!(nodes[0].id, "aaa");
    assert_eq!(nodes[0].flags, "master");
    assert_eq!(nodes[1].node, "10.0.0.4:7003");
    assert_eq!(nodes[1].flags, "slave");
    assert_eq!(nodes[1].slots, None);
}

#[test]
fn key_node_skips_malformed_node_entries() {
    let nodes = key_node_from_slots(10922, &slots_reply()).unwrap();
    let addrs: Vec<&str> = nodes.iter().map(|n| n.node.as_str()).collect();
    assert_eq!(addrs, vec!["10.0.0.2:7001", "10.0.0.6:7005"]);
    assert_eq!(nodes[1].flags, "slave");
}

#[test]
fn key_node_not_found() {
    assert!(key_node_from_slots(16000, &slots_reply()).is_none());
    let empty_range = vec![CliValue::Array(vec![int_reply(0), int_reply(16383), CliValue::Nil])];
    assert!(key_node_from_slots(5, &empty_range).is_none());
}
