//! Cluster topology: the nodes of `CLUSTER NODES`, the masters that a key
//! scan visits, node addresses, and how a scan over the masters moves on.
use vstd::prelude::*;
use crate::text::{words, until_char, contains_seq, join_spaced, char_fields, split_whitespace,
    split_char, str_contains, join_words_from, str_to_chars, chars_eq_str, push_string,
    decimal_u16, parse_u16, string_from, chars_slice, chars_to_string};
use crate::model::ScanCursor;
use crate::cli_display::{CliValue, reply_text, reply_text_of};
use crate::text::{decimal_nat, push_char, push_decimal_u64, push_str};

verus! {

/// A node of a cluster.
#[derive(Debug)]
pub struct RedisNode {
    pub id: String,
    /// `host:port`.
    pub node: String,
    /// Comma-separated flags such as `myself,master`.
    pub flags: String,
    /// The slots a master serves, as `CLUSTER NODES` writes them.
    pub slots: Option<String>,
    /// The address of the master of a replica, when it is known.
    pub slave_of_node: Option<String>,
}

/// A node with its texts as character sequences.
pub struct NodeSpec {
    pub id: Seq<char>,
    pub node: Seq<char>,
    pub flags: Seq<char>,
    pub slots: Option<Seq<char>>,
    pub slave_of_node: Option<Seq<char>>,
}

pub open spec fn opt_view(o: Option<String>) -> Option<Seq<char>> {
    match o {
        Some(s) => Some(s@),
        None => None,
    }
}

pub open spec fn node_view(n: RedisNode) -> NodeSpec {
    NodeSpec {
        id: n.id@,
        node: n.node@,
        flags: n.flags@,
        slots: opt_view(n.slots),
        slave_of_node: opt_view(n.slave_of_node),
    }
}

pub open spec fn nodes_view(s: Seq<RedisNode>) -> Seq<NodeSpec> {
    s.map_values(|n: RedisNode| node_view(n))
}

/// Whether a node is a master: its flags contain `master`.
pub open spec fn is_master(flags: Seq<char>) -> bool {
    contains_seq(flags, "master"@)
}

/// The masters of the `CLUSTER NODES` lines, in order: a line of at least
/// nine words whose third word (the flags) contains `master` gives the id
/// (first word), the address (second word up to `@`), the flags and the
/// slots (the words from the ninth on, joined with spaces).
pub open spec fn master_nodes(lines: Seq<Seq<char>>) -> Seq<NodeSpec>
    decreases lines.len(),
{
    if lines.len() == 0 {
        Seq::empty()
    } else {
        let acc = master_nodes(lines.drop_last());
        let w = words(lines.last());
        if w.len() >= 9 && is_master(w[2]) {
            acc.push(
                NodeSpec {
                    id: w[0],
                    node: until_char(w[1], '@'),
                    flags: w[2],
                    slots: Some(join_spaced(w.skip(8))),
                    slave_of_node: None,
                },
            )
        } else {
            acc
        }
    }
}

/// The address of the first node with the given id.
pub open spec fn node_of_id(nodes: Seq<NodeSpec>, id: Seq<char>) -> Option<Seq<char>>
    decreases nodes.len(),
{
    if nodes.len() == 0 {
        None
    } else if nodes[0].id == id {
        Some(nodes[0].node)
    } else {
        node_of_id(nodes.drop_first(), id)
    }
}

/// `base` followed by the other nodes of the lines, in order: a line of at
/// least four words whose flags do not contain `master` gives a node whose
/// master is found by the id in its fourth word among the nodes before it.
pub open spec fn with_other_nodes(lines: Seq<Seq<char>>, base: Seq<NodeSpec>) -> Seq<NodeSpec>
    decreases lines.len(),
{
    if lines.len() == 0 {
        base
    } else {
        let acc = with_other_nodes(lines.drop_last(), base);
        let w = words(lines.last());
        if w.len() >= 4 && !is_master(w[2]) {
            acc.push(
                NodeSpec {
                    id: w[0],
                    node: until_char(w[1], '@'),
                    flags: w[2],
                    slots: None,
                    slave_of_node: node_of_id(acc, w[3]),
                },
            )
        } else {
            acc
        }
    }
}

/// The nodes of a `CLUSTER NODES` reply: the masters first, then the other
/// nodes, each group in the order of its lines.
pub open spec fn cluster_nodes(text: Seq<char>) -> Seq<NodeSpec> {
    let lines = char_fields(text, '\n');
    with_other_nodes(lines, master_nodes(lines))
}

proof fn lemma_master_nodes(lines: Seq<Seq<char>>)
    ensures
        forall|i: int| 0 <= i < master_nodes(lines).len() ==> is_master(#[trigger] master_nodes(lines)[i].flags)
            && master_nodes(lines)[i].slots is Some && master_nodes(lines)[i].slave_of_node is None,
    decreases lines.len(),
{
    if lines.len() > 0 {
        lemma_master_nodes(lines.drop_last());
        let acc = master_nodes(lines.drop_last());
        let r = master_nodes(lines);
        assert forall|i: int| 0 <= i < r.len() implies is_master(#[trigger] r[i].flags) && r[i].slots is Some
            && r[i].slave_of_node is None by {
            if i < acc.len() {
                assert(r[i] == acc[i]);
            }
        }
    }
}

proof fn lemma_other_nodes(lines: Seq<Seq<char>>, base: Seq<NodeSpec>)
    ensures
        with_other_nodes(lines, base).len() >= base.len(),
        forall|i: int| 0 <= i < base.len() ==> #[trigger] with_other_nodes(lines, base)[i] == base[i],
        forall|i: int| base.len() <= i < with_other_nodes(lines, base).len() ==> !is_master(
            #[trigger] with_other_nodes(lines, base)[i].flags,
        ) && with_other_nodes(lines, base)[i].slots is None,
    decreases lines.len(),
{
    if lines.len() > 0 {
        lemma_other_nodes(lines.drop_last(), base);
        let acc = with_other_nodes(lines.drop_last(), base);
        let r = with_other_nodes(lines, base);
        assert forall|i: int| 0 <= i < acc.len() implies #[trigger] r[i] == acc[i] by {}
        assert forall|i: int| 0 <= i < base.len() implies #[trigger] r[i] == base[i] by {
            assert(r[i] == acc[i]);
        }
        assert forall|i: int| base.len() <= i < r.len() implies !is_master(#[trigger] r[i].flags)
            && r[i].slots is None by {
            if i < acc.len() {
                assert(r[i] == acc[i]);
            }
        }
    }
}

/// The nodes of `CLUSTER NODES` list the masters first, each with its
/// slots and no master of its own, then the other nodes, none with slots.
pub proof fn law_cluster_nodes_masters_first(text: Seq<char>)
    ensures
        ({
            let r = cluster_nodes(text);
            let m = master_nodes(char_fields(text, '\n')).len();
            &&& m <= r.len()
            &&& forall|i: int| 0 <= i < m ==> is_master(#[trigger] r[i].flags) && r[i].slots is Some
                && r[i].slave_of_node is None
            &&& forall|i: int| m <= i < r.len() ==> !is_master(#[trigger] r[i].flags) && r[i].slots is None
        }),
{
    let lines = char_fields(text, '\n');
    lemma_master_nodes(lines);
    lemma_other_nodes(lines, master_nodes(lines));
    let r = cluster_nodes(text);
    let base = master_nodes(lines);
    assert forall|i: int| 0 <= i < base.len() implies is_master(#[trigger] r[i].flags) && r[i].slots is Some
        && r[i].slave_of_node is None by {
        assert(r[i] == base[i]);
        assert(is_master(base[i].flags));
    }
}

fn find_node_of_id(nodes: &Vec<RedisNode>, id: &String) -> (r: Option<String>)
    ensures
        opt_view(r) == node_of_id(nodes_view(nodes@), id@),
{
    let ghost nv = nodes_view(nodes@);
    let w = str_to_chars(id.as_str());
    let mut i: usize = 0;
    assert(nv.skip(0) =~= nv);
    while i < nodes.len()
        invariant
            i <= nodes@.len(),
            nv == nodes_view(nodes@),
            w@ == id@,
            node_of_id(nv, id@) == node_of_id(nv.skip(i as int), id@),
        decreases nodes@.len() - i,
    {
        proof {
            assert(nv.skip(i as int)[0] == node_view(nodes@[i as int]));
            assert(nv.skip(i as int).drop_first() =~= nv.skip(i + 1));
        }
        if chars_eq_str(w.as_slice(), nodes[i].id.as_str()) {
            return Some(nodes[i].node.clone());
        }
        i += 1;
    }
    None
}

fn push_node(nodes: &mut Vec<RedisNode>, n: RedisNode)
    ensures
        nodes_view(final(nodes)@) == nodes_view(old(nodes)@).push(node_view(n)),
{
    let ghost nv = node_view(n);
    nodes.push(n);
    assert(nodes_view(nodes@) =~= nodes_view(old(nodes)@).push(nv));
}

fn clone_string(s: &String) -> (r: String)
    ensures
        r@ == s@,
{
    s.clone()
}

fn address_of(w: &String) -> (r: String)
    ensures
        r@ == until_char(w@, '@'),
{
    let parts = split_char(w.as_str(), '@');
    proof {
        assert(parts@[0]@ == parts.deep_view()[0]);
    }
    clone_string(&parts[0])
}

/// Reads the nodes of a `CLUSTER NODES` reply.
pub fn parse_node_list(cluster_nodes_text: &str) -> (r: Vec<RedisNode>)
    ensures
        nodes_view(r@) == cluster_nodes(cluster_nodes_text@),
{
    let lines = split_char(cluster_nodes_text, '\n');
    let ghost lv = lines.deep_view();
    let mut nodes: Vec<RedisNode> = Vec::new();
    let mut i: usize = 0;
    assert(lv.take(0) =~= Seq::<Seq<char>>::empty());
    assert(nodes_view(nodes@) =~= Seq::<NodeSpec>::empty());
    proof {
        reveal_strlit("master");
    }
    while i < lines.len()
        invariant
            i <= lines@.len(),
            lv == lines.deep_view(),
            nodes_view(nodes@) == master_nodes(lv.take(i as int)),
        decreases lines@.len() - i,
    {
        proof {
            assert(lv.take(i + 1).drop_last() =~= lv.take(i as int));
            assert(lv.take(i + 1).last() == lines@[i as int]@);
        }
        let w = split_whitespace(lines[i].as_str());
        let ghost wv = w.deep_view();
        if w.len() >= 9 && str_contains(w[2].as_str(), "master") {
            proof {
                assert(w@[0]@ == wv[0]);
                assert(w@[1]@ == wv[1]);
                assert(w@[2]@ == wv[2]);
                assert(w.deep_view().skip(8) == wv.skip(8));
            }
            let n = RedisNode {
                id: clone_string(&w[0]),
                node: address_of(&w[1]),
                flags: clone_string(&w[2]),
                slots: Some(join_words_from(&w, 8)),
                slave_of_node: None,
            };
            push_node(&mut nodes, n);
        } else {
            proof {
                if w@.len() >= 9 {
                    assert(w@[2]@ == wv[2]);
                }
            }
        }
        i += 1;
    }
    assert(lv.take(i as int) =~= lv);
    let ghost masters = nodes_view(nodes@);
    let mut i: usize = 0;
    while i < lines.len()
        invariant
            i <= lines@.len(),
            lv == lines.deep_view(),
            masters == master_nodes(lv),
            nodes_view(nodes@) == with_other_nodes(lv.take(i as int), masters),
        decreases lines@.len() - i,
    {
        proof {
            assert(lv.take(i + 1).drop_last() =~= lv.take(i as int));
            assert(lv.take(i + 1).last() == lines@[i as int]@);
        }
        let w = split_whitespace(lines[i].as_str());
        let ghost wv = w.deep_view();
        if w.len() >= 4 && !str_contains(w[2].as_str(), "master") {
            proof {
                assert(w@[0]@ == wv[0]);
                assert(w@[1]@ == wv[1]);
                assert(w@[2]@ == wv[2]);
                assert(w@[3]@ == wv[3]);
            }
            let master = find_node_of_id(&nodes, &w[3]);
            let n = RedisNode {
                id: clone_string(&w[0]),
                node: address_of(&w[1]),
                flags: clone_string(&w[2]),
                slots: None,
                slave_of_node: master,
            };
            push_node(&mut nodes, n);
        } else {
            proof {
                if w@.len() >= 4 {
                    assert(w@[2]@ == wv[2]);
                }
            }
        }
        i += 1;
    }
    assert(lv.take(i as int) =~= lv);
    nodes
}

/// The addresses of the masters among the nodes, in order.
pub open spec fn master_addresses(nodes: Seq<NodeSpec>) -> Seq<Seq<char>>
    decreases nodes.len(),
{
    if nodes.len() == 0 {
        Seq::empty()
    } else if is_master(nodes.last().flags) {
        master_addresses(nodes.drop_last()).push(nodes.last().node)
    } else {
        master_addresses(nodes.drop_last())
    }
}

/// The addresses of the masters, which a key scan visits in turn.
pub fn get_node_list_master(nodes: &Vec<RedisNode>) -> (r: Vec<String>)
    ensures
        r.deep_view() == master_addresses(nodes_view(nodes@)),
{
    let ghost nv = nodes_view(nodes@);
    let mut out: Vec<String> = Vec::new();
    let mut i: usize = 0;
    assert(nv.take(0) =~= Seq::<NodeSpec>::empty());
    proof {
        reveal_strlit("master");
    }
    while i < nodes.len()
        invariant
            i <= nodes@.len(),
            nv == nodes_view(nodes@),
            out.deep_view() == master_addresses(nv.take(i as int)),
        decreases nodes@.len() - i,
    {
        proof {
            assert(nv.take(i + 1).drop_last() =~= nv.take(i as int));
            assert(nv.take(i + 1).last() == node_view(nodes@[i as int]));
        }
        if str_contains(nodes[i].flags.as_str(), "master") {
            push_string(&mut out, nodes[i].node.clone());
        }
        i += 1;
    }
    assert(nv.take(i as int) =~= nv);
    out
}

/// Why a node address could not be read.
#[derive(Debug, Clone, Copy, PartialEq, Eq, Structural)]
pub enum NodeError {
    /// The address has no `:`.
    InvalidNodeFormat,
    /// The text after the first `:` is not a port number.
    InvalidPort,
}

/// The first position at or after `i` that holds `c`, or the end.
pub open spec fn find_char(s: Seq<char>, c: char, i: int) -> int
    decreases s.len() - i,
{
    if i >= s.len() {
        s.len() as int
    } else if s[i] == c {
        i
    } else {
        find_char(s, c, i + 1)
    }
}

/// The host and port of a `host:port` address, split at the first `:`.
pub open spec fn node_address(s: Seq<char>) -> Result<(Seq<char>, u16), NodeError> {
    let k = find_char(s, ':', 0);
    if k >= s.len() {
        Err(NodeError::InvalidNodeFormat)
    } else {
        match decimal_u16(s.skip(k + 1)) {
            None => Err(NodeError::InvalidPort),
            Some(p) => Ok((s.take(k), p)),
        }
    }
}

/// Splits a `host:port` address.
pub fn split_node_address(node: &str) -> (r: Result<(String, u16), NodeError>)
    ensures
        match node_address(node@) {
            Err(e) => r matches Err(x) && x == e,
            Ok((h, p)) => r matches Ok((hh, pp)) && hh@ == h && pp == p,
        },
{
    let w = str_to_chars(node);
    let n = w.len();
    let mut k: usize = 0;
    while k < n && w[k] != ':'
        invariant
            k <= n,
            n == w@.len(),
            w@ == node@,
            find_char(w@, ':', 0) == find_char(w@, ':', k as int),
        decreases n - k,
    {
        k += 1;
    }
    if k >= n {
        return Err(NodeError::InvalidNodeFormat);
    }
    let port_text = string_from(w.as_slice(), k + 1);
    match parse_u16(port_text.as_str()) {
        None => Err(NodeError::InvalidPort),
        Some(p) => {
            let host = chars_slice(w.as_slice(), 0, k);
            assert(w@.subrange(0, k as int) =~= w@.take(k as int));
            Ok((chars_to_string(host.as_slice()), p))
        },
    }
}

/// Whether a node is among the scanned ones.
pub open spec fn is_ready(ready: Seq<Seq<char>>, node: Seq<char>) -> bool {
    ready.contains(node)
}

/// The first master not scanned yet.
pub open spec fn scan_target(ready: Seq<Seq<char>>, masters: Seq<Seq<char>>, i: int) -> Option<int>
    decreases masters.len() - i,
{
    if i >= masters.len() {
        None
    } else if !is_ready(ready, masters[i]) {
        Some(i)
    } else {
        scan_target(ready, masters, i + 1)
    }
}

proof fn lemma_scan_target_from(ready: Seq<Seq<char>>, masters: Seq<Seq<char>>, i: int)
    requires
        0 <= i,
    ensures
        match scan_target(ready, masters, i) {
            Some(k) => i <= k < masters.len() && !ready.contains(masters[k]) && forall|j: int|
                i <= j < k ==> ready.contains(#[trigger] masters[j]),
            None => forall|j: int| i <= j < masters.len() ==> ready.contains(#[trigger] masters[j]),
        },
    decreases masters.len() - i,
{
    if i < masters.len() && is_ready(ready, masters[i]) {
        lemma_scan_target_from(ready, masters, i + 1);
    }
}

/// A cluster key scan works on a master not scanned yet, and every master
/// before it in the list is scanned; when it has no target, every master
/// is scanned.
pub proof fn law_scan_target_is_first_unscanned(ready: Seq<Seq<char>>, masters: Seq<Seq<char>>)
    ensures
        match scan_target(ready, masters, 0) {
            Some(k) => 0 <= k < masters.len() && !ready.contains(masters[k]) && forall|j: int|
                0 <= j < k ==> ready.contains(#[trigger] masters[j]),
            None => forall|j: int| 0 <= j < masters.len() ==> ready.contains(#[trigger] masters[j]),
        },
{
    lemma_scan_target_from(ready, masters, 0);
}

/// Once the scan of its target master reaches cursor 0, a cluster key scan
/// moves on to a later master of the list, or has none left: no master is
/// scanned twice.
pub proof fn law_scan_moves_past_finished_master(ready: Seq<Seq<char>>, masters: Seq<Seq<char>>, t: int)
    requires
        scan_target(ready, masters, 0) == Some(t),
    ensures
        match scan_target(after_node_scan(ready, masters[t], 0), masters, 0) {
            Some(u) => u > t,
            None => true,
        },
{
    lemma_scan_target_from(ready, masters, 0);
    let after = after_node_scan(ready, masters[t], 0);
    assert(after == ready.push(masters[t]));
    lemma_scan_target_from(after, masters, 0);
    match scan_target(after, masters, 0) {
        Some(u) => {
            if u <= t {
                if u < t {
                    assert(ready.contains(masters[u]));
                    let k = choose|k: int| 0 <= k < ready.len() && ready[k] == masters[u];
                    assert(after[k] == masters[u]);
                } else {
                    assert(after[ready.len() as int] == masters[t]);
                }
                assert(after.contains(masters[u]));
            }
        },
        None => {},
    }
}

fn contains_string(v: &Vec<String>, s: &String) -> (r: bool)
    ensures
        r == v.deep_view().contains(s@),
{
    let w = str_to_chars(s.as_str());
    let mut i: usize = 0;
    while i < v.len()
        invariant
            i <= v@.len(),
            w@ == s@,
            forall|j: int| 0 <= j < i ==> #[trigger] v.deep_view()[j] != s@,
        decreases v@.len() - i,
    {
        if chars_eq_str(w.as_slice(), v[i].as_str()) {
            assert(v.deep_view()[i as int] == s@);
            return true;
        }
        i += 1;
    }
    false
}

/// The master that a cluster key scan works on next: the first one not
/// scanned yet, if any. The scan there goes on from the cursor's position.
pub fn cluster_scan_target(cursor: &ScanCursor, masters: &Vec<String>) -> (r: Option<usize>)
    ensures
        match scan_target(cursor.ready_nodes.deep_view(), masters.deep_view(), 0) {
            None => r is None,
            Some(i) => r == Some(i as usize),
        },
{
    let ghost ready = cursor.ready_nodes.deep_view();
    let ghost mv = masters.deep_view();
    let mut i: usize = 0;
    while i < masters.len()
        invariant
            i <= masters@.len(),
            ready == cursor.ready_nodes.deep_view(),
            mv == masters.deep_view(),
            scan_target(ready, mv, 0) == scan_target(ready, mv, i as int),
        decreases masters@.len() - i,
    {
        if !contains_string(&cursor.ready_nodes, &masters[i]) {
            return Some(i);
        }
        i += 1;
    }
    None
}

/// The cursor after one `SCAN` on a master: that master is the current
/// node with the returned cursor, and it is scanned once that cursor is 0.
pub open spec fn after_node_scan(ready: Seq<Seq<char>>, node: Seq<char>, next: u64) -> Seq<Seq<char>> {
    if next == 0 {
        ready.push(node)
    } else {
        ready
    }
}

/// Records one `SCAN` reply on a master.
pub fn cluster_scan_advance(cursor: ScanCursor, node: String, next_cursor: u64) -> (r: ScanCursor)
    ensures
        r.now_node@ == node@,
        r.now_cursor == next_cursor,
        r.ready_nodes.deep_view() == after_node_scan(cursor.ready_nodes.deep_view(), node@, next_cursor),
        r.stream_cursor@ == cursor.stream_cursor@,
        r.finished == cursor.finished,
{
    let ScanCursor { ready_nodes, now_node: _, now_cursor: _, stream_cursor, finished } = cursor;
    let mut ready_nodes = ready_nodes;
    if next_cursor == 0 {
        push_string(&mut ready_nodes, node.clone());
    }
    ScanCursor { ready_nodes, now_node: node, now_cursor: next_cursor, stream_cursor, finished }
}

/// Ends the scan when every master has been scanned: the cursor is then
/// finished, with no current node and cursor 0; otherwise it is unchanged.
pub fn cluster_scan_finish(cursor: ScanCursor, node_count: usize) -> (r: ScanCursor)
    ensures
        cursor.ready_nodes@.len() == node_count ==> r.finished && r.now_node@ == Seq::<char>::empty()
            && r.now_cursor == 0 && r.ready_nodes.deep_view() == cursor.ready_nodes.deep_view()
            && r.stream_cursor@ == cursor.stream_cursor@,
        cursor.ready_nodes@.len() != node_count ==> r.finished == cursor.finished && r.now_node@
            == cursor.now_node@ && r.now_cursor == cursor.now_cursor && r.ready_nodes.deep_view()
            == cursor.ready_nodes.deep_view() && r.stream_cursor@ == cursor.stream_cursor@,
{
    if cursor.ready_nodes.len() == node_count {
        let ScanCursor { ready_nodes, now_node: _, now_cursor: _, stream_cursor, finished: _ } = cursor;
        ScanCursor { ready_nodes, now_node: String::new(), now_cursor: 0, stream_cursor, finished: true }
    } else {
        cursor
    }
}

/// Whether a node is shown when the list is limited to `filter`: always
/// when there is no filter or it is empty, else when it names the node.
pub open spec fn node_selected_spec(filter: Option<Seq<char>>, node: Seq<char>) -> bool {
    match filter {
        None => true,
        Some(f) => f.len() == 0 || f == node,
    }
}

/// Whether a node's slow log or clients are listed.
pub fn node_selected(filter: &Option<String>, node: &str) -> (r: bool)
    ensures
        r == node_selected_spec(opt_view(*filter), node@),
{
    match filter {
        None => true,
        Some(f) => {
            let w = str_to_chars(f.as_str());
            w.len() == 0 || chars_eq_str(w.as_slice(), node)
        },
    }
}

/// The node a `CLUSTER SLOTS` node entry names (host, port, id, ...): its
/// address `host:port` (the port taken as `u16`), its id, and the flag
/// `master` for the first entry of a range, else `slave`; nothing when the
/// entry is not an array of at least three items with an integer port.
pub open spec fn slot_node(entry: CliValue, master: bool) -> Option<NodeSpec> {
    match entry {
        CliValue::Array(info) => if info@.len() >= 3 {
            match info@[1] {
                CliValue::Int(p) => Some(
                    NodeSpec {
                        id: reply_text(info@[2]),
                        node: reply_text(info@[0]) + ":"@ + decimal_nat((p as u16) as nat),
                        flags: if master { "master"@ } else { "slave"@ },
                        slots: None,
                        slave_of_node: None,
                    },
                ),
                _ => None,
            }
        } else {
            None
        },
        _ => None,
    }
}

/// The nodes of the node entries of a slot range, in order; the first entry
/// is the master.
pub open spec fn range_nodes(es: Seq<CliValue>) -> Seq<NodeSpec>
    decreases es.len(),
{
    if es.len() == 0 {
        Seq::empty()
    } else {
        let rest = range_nodes(es.drop_last());
        match slot_node(es.last(), es.len() == 1) {
            Some(n) => rest.push(n),
            None => rest,
        }
    }
}

/// The nodes of a `CLUSTER SLOTS` range when it holds the slot: an array of
/// at least three items whose first two are integers `start <= slot <= end`
/// (taken as `u64`), with at least one readable node.
pub open spec fn range_match(entry: CliValue, slot: u64) -> Option<Seq<NodeSpec>> {
    match entry {
        CliValue::Array(d) => if d@.len() >= 3 {
            match (d@[0], d@[1]) {
                (CliValue::Int(start), CliValue::Int(end)) => if (start as u64) <= slot && slot <= (
                end as u64) && range_nodes(d@.skip(2)).len() > 0 {
                    Some(range_nodes(d@.skip(2)))
                } else {
                    None
                },
                _ => None,
            }
        } else {
            None
        },
        _ => None,
    }
}

/// The nodes of the first range of a `CLUSTER SLOTS` reply that holds the
/// slot.
pub open spec fn slot_owner(ranges: Seq<CliValue>, slot: u64) -> Option<Seq<NodeSpec>>
    decreases ranges.len(),
{
    if ranges.len() == 0 {
        None
    } else {
        match range_match(ranges[0], slot) {
            Some(ns) => Some(ns),
            None => slot_owner(ranges.drop_first(), slot),
        }
    }
}

fn read_slot_node(entry: &CliValue, master: bool) -> (r: Option<RedisNode>)
    ensures
        match slot_node(*entry, master) {
            None => r is None,
            Some(n) => r matches Some(x) && node_view(x) == n,
        },
{
    let info = match entry {
        CliValue::Array(info) => info,
        _ => {
            return None;
        },
    };
    if info.len() < 3 {
        return None;
    }
    let p = match &info[1] {
        CliValue::Int(p) => *p,
        _ => {
            return None;
        },
    };
    let mut node = reply_text_of(&info[0]);
    push_char(&mut node, ':');
    let port: u16 = p as u16;
    push_decimal_u64(&mut node, port as u64);
    let mut flags = String::new();
    if master {
        push_str(&mut flags, "master");
    } else {
        push_str(&mut flags, "slave");
    }
    proof {
        reveal_strlit(":");
        reveal_strlit("master");
        reveal_strlit("slave");
        assert(flags@ =~= if master { "master"@ } else { "slave"@ });
        assert(node@ =~= reply_text(info@[0]) + ":"@ + decimal_nat((p as u16) as nat));
    }
    Some(RedisNode { id: reply_text_of(&info[2]), node, flags, slots: None, slave_of_node: None })
}

fn read_range_nodes(d: &Vec<CliValue>) -> (r: Vec<RedisNode>)
    requires
        d@.len() >= 2,
    ensures
        nodes_view(r@) == range_nodes(d@.skip(2)),
{
    let mut out: Vec<RedisNode> = Vec::new();
    let mut i: usize = 2;
    let ghost es = d@.skip(2);
    assert(es.take(0) =~= Seq::<CliValue>::empty());
    assert(nodes_view(out@) =~= Seq::<NodeSpec>::empty());
    while i < d.len()
        invariant
            2 <= i <= d@.len(),
            es == d@.skip(2),
            nodes_view(out@) == range_nodes(es.take(i - 2)),
        decreases d@.len() - i,
    {
        let ghost before = out@;
        let k: Ghost<int> = Ghost(i - 2);
        proof {
            assert(es.take(k@ + 1).drop_last() =~= es.take(k@));
            assert(es.take(k@ + 1).last() == d@[i as int]);
            assert(es.take(k@ + 1).len() == k@ + 1);
        }
        match read_slot_node(&d[i], i == 2) {
            Some(n) => {
                out.push(n);
                proof {
                    assert(nodes_view(out@) =~= nodes_view(before).push(node_view(n)));
                }
            },
            None => {},
        }
        i += 1;
    }
    assert(es.take(d@.len() - 2) =~= es);
    out
}

fn read_range_match(entry: &CliValue, slot: u64) -> (r: Option<Vec<RedisNode>>)
    ensures
        match range_match(*entry, slot) {
            None => r is None,
            Some(ns) => r matches Some(v) && nodes_view(v@) == ns,
        },
{
    let d = match entry {
        CliValue::Array(d) => d,
        _ => {
            return None;
        },
    };
    if d.len() < 3 {
        return None;
    }
    let (start, end) = match (&d[0], &d[1]) {
        (CliValue::Int(start), CliValue::Int(end)) => (*start, *end),
        _ => {
            return None;
        },
    };
    if !((start as u64) <= slot && slot <= (end as u64)) {
        return None;
    }
    let nodes = read_range_nodes(d);
    if nodes.len() == 0 {
        return None;
    }
    Some(nodes)
}

/// The nodes (master first, then its replicas) of the first range of a
/// `CLUSTER SLOTS` reply that holds the slot, or `None` when no range holds
/// it with a readable node.
pub fn key_node_from_slots(slot: u64, ranges: &Vec<CliValue>) -> (r: Option<Vec<RedisNode>>)
    ensures
        match slot_owner(ranges@, slot) {
            None => r is None,
            Some(ns) => r matches Some(v) && nodes_view(v@) == ns,
        },
{
    let mut i: usize = 0;
    assert(ranges@.skip(0) =~= ranges@);
    while i < ranges.len()
        invariant
            i <= ranges@.len(),
            slot_owner(ranges@, slot) == slot_owner(ranges@.skip(i as int), slot),
        decreases ranges@.len() - i,
    {
        proof {
            assert(ranges@.skip(i as int)[0] == ranges@[i as int]);
            assert(ranges@.skip(i as int).drop_first() =~= ranges@.skip(i + 1));
        }
        match read_range_match(&ranges[i], slot) {
            Some(v) => {
                return Some(v);
            },
            None => {},
        }
        i += 1;
    }
    None
}

} // verus!
