//! The client's data model: output modes, byte formats, keys, scan cursors,
//! connection settings and ACL user records.
use vstd::prelude::*;
use vstd::string::StringSliceAdditionalSpecFns;
use vstd::slice::slice_to_vec;
use crate::text::{trim, ascii_lower_seq, ascii_lower, lemma_trim_idempotent, trim_chars, ascii_lower_chars, chars_eq_str, chars_to_string,
    push_str, str_to_chars, utf8_lossy, bytes_to_string_lossy};

verus! {

/// Terminal output format, as redis-cli `--raw` / `--csv` / `--json`; the
/// default is the interactive TTY format.
#[derive(Debug, Clone, Copy, PartialEq, Eq, Structural)]
pub enum CliOutputMode {
    Standard,
    Raw,
    Json,
    Csv,
}

/// Byte format between the client and its front end: UTF-8 text or Base64 of
/// the raw bytes.
#[derive(Debug, Clone, Copy, PartialEq, Eq, Structural)]
pub enum BytesFormat {
    UTF8,
    Base64,
}

impl Default for CliOutputMode {
    fn default() -> (r: Self)
        ensures
            r == CliOutputMode::Standard,
    {
        CliOutputMode::Standard
    }
}

impl Default for BytesFormat {
    fn default() -> (r: Self)
        ensures
            r == BytesFormat::UTF8,
    {
        BytesFormat::UTF8
    }
}

/// A Redis key. Keys are bytes; `key` is the text shown for them and
/// `bytes` the bytes that were read from the server. A key that the user
/// typed has its text and no bytes.
#[derive(Debug)]
pub struct RedisKey {
    pub key: String,
    pub bytes: Vec<u8>,
}

/// The bytes a key stands for: its bytes, or the UTF-8 encoding of its text
/// when it has none.
pub open spec fn key_bytes(k: RedisKey) -> Seq<u8> {
    if k.bytes@.len() == 0 {
        vstd::utf8::encode_utf8(k.key@)
    } else {
        k.bytes@
    }
}

impl RedisKey {
    /// The bytes to send for this key.
    pub fn to_bytes(&self) -> (r: &[u8])
        ensures
            r@ == key_bytes(*self),
    {
        if self.bytes.len() == 0 {
            self.key.as_str().as_bytes()
        } else {
            self.bytes.as_slice()
        }
    }

    /// A key with its text as the bytes.
    pub fn from_text(s: &str) -> (r: RedisKey)
        ensures
            r.key@ == s@,
            r.bytes@ == vstd::utf8::encode_utf8(s@),
    {
        let mut key = String::new();
        push_str(&mut key, s);
        assert(key@ =~= s@);
        let bytes = slice_to_vec(s.as_bytes());
        RedisKey { key, bytes }
    }

    /// A key read from the server, shown as its bytes read as UTF-8.
    pub fn from_bytes(bytes: Vec<u8>) -> (r: RedisKey)
        ensures
            r.key@ == utf8_lossy(bytes@),
            r.bytes@ == bytes@,
    {
        let key = bytes_to_string_lossy(bytes.as_slice());
        RedisKey { key, bytes }
    }

    /// The key with both its text and its bytes filled in: a key without
    /// text gets the text of its bytes, a key without bytes the bytes of its
    /// text; a key with both stays as it is.
    pub fn to_normal(&self) -> (r: RedisKey)
        ensures
            self.key@.len() == 0 ==> r.key@ == utf8_lossy(self.bytes@) && r.bytes@ == self.bytes@,
            self.key@.len() != 0 && self.bytes@.len() == 0 ==> r.key@ == self.key@ && r.bytes@
                == vstd::utf8::encode_utf8(self.key@),
            self.key@.len() != 0 && self.bytes@.len() != 0 ==> r.key@ == self.key@ && r.bytes@
                == self.bytes@,
    {
        if self.key.as_str().unicode_len() == 0 {
            RedisKey::from_bytes(slice_to_vec(self.bytes.as_slice()))
        } else if self.bytes.len() == 0 {
            RedisKey::from_text(self.key.as_str())
        } else {
            let mut key = String::new();
            push_str(&mut key, self.key.as_str());
            assert(key@ =~= self.key@);
            RedisKey { key, bytes: slice_to_vec(self.bytes.as_slice()) }
        }
    }

    /// The text of the key: its text, or its bytes read as UTF-8 when it has
    /// no text.
    pub fn to_text(&self) -> (r: String)
        ensures
            r@ == if self.key@.len() == 0 {
                utf8_lossy(self.bytes@)
            } else {
                self.key@
            },
    {
        if self.key.as_str().unicode_len() == 0 {
            bytes_to_string_lossy(self.bytes.as_slice())
        } else {
            let mut key = String::new();
            push_str(&mut key, self.key.as_str());
            assert(key@ =~= self.key@);
            key
        }
    }
}

/// Where a key scan stands: the cluster nodes already scanned, the node and
/// cursor being scanned, the position of a stream and whether the scan is
/// finished.
#[derive(Debug)]
pub struct ScanCursor {
    pub ready_nodes: Vec<String>,
    pub now_node: String,
    pub now_cursor: u64,
    pub stream_cursor: String,
    pub finished: bool,
}

/// A key scan: `SCAN` with a pattern, an optional type and a cursor, or,
/// when `exact`, a test that the pattern itself is a key.
#[derive(Debug)]
pub struct ScanParam {
    pub pattern: String,
    pub scan_type: Option<String>,
    pub cursor: Option<ScanCursor>,
    pub exact: bool,
}

impl ScanParam {
    /// A scan of all keys that match the pattern, from the start.
    pub fn all(pattern: String) -> (r: ScanParam)
        ensures
            r.pattern@ == pattern@,
            r.scan_type is None,
            r.cursor is None,
            !r.exact,
    {
        ScanParam { pattern, scan_type: None, cursor: None, exact: false }
    }
}

/// Number of characters of a pattern that are not `*`.
pub open spec fn non_star_count(p: Seq<char>) -> nat
    decreases p.len(),
{
    if p.len() == 0 {
        0
    } else {
        non_star_count(p.drop_last()) + if p.last() == '*' {
            0nat
        } else {
            1nat
        }
    }
}

/// The `COUNT` of a key scan: 1000 when the pattern holds at most one
/// character besides `*`, else 10000.
pub fn scan_0_batch_count(pattern: &str) -> (r: u64)
    ensures
        r == if non_star_count(pattern@) <= 1 {
            1000u64
        } else {
            10000u64
        },
{
    let w = str_to_chars(pattern);
    let mut n: usize = 0;
    let mut i: usize = 0;
    while i < w.len()
        invariant
            i <= w@.len(),
            w@ == pattern@,
            n == non_star_count(w@.take(i as int)),
            n <= i,
        decreases w@.len() - i,
    {
        proof {
            assert(w@.take(i + 1).drop_last() =~= w@.take(i as int));
        }
        if w[i] != '*' {
            n += 1;
        }
        i += 1;
    }
    assert(w@.take(i as int) =~= w@);
    if n <= 1 {
        1000
    } else {
        10000
    }
}

/// Application settings kept by the back end.
#[derive(Debug)]
pub struct AppSettings {
    pub command_timeout_secs: u64,
}

/// The name of `Duration::from_secs`: the duration of that many seconds.
pub uninterp spec fn duration_from_secs(secs: u64) -> core::time::Duration;

/// `std::time::Duration::from_secs`; its result is named
/// `duration_from_secs`.
#[verifier::external_body]
fn duration_of_secs(secs: u64) -> (d: core::time::Duration)
    ensures
        d == duration_from_secs(secs),
{
    core::time::Duration::from_secs(secs)
}

/// A command timeout clamped to 5..=300 seconds.
pub open spec fn clamped_timeout(t: u64) -> u64 {
    if t < 5 {
        5
    } else if t > 300 {
        300
    } else {
        t
    }
}

/// Normalizing settings twice changes nothing more than normalizing them
/// once, and the timeout it leaves is always within 5..=300 seconds.
pub proof fn law_normalized_idempotent(t: u64)
    ensures
        clamped_timeout(clamped_timeout(t)) == clamped_timeout(t),
        5 <= clamped_timeout(t) <= 300,
{
}

impl AppSettings {
    /// The settings with the command timeout clamped to 5..=300 seconds.
    pub fn normalized(self) -> (r: AppSettings)
        ensures
            r.command_timeout_secs == clamped_timeout(self.command_timeout_secs),
    {
        let t = self.command_timeout_secs;
        let c = if t < 5 {
            5
        } else if t > 300 {
            300
        } else {
            t
        };
        AppSettings { command_timeout_secs: c }
    }

    /// The command timeout.
    pub fn command_timeout(&self) -> (d: core::time::Duration)
        ensures
            d == duration_from_secs(self.command_timeout_secs),
    {
        duration_of_secs(self.command_timeout_secs)
    }
}

/// A value of a connection's `meta` (free-form data the front end keeps on
/// a connection). A number is held as its text.
#[derive(Debug)]
pub enum ConnMetaValue {
    String(String),
    Number(String),
    Bool(bool),
    /// The entries of an object, in the order they were read.
    Object(Vec<(String, ConnMetaValue)>),
    Array(Vec<ConnMetaValue>),
    Null,
}

/// TLS files of a connection.
#[derive(Debug)]
pub struct SslOption {
    pub key: String,
    pub cert: String,
    pub ca: String,
}

/// Sentinel settings of a connection.
#[derive(Debug)]
pub struct SentinelOption {
    pub master_name: String,
    pub master_username: String,
    pub master_password: String,
}

/// SSH tunnel settings of a connection; `login_type` is `pwd` (user name
/// and password) or `pkfile` (private key file).
#[derive(Debug)]
pub struct SshOption {
    pub host: String,
    pub port: u16,
    pub login_type: String,
    pub username: String,
    pub password: String,
    pub pkfile: String,
    pub passphrase: String,
}

/// A saved connection.
#[derive(Debug)]
pub struct ConnConfig {
    pub id: String,
    pub name: String,
    pub host: String,
    pub port: u16,
    pub username: String,
    pub password: String,
    pub db: u16,
    pub cluster: bool,
    pub ssl: bool,
    pub ssl_option: SslOption,
    pub sentinel: bool,
    pub sentinel_option: SentinelOption,
    pub ssh: bool,
    pub ssh_option: SshOption,
    /// The connection's meta entries (groups, command mapping, database
    /// aliases), one per name.
    pub meta: Vec<(String, ConnMetaValue)>,
}

/// The value of the first entry named `key`.
pub open spec fn meta_lookup(meta: Seq<(String, ConnMetaValue)>, key: Seq<char>) -> Option<ConnMetaValue>
    decreases meta.len(),
{
    if meta.len() == 0 {
        None
    } else if meta[0].0@ == key {
        Some(meta[0].1)
    } else {
        meta_lookup(meta.drop_first(), key)
    }
}

/// The command mapping of the entries of `meta.commandMap`, read in order:
/// each entry whose value is a string maps its name, trimmed and in ASCII
/// lower case, to the trimmed string, when neither is empty; a later entry
/// replaces an earlier one for the same command.
pub open spec fn command_entries(obj: Seq<(String, ConnMetaValue)>) -> Map<Seq<char>, Seq<char>>
    decreases obj.len(),
{
    if obj.len() == 0 {
        Map::empty()
    } else {
        let m = command_entries(obj.drop_last());
        let k = ascii_lower_seq(trim(obj.last().0@));
        match obj.last().1 {
            ConnMetaValue::String(mapped) => if k.len() > 0 && trim(mapped@).len() > 0 {
                m.insert(k, trim(mapped@))
            } else {
                m
            },
            _ => m,
        }
    }
}

/// The command mapping of a connection: from `meta.commandMap` when it is
/// an object, else empty.
pub open spec fn command_map_of(meta: Seq<(String, ConnMetaValue)>) -> Map<Seq<char>, Seq<char>> {
    match meta_lookup(meta, "commandMap"@) {
        Some(ConnMetaValue::Object(obj)) => command_entries(obj@),
        _ => Map::empty(),
    }
}

proof fn lemma_ascii_lower_idempotent(s: Seq<char>)
    ensures
        ascii_lower_seq(ascii_lower_seq(s)) == ascii_lower_seq(s),
{
    assert forall|i: int| 0 <= i < s.len() implies #[trigger] ascii_lower(ascii_lower(s[i])) == ascii_lower(
        s[i],
    ) by {
        let c = s[i];
        if 'A' <= c && c <= 'Z' {
            assert(((c as u32) + 32) as char as u32 == (c as u32) + 32);
        }
    }
    assert(ascii_lower_seq(ascii_lower_seq(s)) =~= ascii_lower_seq(s));
}

/// Whether a command mapping is well formed: each command is a non-empty
/// lower-case name and each replacement a non-empty trimmed text.
pub open spec fn mapping_well_formed(m: Map<Seq<char>, Seq<char>>) -> bool {
    forall|k: Seq<char>| #[trigger] m.dom().contains(k) ==> k.len() > 0 && ascii_lower_seq(k) == k
        && m[k].len() > 0 && trim(m[k]) == m[k]
}

/// The command mapping of a connection names each command once, in lower
/// case, and maps it to a non-empty trimmed text.
pub proof fn law_command_map_well_formed(meta: Seq<(String, ConnMetaValue)>)
    ensures
        mapping_well_formed(command_map_of(meta)),
{
    match meta_lookup(meta, "commandMap"@) {
        Some(ConnMetaValue::Object(obj)) => lemma_command_entries_well_formed(obj@),
        _ => {},
    }
}

proof fn lemma_command_entries_well_formed(obj: Seq<(String, ConnMetaValue)>)
    ensures
        mapping_well_formed(command_entries(obj)),
    decreases obj.len(),
{
    if obj.len() > 0 {
        lemma_command_entries_well_formed(obj.drop_last());
        let k = ascii_lower_seq(trim(obj.last().0@));
        lemma_ascii_lower_idempotent(trim(obj.last().0@));
        match obj.last().1 {
            ConnMetaValue::String(mapped) => {
                lemma_trim_idempotent(mapped@);
            },
            _ => {},
        }
    }
}

/// Whether no two pairs have the same name.
pub open spec fn distinct_names(s: Seq<(String, String)>) -> bool {
    forall|i: int, j: int| 0 <= i < j < s.len() ==> #[trigger] s[i].0@ != #[trigger] s[j].0@
}

/// The map of a list of pairs with distinct names.
pub open spec fn pairs_map(s: Seq<(String, String)>) -> Map<Seq<char>, Seq<char>> {
    Map::new(
        |k: Seq<char>| exists|i: int| 0 <= i < s.len() && #[trigger] s[i].0@ == k,
        |k: Seq<char>| s[choose|i: int| 0 <= i < s.len() && #[trigger] s[i].0@ == k].1@,
    )
}

fn find_name(s: &Vec<(String, String)>, k: &String) -> (r: Option<usize>)
    ensures
        match r {
            Some(i) => i < s@.len() && s@[i as int].0@ == k@,
            None => forall|i: int| 0 <= i < s@.len() ==> #[trigger] s@[i].0@ != k@,
        },
{
    let kw = str_to_chars(k.as_str());
    let mut i: usize = 0;
    while i < s.len()
        invariant
            i <= s@.len(),
            kw@ == k@,
            forall|j: int| 0 <= j < i ==> #[trigger] s@[j].0@ != k@,
        decreases s@.len() - i,
    {
        if chars_eq_str(kw.as_slice(), s[i].0.as_str()) {
            return Some(i);
        }
        i += 1;
    }
    None
}

fn put_pair(out: &mut Vec<(String, String)>, k: String, v: String)
    requires
        distinct_names(old(out)@),
    ensures
        distinct_names(final(out)@),
        pairs_map(final(out)@) == pairs_map(old(out)@).insert(k@, v@),
{
    let ghost before = out@;
    let ghost kv = k@;
    let ghost vv = v@;
    match find_name(out, &k) {
        Some(idx) => {
            out.set(idx, (k, v));
            proof {
                let after = out@;
                assert forall|i: int, j: int| 0 <= i < j < after.len() implies #[trigger] after[i].0@
                    != #[trigger] after[j].0@ by {
                    if i != idx && j != idx {
                        assert(before[i].0@ != before[j].0@);
                    } else if i == idx {
                        assert(before[i].0@ != before[j].0@);
                    } else {
                        assert(before[i].0@ != before[j].0@);
                    }
                }
                let want = pairs_map(before).insert(kv, vv);
                assert forall|key: Seq<char>| #[trigger] pairs_map(after).dom().contains(key)
                    <==> want.dom().contains(key) by {
                    if key == kv {
                        assert(after[idx as int].0@ == key);
                    } else if want.dom().contains(key) {
                        let i = choose|i: int| 0 <= i < before.len() && #[trigger] before[i].0@ == key;
                        assert(after[i].0@ == key);
                    } else if pairs_map(after).dom().contains(key) {
                        let i = choose|i: int| 0 <= i < after.len() && #[trigger] after[i].0@ == key;
                        assert(before[i].0@ == key);
                    }
                }
                assert forall|key: Seq<char>| #[trigger] pairs_map(after).dom().contains(key)
                    implies pairs_map(after)[key] == want[key] by {
                    let i = choose|i: int| 0 <= i < after.len() && #[trigger] after[i].0@ == key;
                    if key == kv {
                        assert(after[idx as int].0@ == key);
                    } else {
                        assert(before[i].0@ == key);
                        let j = choose|j: int| 0 <= j < before.len() && #[trigger] before[j].0@ == key;
                        assert(after[j].0@ == key);
                    }
                }
                assert(pairs_map(after) =~= want);
            }
        },
        None => {
            out.push((k, v));
            proof {
                let after = out@;
                assert(after == before.push((k, v)));
                let want = pairs_map(before).insert(kv, vv);
                let last = before.len() as int;
                assert(after[last].0@ == kv);
                assert forall|key: Seq<char>| #[trigger] pairs_map(after).dom().contains(key)
                    <==> want.dom().contains(key) by {
                    if key == kv {
                    } else if want.dom().contains(key) {
                        let i = choose|i: int| 0 <= i < before.len() && #[trigger] before[i].0@ == key;
                        assert(after[i].0@ == key);
                    } else if pairs_map(after).dom().contains(key) {
                        let i = choose|i: int| 0 <= i < after.len() && #[trigger] after[i].0@ == key;
                        assert(before[i].0@ == key);
                    }
                }
                assert forall|key: Seq<char>| #[trigger] pairs_map(after).dom().contains(key)
                    implies pairs_map(after)[key] == want[key] by {
                    let i = choose|i: int| 0 <= i < after.len() && #[trigger] after[i].0@ == key;
                    if key == kv {
                    } else {
                        assert(before[i].0@ == key);
                        let j = choose|j: int| 0 <= j < before.len() && #[trigger] before[j].0@ == key;
                        assert(after[j].0@ == key);
                    }
                }
                assert(pairs_map(after) =~= want);
            }
        },
    }
}

fn lookup_meta<'a>(meta: &'a Vec<(String, ConnMetaValue)>, key: &str) -> (r: Option<&'a ConnMetaValue>)
    ensures
        match meta_lookup(meta@, key@) {
            None => r is None,
            Some(v) => r matches Some(x) && *x == v,
        },
{
    let kw = str_to_chars(key);
    let mut i: usize = 0;
    assert(meta@.skip(0) =~= meta@);
    while i < meta.len()
        invariant
            i <= meta@.len(),
            kw@ == key@,
            meta_lookup(meta@, key@) == meta_lookup(meta@.skip(i as int), key@),
        decreases meta@.len() - i,
    {
        proof {
            assert(meta@.skip(i as int)[0] == meta@[i as int]);
            assert(meta@.skip(i as int).drop_first() =~= meta@.skip(i + 1));
        }
        if chars_eq_str(kw.as_slice(), meta[i].0.as_str()) {
            return Some(&meta[i].1);
        }
        i += 1;
    }
    None
}

impl ConnConfig {
    /// The command mapping of `meta.commandMap`, as pairs with distinct
    /// names: each original command (lower case) with the command sent in
    /// its place.
    pub fn command_map(&self) -> (r: Vec<(String, String)>)
        ensures
            distinct_names(r@),
            pairs_map(r@) == command_map_of(self.meta@),
    {
        let mut out: Vec<(String, String)> = Vec::new();
        assert(pairs_map(out@) =~= Map::<Seq<char>, Seq<char>>::empty());
        proof {
            reveal_strlit("commandMap");
        }
        let obj = match lookup_meta(&self.meta, "commandMap") {
            Some(ConnMetaValue::Object(obj)) => obj,
            _ => {
                return out;
            },
        };
        let mut i: usize = 0;
        assert(obj@.take(0) =~= Seq::<(String, ConnMetaValue)>::empty());
        while i < obj.len()
            invariant
                i <= obj@.len(),
                distinct_names(out@),
                pairs_map(out@) == command_entries(obj@.take(i as int)),
            decreases obj@.len() - i,
        {
            proof {
                assert(obj@.take(i + 1).drop_last() =~= obj@.take(i as int));
                assert(obj@.take(i + 1).last() == obj@[i as int]);
            }
            match &obj[i].1 {
                ConnMetaValue::String(mapped) => {
                    let kw = str_to_chars(obj[i].0.as_str());
                    let kt = trim_chars(kw.as_slice());
                    let cmd = ascii_lower_chars(kt.as_slice());
                    let mw = str_to_chars(mapped.as_str());
                    let mt = trim_chars(mw.as_slice());
                    if cmd.len() > 0 && mt.len() > 0 {
                        put_pair(
                            &mut out,
                            chars_to_string(cmd.as_slice()),
                            chars_to_string(mt.as_slice()),
                        );
                    }
                },
                _ => {},
            }
            i += 1;
        }
        assert(obj@.take(i as int) =~= obj@);
        out
    }
}

/// The export format when none is given: CSV.
pub fn default_export_format() -> (r: String)
    ensures
        r@ == "csv"@,
{
    let mut s = String::new();
    push_str(&mut s, "csv");
    assert(s@ =~= "csv"@);
    s
}

} // verus!
