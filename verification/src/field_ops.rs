//! What the value editor sends for a key: how a new key or new fields are
//! written, how a field is changed or removed, and the error for a key type
//! that the editor does not handle. The inputs are read in the editor's byte
//! format before anything is sent, so that a bad input writes nothing.
use vstd::prelude::*;
use crate::bytes_format::{text_bytes, parse_bytes, BytesError};
use crate::model::{BytesFormat, RedisKey};
use crate::text::{str_to_chars, chars_eq_str, utf8_lossy};
use crate::operations::FieldTtlReply;

verus! {

/// The type of a key as `TYPE` reports it.
#[derive(Debug)]
pub enum KeyKind {
    /// The key does not exist (`none`).
    Absent,
    String,
    List,
    SetOf,
    ZSet,
    Hash,
    Stream,
    Json,
    /// Another type this client knows by name, such as a vector set.
    Named(String),
    /// A type name the client does not know.
    Unknown(String),
}

/// Why the editor cannot work on a key.
#[derive(Debug)]
pub enum FieldError {
    /// An input is not valid in the chosen byte format.
    InvalidInput,
    /// The JSON document is not valid JSON.
    InvalidJson,
    /// The key, given by its bytes, does not exist.
    KeyNotFound(Vec<u8>),
    /// The key has a type that the server reported by an unknown name.
    KeyTypeUnknown(String),
    /// The key has a type that the editor does not handle.
    KeyTypeUnsupported,
    /// The add mode, given by its text, is neither `key` nor `field`.
    OperationNotSupported(String),
    /// Fields of a key of this type are not scanned.
    ScanNotSupported(KeyKind),
    /// The entry named by this text (hash field, list index, member) does
    /// not exist.
    FieldNotFound(String),
    /// The stream has no entry with this id.
    StreamEntryNotFound(String),
    /// A new key was asked for and the key, given by its bytes, already
    /// exists.
    KeyAlreadyExists(Vec<u8>),
}

/// A [`KeyKind`] with its names as character sequences.
pub enum KindView {
    Absent,
    String,
    List,
    SetOf,
    ZSet,
    Hash,
    Stream,
    Json,
    Named(Seq<char>),
    Unknown(Seq<char>),
}

pub open spec fn kind_view(k: KeyKind) -> KindView {
    match k {
        KeyKind::Absent => KindView::Absent,
        KeyKind::String => KindView::String,
        KeyKind::List => KindView::List,
        KeyKind::SetOf => KindView::SetOf,
        KeyKind::ZSet => KindView::ZSet,
        KeyKind::Hash => KindView::Hash,
        KeyKind::Stream => KindView::Stream,
        KeyKind::Json => KindView::Json,
        KeyKind::Named(n) => KindView::Named(n@),
        KeyKind::Unknown(n) => KindView::Unknown(n@),
    }
}

/// A [`FieldError`] with its texts and bytes as sequences.
pub enum ErrorView {
    InvalidInput,
    InvalidJson,
    KeyNotFound(Seq<u8>),
    KeyTypeUnknown(Seq<char>),
    KeyTypeUnsupported,
    OperationNotSupported(Seq<char>),
    ScanNotSupported(KindView),
    FieldNotFound(Seq<char>),
    StreamEntryNotFound(Seq<char>),
    KeyAlreadyExists(Seq<u8>),
}

pub open spec fn error_view(e: FieldError) -> ErrorView {
    match e {
        FieldError::InvalidInput => ErrorView::InvalidInput,
        FieldError::InvalidJson => ErrorView::InvalidJson,
        FieldError::KeyNotFound(k) => ErrorView::KeyNotFound(k@),
        FieldError::KeyTypeUnknown(n) => ErrorView::KeyTypeUnknown(n@),
        FieldError::KeyTypeUnsupported => ErrorView::KeyTypeUnsupported,
        FieldError::OperationNotSupported(m) => ErrorView::OperationNotSupported(m@),
        FieldError::ScanNotSupported(k) => ErrorView::ScanNotSupported(kind_view(k)),
        FieldError::FieldNotFound(n) => ErrorView::FieldNotFound(n@),
        FieldError::StreamEntryNotFound(n) => ErrorView::StreamEntryNotFound(n@),
        FieldError::KeyAlreadyExists(k) => ErrorView::KeyAlreadyExists(k@),
    }
}

/// A copy of a key kind.
pub fn copy_kind(k: &KeyKind) -> (r: KeyKind)
    ensures
        kind_view(r) == kind_view(*k),
{
    match k {
        KeyKind::Absent => KeyKind::Absent,
        KeyKind::String => KeyKind::String,
        KeyKind::List => KeyKind::List,
        KeyKind::SetOf => KeyKind::SetOf,
        KeyKind::ZSet => KeyKind::ZSet,
        KeyKind::Hash => KeyKind::Hash,
        KeyKind::Stream => KeyKind::Stream,
        KeyKind::Json => KeyKind::Json,
        KeyKind::Named(n) => KeyKind::Named(copy_text(n.as_str())),
        KeyKind::Unknown(n) => KeyKind::Unknown(copy_text(n.as_str())),
    }
}

fn copy_text(t: &str) -> (r: String)
    ensures
        r@ == t@,
{
    let mut s = String::new();
    crate::text::push_str(&mut s, t);
    assert(s@ =~= t@);
    s
}

/// A copy of some bytes.
pub(crate) fn copy_bytes(b: &[u8]) -> (r: Vec<u8>)
    ensures
        r@ == b@,
{
    let mut v: Vec<u8> = Vec::new();
    let mut i: usize = 0;
    while i < b.len()
        invariant
            i <= b@.len(),
            v@ == b@.subrange(0, i as int),
        decreases b@.len() - i,
    {
        v.push(b[i]);
        i += 1;
        assert(v@ =~= b@.subrange(0, i as int));
    }
    assert(b@.subrange(0, b@.len() as int) =~= b@);
    v
}

/// The module types that `TYPE` names and this client knows by name
/// (vector sets, Bloom and cuckoo filters, count-min sketches, t-digests,
/// top-k, search tries, time series, Valkey Bloom filters), as the `redis`
/// crate's `ValueType` reads them.
pub open spec fn is_module_type_name(n: Seq<char>) -> bool {
    n == "vectorset"@ || n == "CMSk-TYPE"@ || n == "MBbloom--"@ || n == "MBbloomCF"@ || n == "TDIS-TYPE"@ || n == "TopK-TYPE"@ || n == "trietype0"@ || n == "TSDB-TYPE"@ || n == "bloomfltr"@
}

/// Whether a name is one of the core type names `TYPE` replies with
/// (`none`, `string`, `list`, `set`, `zset`, `hash`, `stream`) or the JSON
/// module's `ReJSON-RL`.
pub open spec fn is_core_type_name(n: Seq<char>) -> bool {
    n == "none"@ || n == "string"@ || n == "list"@ || n == "set"@ || n == "zset"@ || n == "hash"@ || n == "stream"@ || n == "ReJSON-RL"@
}

/// The kind of a key from the name `TYPE` replied with: the core names and
/// `ReJSON-RL` give their kinds, the module names that the `redis` crate
/// knows give `Named`, and any other name `Unknown`.
pub fn key_kind_of_type_name(name: &str) -> (r: KeyKind)
    ensures
        name@ == "none"@ ==> r is Absent,
        name@ == "string"@ ==> r is String,
        name@ == "list"@ ==> r is List,
        name@ == "set"@ ==> r is SetOf,
        name@ == "zset"@ ==> r is ZSet,
        name@ == "hash"@ ==> r is Hash,
        name@ == "stream"@ ==> r is Stream,
        name@ == "ReJSON-RL"@ ==> r is Json,
        is_module_type_name(name@) ==> (r matches KeyKind::Named(x) && x@ == name@),
        !is_core_type_name(name@) && !is_module_type_name(name@) ==> (r matches KeyKind::Unknown(x) && x@ == name@),
{
    proof {
        reveal_strlit("none");
        reveal_strlit("string");
        reveal_strlit("list");
        reveal_strlit("set");
        reveal_strlit("zset");
        reveal_strlit("hash");
        reveal_strlit("stream");
        reveal_strlit("ReJSON-RL");
        reveal_strlit("vectorset");
        reveal_strlit("CMSk-TYPE");
        reveal_strlit("MBbloom--");
        reveal_strlit("MBbloomCF");
        reveal_strlit("TDIS-TYPE");
        reveal_strlit("TopK-TYPE");
        reveal_strlit("trietype0");
        reveal_strlit("TSDB-TYPE");
        reveal_strlit("bloomfltr");
        assert("none"@[0] != "list"@[0]);
        assert("none"@[0] != "zset"@[0]);
        assert("none"@[0] != "hash"@[0]);
        assert("string"@[3] != "stream"@[3]);
        assert("list"@[0] != "zset"@[0]);
        assert("list"@[0] != "hash"@[0]);
        assert("zset"@[0] != "hash"@[0]);
        assert("ReJSON-RL"@[0] != "vectorset"@[0]);
        assert("ReJSON-RL"@[0] != "CMSk-TYPE"@[0]);
        assert("ReJSON-RL"@[0] != "MBbloom--"@[0]);
        assert("ReJSON-RL"@[0] != "MBbloomCF"@[0]);
        assert("ReJSON-RL"@[0] != "TDIS-TYPE"@[0]);
        assert("ReJSON-RL"@[0] != "TopK-TYPE"@[0]);
        assert("ReJSON-RL"@[0] != "trietype0"@[0]);
        assert("ReJSON-RL"@[0] != "TSDB-TYPE"@[0]);
        assert("ReJSON-RL"@[0] != "bloomfltr"@[0]);
        assert("vectorset"@[0] != "CMSk-TYPE"@[0]);
        assert("vectorset"@[0] != "MBbloom--"@[0]);
        assert("vectorset"@[0] != "MBbloomCF"@[0]);
        assert("vectorset"@[0] != "TDIS-TYPE"@[0]);
        assert("vectorset"@[0] != "TopK-TYPE"@[0]);
        assert("vectorset"@[0] != "trietype0"@[0]);
        assert("vectorset"@[0] != "TSDB-TYPE"@[0]);
        assert("vectorset"@[0] != "bloomfltr"@[0]);
        assert("CMSk-TYPE"@[0] != "MBbloom--"@[0]);
        assert("CMSk-TYPE"@[0] != "MBbloomCF"@[0]);
        assert("CMSk-TYPE"@[0] != "TDIS-TYPE"@[0]);
        assert("CMSk-TYPE"@[0] != "TopK-TYPE"@[0]);
        assert("CMSk-TYPE"@[0] != "trietype0"@[0]);
        assert("CMSk-TYPE"@[0] != "TSDB-TYPE"@[0]);
        assert("CMSk-TYPE"@[0] != "bloomfltr"@[0]);
        assert("MBbloom--"@[7] != "MBbloomCF"@[7]);
        assert("MBbloom--"@[0] != "TDIS-TYPE"@[0]);
        assert("MBbloom--"@[0] != "TopK-TYPE"@[0]);
        assert("MBbloom--"@[0] != "trietype0"@[0]);
        assert("MBbloom--"@[0] != "TSDB-TYPE"@[0]);
        assert("MBbloom--"@[0] != "bloomfltr"@[0]);
        assert("MBbloomCF"@[0] != "TDIS-TYPE"@[0]);
        assert("MBbloomCF"@[0] != "TopK-TYPE"@[0]);
        assert("MBbloomCF"@[0] != "trietype0"@[0]);
        assert("MBbloomCF"@[0] != "TSDB-TYPE"@[0]);
        assert("MBbloomCF"@[0] != "bloomfltr"@[0]);
        assert("TDIS-TYPE"@[1] != "TopK-TYPE"@[1]);
        assert("TDIS-TYPE"@[0] != "trietype0"@[0]);
        assert("TDIS-TYPE"@[1] != "TSDB-TYPE"@[1]);
        assert("TDIS-TYPE"@[0] != "bloomfltr"@[0]);
        assert("TopK-TYPE"@[0] != "trietype0"@[0]);
        assert("TopK-TYPE"@[1] != "TSDB-TYPE"@[1]);
        assert("TopK-TYPE"@[0] != "bloomfltr"@[0]);
        assert("trietype0"@[0] != "TSDB-TYPE"@[0]);
        assert("trietype0"@[0] != "bloomfltr"@[0]);
        assert("TSDB-TYPE"@[0] != "bloomfltr"@[0]);
    }
    let w = str_to_chars(name);
    let mut t = String::new();
    crate::text::push_str(&mut t, name);
    assert(t@ =~= name@);
    if chars_eq_str(w.as_slice(), "none") {
        KeyKind::Absent
    } else if chars_eq_str(w.as_slice(), "string") {
        KeyKind::String
    } else if chars_eq_str(w.as_slice(), "list") {
        KeyKind::List
    } else if chars_eq_str(w.as_slice(), "set") {
        KeyKind::SetOf
    } else if chars_eq_str(w.as_slice(), "zset") {
        KeyKind::ZSet
    } else if chars_eq_str(w.as_slice(), "hash") {
        KeyKind::Hash
    } else if chars_eq_str(w.as_slice(), "stream") {
        KeyKind::Stream
    } else if chars_eq_str(w.as_slice(), "ReJSON-RL") {
        KeyKind::Json
    } else if chars_eq_str(w.as_slice(), "vectorset") || chars_eq_str(w.as_slice(), "CMSk-TYPE") || chars_eq_str(w.as_slice(), "MBbloom--") || chars_eq_str(w.as_slice(), "MBbloomCF") || chars_eq_str(w.as_slice(), "TDIS-TYPE") || chars_eq_str(w.as_slice(), "TopK-TYPE") || chars_eq_str(w.as_slice(), "trietype0") || chars_eq_str(w.as_slice(), "TSDB-TYPE") || chars_eq_str(w.as_slice(), "bloomfltr") {
        KeyKind::Named(t)
    } else {
        KeyKind::Unknown(t)
    }
}

/// The error for a key whose type the editor does not handle: an unknown
/// type named `none` means the key is gone.
pub open spec fn type_error(kind: KeyKind, key: Seq<u8>) -> ErrorView {
    match kind {
        KeyKind::Unknown(name) => if name@ == "none"@ {
            ErrorView::KeyNotFound(key)
        } else {
            ErrorView::KeyTypeUnknown(name@)
        },
        _ => ErrorView::KeyTypeUnsupported,
    }
}

/// The error for a key, given by its bytes, whose type the editor does not
/// handle.
pub fn other_type_error(kind: KeyKind, key: &[u8]) -> (r: FieldError)
    ensures
        error_view(r) == type_error(kind, key@),
{
    proof {
        reveal_strlit("none");
    }
    match kind {
        KeyKind::Unknown(name) => {
            let w = str_to_chars(name.as_str());
            if chars_eq_str(w.as_slice(), "none") {
                FieldError::KeyNotFound(copy_bytes(key))
            } else {
                FieldError::KeyTypeUnknown(name)
            }
        },
        _ => FieldError::KeyTypeUnsupported,
    }
}

/// The name of what `serde_json::from_str::<serde_json::Value>` decides:
/// whether a text is one JSON value.
pub uninterp spec fn json_valid(text: Seq<char>) -> bool;

/// Whether `serde_json::from_str::<serde_json::Value>` accepts the text.
/// Its result is named `json_valid`.
#[verifier::external_body]
pub(crate) fn json_accepts(text: &str) -> (r: bool)
    ensures
        r == json_valid(text@),
{
    serde_json::from_str::<serde_json::Value>(text).is_ok()
}

/// One row of the add form: a field name (hash, stream), a value, a field
/// TTL in seconds (hash) and a score (sorted set), the score as the text
/// that is sent to the server.
#[derive(Debug)]
pub struct FieldInput {
    pub field_key: String,
    pub field_value: String,
    pub field_ttl: i64,
    pub field_score: String,
}

/// Whether a new key is created or fields are added to an existing key.
#[derive(Debug, Clone, Copy, PartialEq, Eq, Structural)]
pub enum AddMode {
    NewKey,
    NewFields,
}

/// The add mode named `key` or `field`.
pub fn field_add_mode(mode: &str) -> (r: Result<AddMode, FieldError>)
    ensures
        mode@ == "key"@ ==> r matches Ok(AddMode::NewKey),
        mode@ == "field"@ ==> r matches Ok(AddMode::NewFields),
        mode@ != "key"@ && mode@ != "field"@ ==> (r matches Err(FieldError::OperationNotSupported(m)) && m@ == mode@),
{
    let w = str_to_chars(mode);
    proof {
        reveal_strlit("key");
        reveal_strlit("field");
        assert("field"@ != "key"@) by {
            assert("field"@.len() != "key"@.len());
        }
    }
    if chars_eq_str(w.as_slice(), "key") {
        Ok(AddMode::NewKey)
    } else if chars_eq_str(w.as_slice(), "field") {
        Ok(AddMode::NewFields)
    } else {
        Err(FieldError::OperationNotSupported(copy_text(mode)))
    }
}

/// Whether adding may go on once `EXISTS` has answered for the key: a new
/// key must not exist yet; fields are added to whatever exists. The key is
/// given by its bytes.
pub fn field_add_key_check(mode: AddMode, exists: bool, key: &[u8]) -> (r: Result<(), FieldError>)
    ensures
        mode == AddMode::NewKey && exists ==> (r matches Err(FieldError::KeyAlreadyExists(k)) && k@ == key@),
        !(mode == AddMode::NewKey && exists) ==> r is Ok,
{
    if mode == AddMode::NewKey && exists {
        Err(FieldError::KeyAlreadyExists(copy_bytes(key)))
    } else {
        Ok(())
    }
}

/// Whether adding sets an expiry on the key afterwards: only a new key with
/// a positive TTL gets one.
pub fn field_add_expires(mode: AddMode, ttl: i64) -> (r: bool)
    ensures
        r == (mode == AddMode::NewKey && ttl > 0),
{
    mode == AddMode::NewKey && ttl > 0
}

/// The key that adding works on: a key typed by the user (no bytes) is its
/// text read in the key format; a key read from the server keeps its bytes.
pub fn field_add_key(key: RedisKey, key_fmt: BytesFormat) -> (r: Result<RedisKey, FieldError>)
    ensures
        key.bytes@.len() == 0 ==> match text_bytes(key.key@, key_fmt) {
            None => r matches Err(FieldError::InvalidInput),
            Some(b) => r matches Ok(k) && k.bytes@ == b && k.key@ == utf8_lossy(b),
        },
        key.bytes@.len() != 0 ==> r == Ok::<RedisKey, FieldError>(key),
{
    if key.bytes.len() == 0 {
        match parse_bytes(key.key.as_str(), key_fmt) {
            Ok(b) => Ok(RedisKey::from_bytes(b)),
            Err(_) => Err(FieldError::InvalidInput),
        }
    } else {
        Ok(key)
    }
}

/// The values of the rows read as bytes, or `None` when one cannot be read.
pub open spec fn parse_values(fs: Seq<FieldInput>, fmt: BytesFormat) -> Option<Seq<Seq<u8>>>
    decreases fs.len(),
{
    if fs.len() == 0 {
        Some(Seq::empty())
    } else {
        match parse_values(fs.drop_last(), fmt) {
            None => None,
            Some(vs) => match text_bytes(fs.last().field_value@, fmt) {
                None => None,
                Some(v) => Some(vs.push(v)),
            },
        }
    }
}

/// The field names and values of the rows read as bytes, or `None` when
/// one cannot be read.
pub open spec fn parse_pairs(fs: Seq<FieldInput>, fmt: BytesFormat) -> Option<Seq<(Seq<u8>, Seq<u8>)>>
    decreases fs.len(),
{
    if fs.len() == 0 {
        Some(Seq::empty())
    } else {
        match parse_pairs(fs.drop_last(), fmt) {
            None => None,
            Some(ps) => match text_bytes(fs.last().field_key@, fmt) {
                None => None,
                Some(k) => match text_bytes(fs.last().field_value@, fmt) {
                    None => None,
                    Some(v) => Some(ps.push((k, v))),
                },
            },
        }
    }
}

/// What adding writes.
#[derive(Debug)]
pub enum FieldAddOp {
    /// `SET` of the value.
    SetValue(Vec<u8>),
    /// `HSET` of the pairs, then each positive TTL as the field's expiry.
    HashSet(Vec<(Vec<u8>, Vec<u8>)>, Vec<i64>),
    /// `LPUSH` (when `true`) or `RPUSH` of the elements, in this order.
    Push(bool, Vec<Vec<u8>>),
    /// `SADD` of the members.
    SetAdd(Vec<Vec<u8>>),
    /// `ZADD` of the members, each with the score of its row (the scores in
    /// the same order).
    ZSetAdd(Vec<Vec<u8>>, Vec<String>),
    /// `XADD` of the pairs under the given id.
    StreamAdd(Vec<(Vec<u8>, Vec<u8>)>),
    /// `JSON.SET key $` of the document.
    JsonSet(String),
}

/// What adding writes, with byte strings as sequences.
pub enum AddSpec {
    SetValue(Seq<u8>),
    HashSet(Seq<(Seq<u8>, Seq<u8>)>, Seq<i64>),
    Push(bool, Seq<Seq<u8>>),
    SetAdd(Seq<Seq<u8>>),
    ZSetAdd(Seq<Seq<u8>>, Seq<Seq<char>>),
    StreamAdd(Seq<(Seq<u8>, Seq<u8>)>),
    JsonSet(Seq<char>),
}

pub open spec fn add_view(op: FieldAddOp) -> AddSpec {
    match op {
        FieldAddOp::SetValue(v) => AddSpec::SetValue(v@),
        FieldAddOp::HashSet(p, t) => AddSpec::HashSet(p.deep_view(), t@),
        FieldAddOp::Push(l, e) => AddSpec::Push(l, e.deep_view()),
        FieldAddOp::SetAdd(m) => AddSpec::SetAdd(m.deep_view()),
        FieldAddOp::ZSetAdd(m, sc) => AddSpec::ZSetAdd(m.deep_view(), sc.deep_view()),
        FieldAddOp::StreamAdd(p) => AddSpec::StreamAdd(p.deep_view()),
        FieldAddOp::JsonSet(d) => AddSpec::JsonSet(d@),
    }
}

/// The field TTLs of the rows.
pub open spec fn row_ttls(fs: Seq<FieldInput>) -> Seq<i64> {
    Seq::new(fs.len(), |i: int| fs[i].field_ttl)
}

/// What adding writes for a key of a type: the string value, the hash
/// pairs with their TTLs, the list elements (reversed for `lpush`, so that
/// the list reads in the order of the rows), the set or sorted set members,
/// the stream pairs, or a valid JSON document.
pub open spec fn add_op_of(kind: KeyKind, value: Seq<char>, fs: Seq<FieldInput>, fmt: BytesFormat, lpush: bool, key: Seq<u8>) -> Result<AddSpec, ErrorView> {
    match kind {
        KeyKind::String => match text_bytes(value, fmt) {
            None => Err(ErrorView::InvalidInput),
            Some(v) => Ok(AddSpec::SetValue(v)),
        },
        KeyKind::Hash => match parse_pairs(fs, fmt) {
            None => Err(ErrorView::InvalidInput),
            Some(ps) => Ok(AddSpec::HashSet(ps, row_ttls(fs))),
        },
        KeyKind::List => match parse_values(fs, fmt) {
            None => Err(ErrorView::InvalidInput),
            Some(vs) => Ok(AddSpec::Push(lpush, if lpush { vs.reverse() } else { vs })),
        },
        KeyKind::SetOf => match parse_values(fs, fmt) {
            None => Err(ErrorView::InvalidInput),
            Some(vs) => Ok(AddSpec::SetAdd(vs)),
        },
        KeyKind::ZSet => match parse_values(fs, fmt) {
            None => Err(ErrorView::InvalidInput),
            Some(vs) => Ok(AddSpec::ZSetAdd(vs, row_scores(fs))),
        },
        KeyKind::Stream => match parse_pairs(fs, fmt) {
            None => Err(ErrorView::InvalidInput),
            Some(ps) => Ok(AddSpec::StreamAdd(ps)),
        },
        KeyKind::Json => if json_valid(value) {
            Ok(AddSpec::JsonSet(value))
        } else {
            Err(ErrorView::InvalidJson)
        },
        _ => Err(type_error(kind, key)),
    }
}

fn read_values(fs: &Vec<FieldInput>, fmt: BytesFormat) -> (r: Option<Vec<Vec<u8>>>)
    ensures
        match parse_values(fs@, fmt) {
            None => r is None,
            Some(vs) => r matches Some(v) && v.deep_view() == vs,
        },
{
    let mut out: Vec<Vec<u8>> = Vec::new();
    let mut i: usize = 0;
    assert(fs@.take(0) =~= Seq::<FieldInput>::empty());
    assert(out.deep_view() =~= Seq::<Seq<u8>>::empty());
    while i < fs.len()
        invariant
            i <= fs@.len(),
            parse_values(fs@.take(i as int), fmt) matches Some(vs) && out.deep_view() == vs,
        decreases fs@.len() - i,
    {
        proof {
            assert(fs@.take(i + 1).drop_last() =~= fs@.take(i as int));
            assert(fs@.take(i + 1).last() == fs@[i as int]);
        }
        match parse_bytes(fs[i].field_value.as_str(), fmt) {
            Err(_) => {
                proof {
                    lemma_values_none_stays(fs@, i as int + 1, fmt);
                }
                return None;
            },
            Ok(b) => {
                let ghost before = out.deep_view();
                let ghost bv = b@;
                let ghost idx = out@.len() as int;
                out.push(b);
                proof {
                    assert(out@[idx].deep_view() =~= bv);
                    assert(out.deep_view() =~= before.push(bv));
                }
            },
        }
        i += 1;
    }
    assert(fs@.take(i as int) =~= fs@);
    Some(out)
}

proof fn lemma_values_none_stays(fs: Seq<FieldInput>, n: int, fmt: BytesFormat)
    requires
        0 <= n <= fs.len(),
        parse_values(fs.take(n), fmt) is None,
    ensures
        parse_values(fs, fmt) is None,
    decreases fs.len() - n,
{
    if n < fs.len() {
        assert(fs.take(n + 1).drop_last() =~= fs.take(n));
        lemma_values_none_stays(fs, n + 1, fmt);
    } else {
        assert(fs.take(n) =~= fs);
    }
}

proof fn lemma_pairs_none_stays(fs: Seq<FieldInput>, n: int, fmt: BytesFormat)
    requires
        0 <= n <= fs.len(),
        parse_pairs(fs.take(n), fmt) is None,
    ensures
        parse_pairs(fs, fmt) is None,
    decreases fs.len() - n,
{
    if n < fs.len() {
        assert(fs.take(n + 1).drop_last() =~= fs.take(n));
        lemma_pairs_none_stays(fs, n + 1, fmt);
    } else {
        assert(fs.take(n) =~= fs);
    }
}

fn read_pairs(fs: &Vec<FieldInput>, fmt: BytesFormat) -> (r: Option<Vec<(Vec<u8>, Vec<u8>)>>)
    ensures
        match parse_pairs(fs@, fmt) {
            None => r is None,
            Some(ps) => r matches Some(v) && v.deep_view() == ps,
        },
{
    let mut out: Vec<(Vec<u8>, Vec<u8>)> = Vec::new();
    let mut i: usize = 0;
    assert(fs@.take(0) =~= Seq::<FieldInput>::empty());
    assert(out.deep_view() =~= Seq::<(Seq<u8>, Seq<u8>)>::empty());
    while i < fs.len()
        invariant
            i <= fs@.len(),
            parse_pairs(fs@.take(i as int), fmt) matches Some(ps) && out.deep_view() == ps,
        decreases fs@.len() - i,
    {
        proof {
            assert(fs@.take(i + 1).drop_last() =~= fs@.take(i as int));
            assert(fs@.take(i + 1).last() == fs@[i as int]);
        }
        let k = match parse_bytes(fs[i].field_key.as_str(), fmt) {
            Err(_) => {
                proof {
                    lemma_pairs_none_stays(fs@, i as int + 1, fmt);
                }
                return None;
            },
            Ok(k) => k,
        };
        let v = match parse_bytes(fs[i].field_value.as_str(), fmt) {
            Err(_) => {
                proof {
                    lemma_pairs_none_stays(fs@, i as int + 1, fmt);
                }
                return None;
            },
            Ok(v) => v,
        };
        let ghost before = out.deep_view();
        let ghost kv = k@;
        let ghost vv = v@;
        let ghost idx = out@.len() as int;
        out.push((k, v));
        proof {
            assert(out@[idx].0.deep_view() =~= kv);
            assert(out@[idx].1.deep_view() =~= vv);
            assert(out.deep_view() =~= before.push((kv, vv)));
        }
        i += 1;
    }
    assert(fs@.take(i as int) =~= fs@);
    Some(out)
}

/// The score texts of the rows.
pub open spec fn row_scores(fs: Seq<FieldInput>) -> Seq<Seq<char>> {
    Seq::new(fs.len(), |i: int| fs[i].field_score@)
}

fn scores_of(fs: &Vec<FieldInput>) -> (r: Vec<String>)
    ensures
        r.deep_view() == row_scores(fs@),
{
    let mut out: Vec<String> = Vec::new();
    let mut i: usize = 0;
    while i < fs.len()
        invariant
            i <= fs@.len(),
            out.deep_view() =~= Seq::new(i as nat, |k: int| fs@[k].field_score@),
        decreases fs@.len() - i,
    {
        let mut t = String::new();
        crate::text::push_str(&mut t, fs[i].field_score.as_str());
        assert(t@ =~= fs@[i as int].field_score@);
        let ghost before = out.deep_view();
        out.push(t);
        assert(out.deep_view() =~= before.push(fs@[i as int].field_score@));
        i += 1;
    }
    out
}

fn ttls_of(fs: &Vec<FieldInput>) -> (r: Vec<i64>)
    ensures
        r@ == row_ttls(fs@),
{
    let mut out: Vec<i64> = Vec::new();
    let mut i: usize = 0;
    while i < fs.len()
        invariant
            i <= fs@.len(),
            out@ == Seq::new(i as nat, |k: int| fs@[k].field_ttl),
        decreases fs@.len() - i,
    {
        out.push(fs[i].field_ttl);
        i += 1;
        assert(out@ =~= Seq::new(i as nat, |k: int| fs@[k].field_ttl));
    }
    out
}

fn reversed(v: Vec<Vec<u8>>) -> (r: Vec<Vec<u8>>)
    ensures
        r.deep_view() == v.deep_view().reverse(),
{
    let ghost all = v.deep_view();
    let mut v = v;
    let mut out: Vec<Vec<u8>> = Vec::new();
    let n = v.len();
    while v.len() > 0
        invariant
            v@.len() <= n,
            n == all.len(),
            v.deep_view() == all.take(v@.len() as int),
            out.deep_view() == all.reverse().take(n - v@.len()),
        decreases v@.len(),
    {
        let ghost k = v@.len();
        let ghost old_v = v@;
        let ghost old_dv = v.deep_view();
        let x = v.pop().unwrap();
        proof {
            assert(x == old_v[k - 1]);
            assert(old_dv[k - 1] == old_v[k - 1].deep_view());
            assert(all.take(k as int)[k - 1] == all[k - 1]);
            assert(x.deep_view() == all[k - 1]);
            assert(v.deep_view() =~= all.take(k - 1));
        }
        let ghost before = out.deep_view();
        let ghost xv = x.deep_view();
        out.push(x);
        proof {
            assert(out@[before.len() as int].deep_view() == xv);
            assert(out.deep_view() =~= before.push(xv));
            assert(all.reverse().take(n - (k - 1)) =~= all.reverse().take(n - k).push(all[k - 1]));
        }
    }
    assert(all.reverse().take(n as int) =~= all.reverse());
    out
}

/// What adding writes for a key of the given type.
pub fn field_add_op(kind: KeyKind, value: &str, fields: &Vec<FieldInput>, val_fmt: BytesFormat, list_push_method: &str, key: &[u8]) -> (r: Result<FieldAddOp, FieldError>)
    ensures
        match add_op_of(kind, value@, fields@, val_fmt, list_push_method@ == "lpush"@, key@) {
            Err(e) => r matches Err(x) && error_view(x) == e,
            Ok(op) => r matches Ok(o) && add_view(o) == op,
        },
{
    match kind {
        KeyKind::String => match parse_bytes(value, val_fmt) {
            Ok(v) => Ok(FieldAddOp::SetValue(v)),
            Err(_) => Err(FieldError::InvalidInput),
        },
        KeyKind::Hash => match read_pairs(fields, val_fmt) {
            Some(ps) => Ok(FieldAddOp::HashSet(ps, ttls_of(fields))),
            None => Err(FieldError::InvalidInput),
        },
        KeyKind::List => match read_values(fields, val_fmt) {
            Some(vs) => {
                let w = str_to_chars(list_push_method);
                let lpush = chars_eq_str(w.as_slice(), "lpush");
                if lpush {
                    Ok(FieldAddOp::Push(true, reversed(vs)))
                } else {
                    Ok(FieldAddOp::Push(false, vs))
                }
            },
            None => Err(FieldError::InvalidInput),
        },
        KeyKind::SetOf => match read_values(fields, val_fmt) {
            Some(vs) => Ok(FieldAddOp::SetAdd(vs)),
            None => Err(FieldError::InvalidInput),
        },
        KeyKind::ZSet => match read_values(fields, val_fmt) {
            Some(vs) => Ok(FieldAddOp::ZSetAdd(vs, scores_of(fields))),
            None => Err(FieldError::InvalidInput),
        },
        KeyKind::Stream => match read_pairs(fields, val_fmt) {
            Some(ps) => Ok(FieldAddOp::StreamAdd(ps)),
            None => Err(FieldError::InvalidInput),
        },
        KeyKind::Json => {
            if json_accepts(value) {
                let mut d = String::new();
                crate::text::push_str(&mut d, value);
                assert(d@ =~= value@);
                Ok(FieldAddOp::JsonSet(d))
            } else {
                Err(FieldError::InvalidJson)
            }
        },
        _ => Err(other_type_error(kind, key)),
    }
}

/// What happens to a hash field's expiry when its value is written with
/// `HSET`, which clears it.
#[derive(Debug, Clone, Copy, PartialEq, Eq, Structural)]
pub enum FieldExpiry {
    /// The field is left without expiry.
    Clear,
    /// `HEXPIRE` with this many seconds afterwards.
    SetTtl(i64),
    /// The field's expiry is read before the write (`HPEXPIRETIME`) and put
    /// back after it (`HPEXPIREAT`), see [`kept_field_expiry`].
    Keep,
}

/// What changing one entry of a key sends.
#[derive(Debug)]
pub enum FieldSetOp {
    /// `HSET` of the field, and what becomes of its expiry.
    HashSet(Vec<u8>, Vec<u8>, FieldExpiry),
    /// `LSET` of the element at the row's index.
    ListSet(Vec<u8>),
    /// `SREM` of the old member, then `SADD` of the new one.
    SetReplace(Vec<u8>, Vec<u8>),
    /// `ZREM` of the old member, then `ZADD` of the new one with the row's
    /// score.
    ZSetReplace(Vec<u8>, Vec<u8>),
}

/// What changing one entry sends, with byte strings as sequences.
pub enum SetSpec {
    HashSet(Seq<u8>, Seq<u8>, FieldExpiry),
    ListSet(Seq<u8>),
    SetReplace(Seq<u8>, Seq<u8>),
    ZSetReplace(Seq<u8>, Seq<u8>),
}

pub open spec fn set_view(op: FieldSetOp) -> SetSpec {
    match op {
        FieldSetOp::HashSet(k, v, e) => SetSpec::HashSet(k@, v@, e),
        FieldSetOp::ListSet(v) => SetSpec::ListSet(v@),
        FieldSetOp::SetReplace(a, b) => SetSpec::SetReplace(a@, b@),
        FieldSetOp::ZSetReplace(a, b) => SetSpec::ZSetReplace(a@, b@),
    }
}

/// The edited entry of a key.
#[derive(Debug)]
pub struct FieldEdit {
    /// The hash field.
    pub field_key: String,
    /// The new value (hash, list) or member (set, sorted set).
    pub field_value: String,
    /// The member being replaced (set, sorted set).
    pub src_field_value: String,
    /// The field's TTL in seconds (hash), as edited.
    pub field_ttl: i64,
    /// Whether field TTLs were loaded and edited; when not, saving keeps the
    /// field's existing expiry.
    pub include_field_ttl: bool,
}

/// The expiry of a hash field after saving: on a server without field TTLs
/// there is none; when TTLs were edited, the edited TTL when positive, else
/// none; when TTLs were not loaded, the field keeps the expiry it had.
pub open spec fn field_expiry_of(e: FieldEdit, httl_supported: bool) -> FieldExpiry {
    if !httl_supported {
        FieldExpiry::Clear
    } else if !e.include_field_ttl {
        FieldExpiry::Keep
    } else if e.field_ttl > 0 {
        FieldExpiry::SetTtl(e.field_ttl)
    } else {
        FieldExpiry::Clear
    }
}

/// What changing one entry sends for a key of a type.
pub open spec fn set_op_of(kind: KeyKind, e: FieldEdit, fmt: BytesFormat, httl_supported: bool, key: Seq<u8>) -> Result<SetSpec, ErrorView> {
    match kind {
        KeyKind::Hash => match (text_bytes(e.field_key@, fmt), text_bytes(e.field_value@, fmt)) {
            (Some(k), Some(v)) => Ok(SetSpec::HashSet(k, v, field_expiry_of(e, httl_supported))),
            _ => Err(ErrorView::InvalidInput),
        },
        KeyKind::List => match text_bytes(e.field_value@, fmt) {
            Some(v) => Ok(SetSpec::ListSet(v)),
            None => Err(ErrorView::InvalidInput),
        },
        KeyKind::SetOf => match (text_bytes(e.src_field_value@, fmt), text_bytes(e.field_value@, fmt)) {
            (Some(a), Some(b)) => Ok(SetSpec::SetReplace(a, b)),
            _ => Err(ErrorView::InvalidInput),
        },
        KeyKind::ZSet => match (text_bytes(e.src_field_value@, fmt), text_bytes(e.field_value@, fmt)) {
            (Some(a), Some(b)) => Ok(SetSpec::ZSetReplace(a, b)),
            _ => Err(ErrorView::InvalidInput),
        },
        _ => Err(type_error(kind, key)),
    }
}

fn field_expiry(edit: &FieldEdit, httl_supported: bool) -> (r: FieldExpiry)
    ensures
        r == field_expiry_of(*edit, httl_supported),
{
    if !httl_supported {
        FieldExpiry::Clear
    } else if !edit.include_field_ttl {
        FieldExpiry::Keep
    } else if edit.field_ttl > 0 {
        FieldExpiry::SetTtl(edit.field_ttl)
    } else {
        FieldExpiry::Clear
    }
}

/// For [`FieldExpiry::Keep`]: the field's expiry time read before the write
/// (`HPEXPIRETIME`, Unix milliseconds), to put back with `HPEXPIREAT` after
/// it; nothing when the field had no expiry or did not exist.
pub fn kept_field_expiry(reply: Option<FieldTtlReply>) -> (r: Option<i64>)
    ensures
        r == match reply {
            Some(FieldTtlReply::Ttl(t)) => if t > 0 { Some(t) } else { None::<i64> },
            _ => None::<i64>,
        },
{
    match reply {
        Some(FieldTtlReply::Ttl(t)) => if t > 0 { Some(t) } else { None },
        _ => None,
    }
}

fn read_two(a: &str, b: &str, fmt: BytesFormat) -> (r: Option<(Vec<u8>, Vec<u8>)>)
    ensures
        match (text_bytes(a@, fmt), text_bytes(b@, fmt)) {
            (Some(x), Some(y)) => r matches Some((u, v)) && u@ == x && v@ == y,
            _ => r is None,
        },
{
    match parse_bytes(a, fmt) {
        Err(_) => None,
        Ok(x) => match parse_bytes(b, fmt) {
            Err(_) => None,
            Ok(y) => Some((x, y)),
        },
    }
}

/// What changing one entry of a key of the given type sends.
pub fn field_set_op(kind: KeyKind, edit: &FieldEdit, val_fmt: BytesFormat, httl_supported: bool, key: &[u8]) -> (r: Result<FieldSetOp, FieldError>)
    ensures
        match set_op_of(kind, *edit, val_fmt, httl_supported, key@) {
            Err(e) => r matches Err(x) && error_view(x) == e,
            Ok(op) => r matches Ok(o) && set_view(o) == op,
        },
{
    match kind {
        KeyKind::Hash => match read_two(edit.field_key.as_str(), edit.field_value.as_str(), val_fmt) {
            Some((k, v)) => Ok(FieldSetOp::HashSet(k, v, field_expiry(edit, httl_supported))),
            None => Err(FieldError::InvalidInput),
        },
        KeyKind::List => match parse_bytes(edit.field_value.as_str(), val_fmt) {
            Ok(v) => Ok(FieldSetOp::ListSet(v)),
            Err(_) => Err(FieldError::InvalidInput),
        },
        KeyKind::SetOf => match read_two(edit.src_field_value.as_str(), edit.field_value.as_str(), val_fmt) {
            Some((a, b)) => Ok(FieldSetOp::SetReplace(a, b)),
            None => Err(FieldError::InvalidInput),
        },
        KeyKind::ZSet => match read_two(edit.src_field_value.as_str(), edit.field_value.as_str(), val_fmt) {
            Some((a, b)) => Ok(FieldSetOp::ZSetReplace(a, b)),
            None => Err(FieldError::InvalidInput),
        },
        _ => Err(other_type_error(kind, key)),
    }
}

/// What removing one entry of a key sends.
#[derive(Debug)]
pub enum FieldDelOp {
    /// `HDEL` of the field.
    HashDel(Vec<u8>),
    /// The element at the row's index is overwritten with a marker, then
    /// one marker is removed (`LSET` and `LREM`).
    ListRemoveAt,
    /// `SREM` of the member.
    SetRemove(Vec<u8>),
    /// `ZREM` of the member.
    ZSetRemove(Vec<u8>),
    /// `XDEL` of the row's entry id.
    StreamDel,
}

/// What removing one entry sends, with byte strings as sequences.
pub enum DelSpec {
    HashDel(Seq<u8>),
    ListRemoveAt,
    SetRemove(Seq<u8>),
    ZSetRemove(Seq<u8>),
    StreamDel,
}

pub open spec fn del_view(op: FieldDelOp) -> DelSpec {
    match op {
        FieldDelOp::HashDel(k) => DelSpec::HashDel(k@),
        FieldDelOp::ListRemoveAt => DelSpec::ListRemoveAt,
        FieldDelOp::SetRemove(m) => DelSpec::SetRemove(m@),
        FieldDelOp::ZSetRemove(m) => DelSpec::ZSetRemove(m@),
        FieldDelOp::StreamDel => DelSpec::StreamDel,
    }
}

/// What removing one entry sends for a key of a type.
pub open spec fn del_op_of(kind: KeyKind, field_key: Seq<char>, field_value: Seq<char>, fmt: BytesFormat, key: Seq<u8>) -> Result<DelSpec, ErrorView> {
    match kind {
        KeyKind::Hash => match text_bytes(field_key, fmt) {
            Some(k) => Ok(DelSpec::HashDel(k)),
            None => Err(ErrorView::InvalidInput),
        },
        KeyKind::List => Ok(DelSpec::ListRemoveAt),
        KeyKind::SetOf => match text_bytes(field_value, fmt) {
            Some(m) => Ok(DelSpec::SetRemove(m)),
            None => Err(ErrorView::InvalidInput),
        },
        KeyKind::ZSet => match text_bytes(field_value, fmt) {
            Some(m) => Ok(DelSpec::ZSetRemove(m)),
            None => Err(ErrorView::InvalidInput),
        },
        KeyKind::Stream => Ok(DelSpec::StreamDel),
        _ => Err(type_error(kind, key)),
    }
}

/// What removing one entry of a key of the given type sends.
pub fn field_del_op(kind: KeyKind, field_key: &str, field_value: &str, val_fmt: BytesFormat, key: &[u8]) -> (r: Result<FieldDelOp, FieldError>)
    ensures
        match del_op_of(kind, field_key@, field_value@, val_fmt, key@) {
            Err(e) => r matches Err(x) && error_view(x) == e,
            Ok(op) => r matches Ok(o) && del_view(o) == op,
        },
{
    match kind {
        KeyKind::Hash => match parse_bytes(field_key, val_fmt) {
            Ok(k) => Ok(FieldDelOp::HashDel(k)),
            Err(_) => Err(FieldError::InvalidInput),
        },
        KeyKind::List => Ok(FieldDelOp::ListRemoveAt),
        KeyKind::SetOf => match parse_bytes(field_value, val_fmt) {
            Ok(m) => Ok(FieldDelOp::SetRemove(m)),
            Err(_) => Err(FieldError::InvalidInput),
        },
        KeyKind::ZSet => match parse_bytes(field_value, val_fmt) {
            Ok(m) => Ok(FieldDelOp::ZSetRemove(m)),
            Err(_) => Err(FieldError::InvalidInput),
        },
        KeyKind::Stream => Ok(FieldDelOp::StreamDel),
        _ => Err(other_type_error(kind, key)),
    }
}

/// What reading one entry of a key sends.
#[derive(Debug)]
pub enum FieldGetOp {
    /// `HGET` of the field, then `HTTL` when `true`.
    HashGet(Vec<u8>, bool),
    /// `LINDEX` at the row's index.
    ListIndex,
    /// `ZSCORE` of the member.
    ZSetScore(Vec<u8>),
}

/// What reading one entry sends, with byte strings as sequences.
pub enum GetSpec {
    HashGet(Seq<u8>, bool),
    ListIndex,
    ZSetScore(Seq<u8>),
}

pub open spec fn get_view(op: FieldGetOp) -> GetSpec {
    match op {
        FieldGetOp::HashGet(k, t) => GetSpec::HashGet(k@, t),
        FieldGetOp::ListIndex => GetSpec::ListIndex,
        FieldGetOp::ZSetScore(m) => GetSpec::ZSetScore(m@),
    }
}

/// What reading one entry sends for a key of a type: a hash field by its
/// name (with its TTL only when the server has field TTLs and they were
/// asked for), a list element by its index, a sorted-set score by its
/// member; other types are not read one entry at a time.
pub open spec fn get_op_of(kind: KeyKind, field_key: Seq<char>, field_value: Seq<char>, fmt: BytesFormat, httl_supported: bool, include_field_ttl: bool, key: Seq<u8>) -> Result<GetSpec, ErrorView> {
    match kind {
        KeyKind::Hash => match text_bytes(field_key, fmt) {
            Some(k) => Ok(GetSpec::HashGet(k, httl_supported && include_field_ttl)),
            None => Err(ErrorView::InvalidInput),
        },
        KeyKind::List => Ok(GetSpec::ListIndex),
        KeyKind::ZSet => match text_bytes(field_value, fmt) {
            Some(m) => Ok(GetSpec::ZSetScore(m)),
            None => Err(ErrorView::InvalidInput),
        },
        _ => Err(type_error(kind, key)),
    }
}

/// What reading one entry of a key of the given type sends.
pub fn field_get_op(kind: KeyKind, field_key: &str, field_value: &str, val_fmt: BytesFormat, httl_supported: bool, include_field_ttl: bool, key: &[u8]) -> (r: Result<FieldGetOp, FieldError>)
    ensures
        match get_op_of(kind, field_key@, field_value@, val_fmt, httl_supported, include_field_ttl, key@) {
            Err(e) => r matches Err(x) && error_view(x) == e,
            Ok(op) => r matches Ok(o) && get_view(o) == op,
        },
{
    match kind {
        KeyKind::Hash => match parse_bytes(field_key, val_fmt) {
            Ok(k) => Ok(FieldGetOp::HashGet(k, httl_supported && include_field_ttl)),
            Err(_) => Err(FieldError::InvalidInput),
        },
        KeyKind::List => Ok(FieldGetOp::ListIndex),
        KeyKind::ZSet => match parse_bytes(field_value, val_fmt) {
            Ok(m) => Ok(FieldGetOp::ZSetScore(m)),
            Err(_) => Err(FieldError::InvalidInput),
        },
        _ => Err(other_type_error(kind, key)),
    }
}

} // verus!
