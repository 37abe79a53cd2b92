//! Small decisions of the key operations: the result of an exact key
//! search, how a single-node scan moves on, expiry versus persistence,
//! what `SET` sends, which command scans or counts a key's fields, how
//! field TTL replies read, and where a batch of keys comes from.
use vstd::prelude::*;
use crate::model::{RedisKey, ScanCursor, BytesFormat};
use crate::bytes_format::{text_bytes, parse_bytes};
use crate::field_ops::{copy_kind, kind_view, KeyKind, FieldError, json_valid};
use crate::text::{push_str};

verus! {

/// The keys a scan found and where it stands.
#[derive(Debug)]
pub struct ScanResult {
    pub key_list: Vec<RedisKey>,
    pub cursor: ScanCursor,
}

/// A cursor at the start of a scan.
pub fn new_scan_cursor() -> (r: ScanCursor)
    ensures
        r.ready_nodes@.len() == 0,
        r.now_node@ == Seq::<char>::empty(),
        r.now_cursor == 0,
        r.stream_cursor@ == Seq::<char>::empty(),
        !r.finished,
{
    ScanCursor {
        ready_nodes: Vec::new(),
        now_node: String::new(),
        now_cursor: 0,
        stream_cursor: String::new(),
        finished: false,
    }
}

/// The result of an exact search (`EXISTS`): the pattern itself as a key
/// when it exists, nothing otherwise; the scan is then finished.
pub fn exact_scan_result(pattern: &str, exists: bool) -> (r: ScanResult)
    ensures
        exists ==> r.key_list@.len() == 1 && r.key_list@[0].key@ == pattern@ && r.key_list@[0].bytes@
            == vstd::utf8::encode_utf8(pattern@),
        !exists ==> r.key_list@.len() == 0,
        r.cursor.finished,
        r.cursor.now_cursor == 0,
        r.cursor.ready_nodes@.len() == 0,
        r.cursor.now_node@ == Seq::<char>::empty(),
        r.cursor.stream_cursor@ == Seq::<char>::empty(),
{
    let mut key_list: Vec<RedisKey> = Vec::new();
    if exists {
        key_list.push(RedisKey::from_text(pattern));
    }
    let mut cursor = new_scan_cursor();
    cursor.finished = true;
    ScanResult { key_list, cursor }
}

/// The cursor of a single-node scan after one `SCAN` reply: it continues
/// from the returned cursor and is finished when that cursor is 0.
pub fn single_scan_advance(cursor: ScanCursor, next_cursor: u64) -> (r: ScanCursor)
    ensures
        r.now_cursor == next_cursor,
        r.finished == (cursor.finished || next_cursor == 0),
        r.ready_nodes.deep_view() == cursor.ready_nodes.deep_view(),
        r.now_node@ == cursor.now_node@,
        r.stream_cursor@ == cursor.stream_cursor@,
{
    let mut c = cursor;
    c.now_cursor = next_cursor;
    if next_cursor == 0 {
        c.finished = true;
    }
    c
}

/// How a key's TTL is changed.
#[derive(Debug, Clone, Copy, PartialEq, Eq, Structural)]
pub enum TtlOp {
    /// `EXPIRE key ttl`.
    Expire(i64),
    /// `PERSIST key`: the key no longer expires.
    Persist,
}

/// A positive TTL sets the expiry; any other removes it.
pub fn ttl_op(ttl: i64) -> (r: TtlOp)
    ensures
        ttl > 0 ==> r == TtlOp::Expire(ttl),
        ttl <= 0 ==> r == TtlOp::Persist,
{
    if ttl > 0 {
        TtlOp::Expire(ttl)
    } else {
        TtlOp::Persist
    }
}

/// What saving a string or JSON key sends.
#[derive(Debug)]
pub enum SetPlan {
    /// `JSON.SET key $ value`, then `EXPIRE` when `true`.
    JsonSet(bool),
    /// `SET key value EX ttl`.
    SetWithExpiry(Vec<u8>, u64),
    /// `SET key value`.
    SetValue(Vec<u8>),
}

/// What saving a key sends: the value is first read in its format (an
/// invalid value is refused even for JSON); a JSON key needs a valid
/// document and gets its expiry afterwards; a string key gets it with
/// `SET ... EX` when the TTL is positive.
pub fn set_plan(is_json: bool, value: &str, format: BytesFormat, ttl: i64) -> (r: Result<SetPlan, FieldError>)
    ensures
        match text_bytes(value@, format) {
            None => r matches Err(FieldError::InvalidInput),
            Some(b) => if is_json {
                if json_valid(value@) {
                    r matches Ok(SetPlan::JsonSet(e)) && e == (ttl > 0)
                } else {
                    r matches Err(FieldError::InvalidJson)
                }
            } else if ttl > 0 {
                r matches Ok(SetPlan::SetWithExpiry(v, t)) && v@ == b && t == ttl
            } else {
                r matches Ok(SetPlan::SetValue(v)) && v@ == b
            },
        },
{
    let bytes = match parse_bytes(value, format) {
        Ok(b) => b,
        Err(_) => {
            return Err(FieldError::InvalidInput);
        },
    };
    if is_json {
        if crate::field_ops::json_accepts(value) {
            Ok(SetPlan::JsonSet(ttl > 0))
        } else {
            Err(FieldError::InvalidJson)
        }
    } else if ttl > 0 {
        Ok(SetPlan::SetWithExpiry(bytes, ttl as u64))
    } else {
        Ok(SetPlan::SetValue(bytes))
    }
}

fn text(t: &str) -> (r: String)
    ensures
        r@ == t@,
{
    let mut s = String::new();
    push_str(&mut s, t);
    assert(s@ =~= t@);
    s
}

/// The command that scans the fields of a key: `hscan`, `sscan` or
/// `zscan`; other types are not scanned.
pub fn field_scan_command(kind: &KeyKind) -> (r: Result<String, FieldError>)
    ensures
        *kind is Hash ==> (r matches Ok(c) && c@ == "hscan"@),
        *kind is SetOf ==> (r matches Ok(c) && c@ == "sscan"@),
        *kind is ZSet ==> (r matches Ok(c) && c@ == "zscan"@),
        !(*kind is Hash || *kind is SetOf || *kind is ZSet) ==> (r matches Err(FieldError::ScanNotSupported(k)) && kind_view(k) == kind_view(*kind)),
{
    match kind {
        KeyKind::Hash => Ok(text("hscan")),
        KeyKind::SetOf => Ok(text("sscan")),
        KeyKind::ZSet => Ok(text("zscan")),
        _ => Err(FieldError::ScanNotSupported(copy_kind(kind))),
    }
}

/// The command that counts the elements of a key for the value view
/// (`HLEN`, `LLEN`, `SCARD`, `ZCARD`, `XLEN`), or `None` when the length is
/// the byte length already known: for one field, a string or another type.
pub fn length_command(kind: &KeyKind, with_field_key: bool) -> (r: Option<String>)
    ensures
        with_field_key ==> r is None,
        !with_field_key && *kind is Hash ==> (r matches Some(c) && c@ == "HLEN"@),
        !with_field_key && *kind is List ==> (r matches Some(c) && c@ == "LLEN"@),
        !with_field_key && *kind is SetOf ==> (r matches Some(c) && c@ == "SCARD"@),
        !with_field_key && *kind is ZSet ==> (r matches Some(c) && c@ == "ZCARD"@),
        !with_field_key && *kind is Stream ==> (r matches Some(c) && c@ == "XLEN"@),
        !(*kind is Hash || *kind is List || *kind is SetOf || *kind is ZSet || *kind is Stream) ==> r is None,
{
    if with_field_key {
        return None;
    }
    match kind {
        KeyKind::Hash => Some(text("HLEN")),
        KeyKind::List => Some(text("LLEN")),
        KeyKind::SetOf => Some(text("SCARD")),
        KeyKind::ZSet => Some(text("ZCARD")),
        KeyKind::Stream => Some(text("XLEN")),
        _ => None,
    }
}

/// One answer of `HTTL` for a field.
#[derive(Debug, Clone, Copy, PartialEq, Eq, Structural)]
pub enum FieldTtlReply {
    /// The field expires in this many seconds.
    Ttl(i64),
    /// The field does not exist.
    NotExists,
    /// The field exists and does not expire.
    NoExpiry,
    /// Any other answer.
    Other,
}

/// The TTL shown for a scanned hash field: the seconds left, `-2` for a
/// missing field, `-1` for one without expiry, none otherwise.
pub fn scanned_field_ttl(reply: FieldTtlReply) -> (r: Option<i64>)
    ensures
        r == match reply {
            FieldTtlReply::Ttl(t) => Some(t),
            FieldTtlReply::NotExists => Some(-2i64),
            FieldTtlReply::NoExpiry => Some(-1i64),
            FieldTtlReply::Other => None::<i64>,
        },
{
    match reply {
        FieldTtlReply::Ttl(t) => Some(t),
        FieldTtlReply::NotExists => Some(-2),
        FieldTtlReply::NoExpiry => Some(-1),
        FieldTtlReply::Other => None,
    }
}

/// The TTL shown for one hash field that was read: the seconds left, `-2`
/// for a missing field, `-1` otherwise (no expiry, no answer).
pub fn read_field_ttl(reply: Option<FieldTtlReply>) -> (r: i64)
    ensures
        r == match reply {
            Some(FieldTtlReply::Ttl(t)) => t,
            Some(FieldTtlReply::NotExists) => -2i64,
            _ => -1i64,
        },
{
    match reply {
        Some(FieldTtlReply::Ttl(t)) => t,
        Some(FieldTtlReply::NotExists) => -2,
        _ => -1,
    }
}

/// Why a batch operation has no keys to work on.
#[derive(Debug, Clone, Copy, PartialEq, Eq, Structural)]
pub enum BatchError {
    /// Neither keys nor a pattern were given.
    EmptyParameters,
    /// The batch needs keys and none were found.
    EmptyKeyList,
}

/// Where the keys of a batch come from.
#[derive(Debug, Clone, Copy, PartialEq, Eq, Structural)]
pub enum BatchSource {
    /// The keys given.
    Given,
    /// The keys that a scan of the pattern finds.
    ScanPattern,
}

/// The keys given, or, when there are none, those of the pattern; without
/// either the batch is refused.
pub fn batch_key_source(key_count: usize, pattern: &str) -> (r: Result<BatchSource, BatchError>)
    ensures
        key_count > 0 ==> r == Ok::<BatchSource, BatchError>(BatchSource::Given),
        key_count == 0 && pattern@.len() > 0 ==> r == Ok::<BatchSource, BatchError>(BatchSource::ScanPattern),
        key_count == 0 && pattern@.len() == 0 ==> r == Err::<BatchSource, BatchError>(BatchError::EmptyParameters),
{
    if key_count > 0 {
        Ok(BatchSource::Given)
    } else if crate::text::str_to_chars(pattern).len() > 0 {
        Ok(BatchSource::ScanPattern)
    } else {
        Err(BatchError::EmptyParameters)
    }
}

/// A batch that needs keys is refused when none were found.
pub fn batch_key_check(assert_not_empty: bool, key_count: usize) -> (r: Result<(), BatchError>)
    ensures
        assert_not_empty && key_count == 0 ==> r == Err::<(), BatchError>(BatchError::EmptyKeyList),
        !(assert_not_empty && key_count == 0) ==> r is Ok,
{
    if assert_not_empty && key_count == 0 {
        Err(BatchError::EmptyKeyList)
    } else {
        Ok(())
    }
}

} // verus!
