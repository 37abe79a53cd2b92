//! Reading one entry of a key, or a whole key, from the server's replies:
//! what the editor shows for an entry, the command that copies an entry,
//! and which errors come when the key, the entry or its type is missing.
use vstd::prelude::*;
use crate::bytes_format::{bytes_text, format_bytes, parse_bytes, text_bytes};
use crate::field_ops::{copy_bytes, FieldError, FieldGetOp, KeyKind};
use crate::key_commands::{field_as_command, field_line, FieldContent};
use crate::model::BytesFormat;
use crate::cli_format::{command_line, quoted, word_zadd};
use crate::operations::FieldTtlReply;
use crate::text::{bytes_to_string_lossy, decimal_int, i64_to_decimal, str_to_chars, utf8_lossy};

verus! {

/// One entry of a key as the editor shows it: the field name (hash), the
/// value or member, the score as the server wrote it (sorted set) and the
/// field's TTL in seconds (`-1` when none was read).
#[derive(Debug)]
pub struct FieldValue {
    pub field_key: String,
    pub field_value: String,
    pub field_score: Option<String>,
    pub field_ttl: i64,
}

/// The TTL shown for a hash field read with its `HTTL` answer: the seconds
/// left, `-2` for a missing field, `-1` otherwise.
pub open spec fn field_ttl_of(reply: Option<FieldTtlReply>) -> i64 {
    match reply {
        Some(FieldTtlReply::Ttl(t)) => t,
        Some(FieldTtlReply::NotExists) => -2i64,
        _ => -1i64,
    }
}

fn copy_text(t: &str) -> (r: String)
    ensures
        r@ == t@,
{
    let mut s = String::new();
    crate::text::push_str(&mut s, t);
    assert(s@ =~= t@);
    s
}

/// What the editor shows for one entry, from the reply to the read that
/// [`crate::field_ops::field_get_op`] planned: `value_reply` is the answer
/// of `HGET`, `LINDEX` or `ZSCORE` (`None` for a missing entry) and
/// `ttl_reply` that of `HTTL` when it was sent. A missing entry is
/// `FieldNotFound` with the name the user gave (the field, the index in
/// decimal, the member).
pub fn field_get_value(
    op: FieldGetOp,
    field_key: &str,
    field_value: &str,
    field_index: i64,
    value_reply: Option<Vec<u8>>,
    ttl_reply: Option<FieldTtlReply>,
    val_fmt: BytesFormat,
) -> (r: Result<FieldValue, FieldError>)
    ensures
        match (op, value_reply) {
            (FieldGetOp::HashGet(_, _), None) => r matches Err(FieldError::FieldNotFound(n)) && n@ == field_key@,
            (FieldGetOp::HashGet(f, with_ttl), Some(v)) => r matches Ok(x) && x.field_key@ == bytes_text(f@, val_fmt)
                && x.field_value@ == bytes_text(v@, val_fmt) && x.field_score is None
                && x.field_ttl == if with_ttl { field_ttl_of(ttl_reply) } else { -1i64 },
            (FieldGetOp::ListIndex, None) => r matches Err(FieldError::FieldNotFound(n)) && n@ == decimal_int(field_index as int),
            (FieldGetOp::ListIndex, Some(v)) => r matches Ok(x) && x.field_key@ == Seq::<char>::empty()
                && x.field_value@ == bytes_text(v@, val_fmt) && x.field_score is None && x.field_ttl == -1,
            (FieldGetOp::ZSetScore(_), None) => r matches Err(FieldError::FieldNotFound(n)) && n@ == field_value@,
            (FieldGetOp::ZSetScore(m), Some(s)) => r matches Ok(x) && x.field_key@ == Seq::<char>::empty()
                && x.field_value@ == bytes_text(m@, val_fmt) && (x.field_score matches Some(t) && t@ == utf8_lossy(s@))
                && x.field_ttl == -1,
        },
{
    match op {
        FieldGetOp::HashGet(f, with_ttl) => match value_reply {
            None => Err(FieldError::FieldNotFound(copy_text(field_key))),
            Some(v) => {
                let ttl: i64 = if with_ttl {
                    match ttl_reply {
                        Some(FieldTtlReply::Ttl(t)) => t,
                        Some(FieldTtlReply::NotExists) => -2,
                        _ => -1,
                    }
                } else {
                    -1
                };
                Ok(FieldValue {
                    field_key: format_bytes(f.as_slice(), val_fmt),
                    field_value: format_bytes(v.as_slice(), val_fmt),
                    field_score: None,
                    field_ttl: ttl,
                })
            },
        },
        FieldGetOp::ListIndex => match value_reply {
            None => Err(FieldError::FieldNotFound(i64_to_decimal(field_index))),
            Some(v) => Ok(FieldValue {
                field_key: String::new(),
                field_value: format_bytes(v.as_slice(), val_fmt),
                field_score: None,
                field_ttl: -1,
            }),
        },
        FieldGetOp::ZSetScore(m) => match value_reply {
            None => Err(FieldError::FieldNotFound(copy_text(field_value))),
            Some(s) => Ok(FieldValue {
                field_key: String::new(),
                field_value: format_bytes(m.as_slice(), val_fmt),
                field_score: Some(bytes_to_string_lossy(s.as_slice())),
                field_ttl: -1,
            }),
        },
    }
}

/// What copying one entry as a command reads.
#[derive(Debug)]
pub enum FieldRead {
    /// `HGET` of the field.
    HashField(Vec<u8>),
    /// `LINDEX` at the row's index.
    ListIndex,
    /// Nothing: the set member is the row's value.
    SetMember(Vec<u8>),
    /// `ZSCORE` of the member.
    ZSetScore(Vec<u8>),
    /// `XRANGE id id` of the row's entry id.
    StreamEntry,
}

/// What copying one entry of a key of the given type reads: a missing key
/// is `KeyNotFound` with the key's bytes, a stream row without an id `StreamEntryNotFound`, an
/// input that the byte format does not read `InvalidInput`, and a type
/// other than hash, list, set, sorted set or stream `KeyTypeUnsupported`.
pub fn field_command_read(kind: KeyKind, field_key: &str, field_value: &str, stream_id: &str, val_fmt: BytesFormat, key: &[u8]) -> (r: Result<FieldRead, FieldError>)
    ensures
        match kind {
            KeyKind::Absent => r matches Err(FieldError::KeyNotFound(k)) && k@ == key@,
            KeyKind::Hash => match text_bytes(field_key@, val_fmt) {
                Some(f) => r matches Ok(FieldRead::HashField(x)) && x@ == f,
                None => r matches Err(FieldError::InvalidInput),
            },
            KeyKind::List => r matches Ok(FieldRead::ListIndex),
            KeyKind::SetOf => match text_bytes(field_value@, val_fmt) {
                Some(m) => r matches Ok(FieldRead::SetMember(x)) && x@ == m,
                None => r matches Err(FieldError::InvalidInput),
            },
            KeyKind::ZSet => match text_bytes(field_value@, val_fmt) {
                Some(m) => r matches Ok(FieldRead::ZSetScore(x)) && x@ == m,
                None => r matches Err(FieldError::InvalidInput),
            },
            KeyKind::Stream => if stream_id@.len() == 0 {
                r matches Err(FieldError::StreamEntryNotFound(n)) && n@ == stream_id@
            } else {
                r matches Ok(FieldRead::StreamEntry)
            },
            _ => r matches Err(FieldError::KeyTypeUnsupported),
        },
{
    match kind {
        KeyKind::Absent => Err(FieldError::KeyNotFound(copy_bytes(key))),
        KeyKind::Hash => match parse_bytes(field_key, val_fmt) {
            Ok(f) => Ok(FieldRead::HashField(f)),
            Err(_) => Err(FieldError::InvalidInput),
        },
        KeyKind::List => Ok(FieldRead::ListIndex),
        KeyKind::SetOf => match parse_bytes(field_value, val_fmt) {
            Ok(m) => Ok(FieldRead::SetMember(m)),
            Err(_) => Err(FieldError::InvalidInput),
        },
        KeyKind::ZSet => match parse_bytes(field_value, val_fmt) {
            Ok(m) => Ok(FieldRead::ZSetScore(m)),
            Err(_) => Err(FieldError::InvalidInput),
        },
        KeyKind::Stream => {
            if str_to_chars(stream_id).len() == 0 {
                Err(FieldError::StreamEntryNotFound(copy_text(stream_id)))
            } else {
                Ok(FieldRead::StreamEntry)
            }
        },
        _ => Err(FieldError::KeyTypeUnsupported),
    }
}

/// The command that copies one entry, from the reply to the read that
/// [`field_command_read`] planned: `value_reply` answers `HGET` or `LINDEX`,
/// or is the score text for `ZSCORE`; `entry_reply` is the first entry of
/// `XRANGE`. A missing entry is `FieldNotFound` with the name the user gave
/// (the field, the index in decimal, the member), or `StreamEntryNotFound`
/// with the id.
pub fn field_command_from_reply(
    key: &[u8],
    read: FieldRead,
    field_key: &str,
    field_value: &str,
    field_index: i64,
    stream_id: &str,
    value_reply: Option<Vec<u8>>,
    entry_reply: Option<(Vec<u8>, Vec<(Vec<u8>, Vec<u8>)>)>,
) -> (r: Result<String, FieldError>)
    ensures
        match read {
            FieldRead::HashField(f) => match value_reply {
                None => r matches Err(FieldError::FieldNotFound(n)) && n@ == field_key@,
                Some(v) => r matches Ok(c) && c@ == field_line(key@, FieldContent::HashField(f, v)),
            },
            FieldRead::ListIndex => match value_reply {
                None => r matches Err(FieldError::FieldNotFound(n)) && n@ == decimal_int(field_index as int),
                Some(v) => r matches Ok(c) && c@ == field_line(key@, FieldContent::ListItem(v)),
            },
            FieldRead::SetMember(m) => r matches Ok(c) && c@ == field_line(key@, FieldContent::SetMember(m)),
            FieldRead::ZSetScore(m) => match value_reply {
                None => r matches Err(FieldError::FieldNotFound(n)) && n@ == field_value@,
                Some(s) => r matches Ok(c) && c@ == command_line(word_zadd(), seq![quoted(key@), utf8_lossy(s@), quoted(m@)]),
            },
            FieldRead::StreamEntry => match entry_reply {
                None => r matches Err(FieldError::StreamEntryNotFound(n)) && n@ == stream_id@,
                Some((id, fields)) => r matches Ok(c) && c@ == field_line(key@, FieldContent::StreamEntry(id, fields)),
            },
        },
{
    match read {
        FieldRead::HashField(f) => match value_reply {
            None => Err(FieldError::FieldNotFound(copy_text(field_key))),
            Some(v) => Ok(field_as_command(key, FieldContent::HashField(f, v))),
        },
        FieldRead::ListIndex => match value_reply {
            None => Err(FieldError::FieldNotFound(i64_to_decimal(field_index))),
            Some(v) => Ok(field_as_command(key, FieldContent::ListItem(v))),
        },
        FieldRead::SetMember(m) => Ok(field_as_command(key, FieldContent::SetMember(m))),
        FieldRead::ZSetScore(m) => match value_reply {
            None => Err(FieldError::FieldNotFound(copy_text(field_value))),
            Some(s) => {
                let t = bytes_to_string_lossy(s.as_slice());
                Ok(field_as_command(key, FieldContent::ZSetMember(m, t)))
            },
        },
        FieldRead::StreamEntry => match entry_reply {
            None => Err(FieldError::StreamEntryNotFound(copy_text(stream_id))),
            Some((id, fields)) => Ok(field_as_command(key, FieldContent::StreamEntry(id, fields))),
        },
    }
}

/// What copying a whole key as commands reads.
#[derive(Debug, Clone, Copy, PartialEq, Eq, Structural)]
pub enum KeyRead {
    /// `GET`.
    String,
    /// `HGETALL`.
    Hash,
    /// `LRANGE 0 -1`.
    List,
    /// `SMEMBERS`.
    SetOf,
    /// `ZRANGE 0 -1 WITHSCORES`.
    ZSet,
    /// `XRANGE - +`.
    Stream,
    /// `JSON.GET`.
    Json,
}

/// What copying a key of the given type as commands reads: a missing key is
/// `KeyNotFound` with the key's bytes, a type other than string, hash, list, set, sorted set,
/// stream or JSON is `KeyTypeUnsupported`. The lines then come from
/// [`crate::key_commands::key_as_command_lines`] on what was read.
pub fn key_command_read(kind: &KeyKind, key: &[u8]) -> (r: Result<KeyRead, FieldError>)
    ensures
        match *kind {
            KeyKind::Absent => r matches Err(FieldError::KeyNotFound(k)) && k@ == key@,
            KeyKind::String => r == Ok::<KeyRead, FieldError>(KeyRead::String),
            KeyKind::Hash => r == Ok::<KeyRead, FieldError>(KeyRead::Hash),
            KeyKind::List => r == Ok::<KeyRead, FieldError>(KeyRead::List),
            KeyKind::SetOf => r == Ok::<KeyRead, FieldError>(KeyRead::SetOf),
            KeyKind::ZSet => r == Ok::<KeyRead, FieldError>(KeyRead::ZSet),
            KeyKind::Stream => r == Ok::<KeyRead, FieldError>(KeyRead::Stream),
            KeyKind::Json => r == Ok::<KeyRead, FieldError>(KeyRead::Json),
            _ => r matches Err(FieldError::KeyTypeUnsupported),
        },
{
    match kind {
        KeyKind::Absent => Err(FieldError::KeyNotFound(copy_bytes(key))),
        KeyKind::String => Ok(KeyRead::String),
        KeyKind::Hash => Ok(KeyRead::Hash),
        KeyKind::List => Ok(KeyRead::List),
        KeyKind::SetOf => Ok(KeyRead::SetOf),
        KeyKind::ZSet => Ok(KeyRead::ZSet),
        KeyKind::Stream => Ok(KeyRead::Stream),
        KeyKind::Json => Ok(KeyRead::Json),
        _ => Err(FieldError::KeyTypeUnsupported),
    }
}

} // verus!
