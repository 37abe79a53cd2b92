//! The value view's reading options: index ranges and direction of lists,
//! direction of streams, previews of large strings, and the `MATCH`,
//! exact-lookup and field-TTL options of field scans.
use vstd::prelude::*;
use crate::bytes_format::{parse_bytes, text_bytes};
use crate::field_ops::{copy_bytes, copy_kind, kind_view, FieldError, KeyKind};
use crate::model::BytesFormat;
use crate::paging::{stream_page_window, StreamWindow};
use crate::text::{push_str, str_to_chars};
use vstd::slice::slice_to_vec;

verus! {

/// A list index as a position: a negative index counts from the end.
pub open spec fn list_position(i: int, len: int) -> int {
    if i < 0 {
        len + i
    } else {
        i
    }
}

/// The lowest position a list range covers: the configured lower index
/// (0 when not given), not below 0.
pub open spec fn range_low(min_index: Option<i64>, len: int) -> int {
    let p = list_position(
        match min_index {
            Some(i) => i as int,
            None => 0,
        },
        len,
    );
    if p < 0 {
        0
    } else {
        p
    }
}

/// The highest position a list range covers: the configured upper index
/// (the last element when not given), not past the last element.
pub open spec fn range_high(max_index: Option<i64>, len: int) -> int {
    let p = list_position(
        match max_index {
            Some(i) => i as int,
            None => -1,
        },
        len,
    );
    if p > len - 1 {
        len - 1
    } else {
        p
    }
}

/// The `LRANGE` positions of a page of a list (both inclusive), and whether
/// the elements come back in reverse order.
#[derive(Debug, Clone, Copy, PartialEq, Eq, Structural)]
pub struct ListWindow {
    pub start: i64,
    pub stop: i64,
    pub reverse: bool,
}

/// The window of a list page within the configured index range: ascending,
/// from `cursor` positions above the low end up to one element more than a
/// page (which tells whether more follow); descending, from `cursor`
/// positions below the high end down to one element more than a page, read
/// in reverse. Reading the whole range goes to its other end. `None` when
/// the page lies outside the range.
pub open spec fn list_window_of(len: int, min_index: Option<i64>, max_index: Option<i64>, desc: bool, cursor: int, count: int, load_all: bool) -> Option<(int, int, bool)> {
    let lo = range_low(min_index, len);
    let hi = range_high(max_index, len);
    if !desc {
        let start = lo + cursor;
        if start > hi {
            None
        } else {
            Some((start, if load_all || start + count > hi { hi } else { start + count }, false))
        }
    } else {
        let top = hi - cursor;
        if top < lo {
            None
        } else {
            Some((if load_all || top - count < lo { lo } else { top - count }, top, true))
        }
    }
}

/// The `LRANGE` window of a list page, given the list's length (`LLEN`),
/// the configured index range and direction, the page's cursor and size.
pub fn list_page_window(
    len: i64,
    min_index: Option<i64>,
    max_index: Option<i64>,
    desc: bool,
    cursor: u64,
    count: u64,
    load_all: bool,
) -> (r: Option<ListWindow>)
    requires
        len >= 0,
    ensures
        match list_window_of(len as int, min_index, max_index, desc, cursor as int, count as int, load_all) {
            None => r is None,
            Some((a, b, rev)) => r matches Some(w) && w.start == a && w.stop == b && w.reverse == rev,
        },
{
    let n: i128 = len as i128;
    let lo0: i128 = match min_index {
        Some(i) => i as i128,
        None => 0,
    };
    let lo1: i128 = if lo0 < 0 { n + lo0 } else { lo0 };
    let lo: i128 = if lo1 < 0 { 0 } else { lo1 };
    let hi0: i128 = match max_index {
        Some(i) => i as i128,
        None => -1,
    };
    let hi1: i128 = if hi0 < 0 { n + hi0 } else { hi0 };
    let hi: i128 = if hi1 > n - 1 { n - 1 } else { hi1 };
    let c: i128 = cursor as i128;
    let k: i128 = count as i128;
    assert(lo == range_low(min_index, len as int));
    assert(hi == range_high(max_index, len as int));
    if !desc {
        let start = lo + c;
        if start > hi {
            return None;
        }
        let stop = if load_all || start + k > hi { hi } else { start + k };
        Some(ListWindow { start: start as i64, stop: stop as i64, reverse: false })
    } else {
        let top = hi - c;
        if top < lo {
            return None;
        }
        let bottom = if load_all || top - k < lo { lo } else { top - k };
        Some(ListWindow { start: bottom as i64, stop: top as i64, reverse: true })
    }
}

/// The command and arguments of a stream page: `XREVRANGE end start` when
/// newest first, `XRANGE start end` when oldest first, with its `COUNT`.
#[derive(Debug)]
pub struct StreamRange {
    pub reverse: bool,
    pub first: String,
    pub second: String,
    pub count: Option<u64>,
}

/// A configured stream bound, or the given default when it is not set or
/// empty.
pub open spec fn bound_or(b: Option<&str>, dflt: Seq<char>) -> Seq<char> {
    match b {
        Some(m) => if m@.len() > 0 {
            m@
        } else {
            dflt
        },
        None => dflt,
    }
}

fn bound_text(b: Option<&str>, dflt: &str) -> (r: String)
    ensures
        r@ == bound_or(b, dflt@),
{
    let mut s = String::new();
    match b {
        Some(m) => {
            if str_to_chars(m).len() > 0 {
                push_str(&mut s, m);
            } else {
                push_str(&mut s, dflt);
            }
        },
        None => push_str(&mut s, dflt),
    }
    assert(s@ =~= bound_or(b, dflt@));
    s
}

/// The range of a stream page in either direction. Newest first, it is the
/// window of [`stream_page_window`] (`XREVRANGE` from the cursor, or the
/// maximum id, down to the minimum id). Oldest first, it is `XRANGE` from
/// the cursor (or the minimum id, or `-`) up to the maximum id (or `+`).
/// The first page asks for one entry more than a page; reading the whole
/// stream sends no `COUNT`.
pub fn stream_page_range(
    stream_cursor: &str,
    max_id: Option<&str>,
    min_id: Option<&str>,
    count: u64,
    load_all: bool,
    desc: bool,
) -> (r: StreamRange)
    requires
        count < u64::MAX,
    ensures
        r.reverse == desc,
        desc ==> r.first@ == (if stream_cursor@.len() == 0 { bound_or(max_id, "+"@) } else { stream_cursor@ })
            && r.second@ == bound_or(min_id, "-"@),
        !desc ==> r.first@ == (if stream_cursor@.len() == 0 { bound_or(min_id, "-"@) } else { stream_cursor@ })
            && r.second@ == bound_or(max_id, "+"@),
        r.count == if load_all {
            None
        } else if stream_cursor@.len() == 0 {
            Some((count + 1) as u64)
        } else {
            Some(count)
        },
{
    if desc {
        let w: StreamWindow = stream_page_window(stream_cursor, max_id, min_id, count, load_all);
        StreamRange { reverse: true, first: w.end, second: w.start, count: w.count }
    } else {
        let first_page = str_to_chars(stream_cursor).len() == 0;
        let first = if first_page {
            bound_text(min_id, "-")
        } else {
            let mut s = String::new();
            push_str(&mut s, stream_cursor);
            assert(s@ =~= stream_cursor@);
            s
        };
        let second = bound_text(max_id, "+");
        let n = if load_all {
            None
        } else if first_page {
            Some(count + 1)
        } else {
            Some(count)
        };
        StreamRange { reverse: false, first, second, count: n }
    }
}

/// How a string value is read: whole, or only its first bytes.
#[derive(Debug, Clone, Copy, PartialEq, Eq, Structural)]
pub enum StringRead {
    /// `GET` of the whole value.
    Full,
    /// `GETRANGE` of this many first bytes; the value is shown truncated.
    Preview(u64),
}

/// How a string of `len` bytes (`STRLEN`) is read: when a byte limit is
/// set, the value is longer than it and the full value is not forced, only
/// its first `value_preview_bytes` bytes (the limit when no preview size is
/// set); otherwise the whole value.
pub fn string_read(len: u64, value_byte_limit: Option<u64>, value_preview_bytes: Option<u64>, force_full_value: Option<bool>) -> (r: StringRead)
    ensures
        r == match value_byte_limit {
            Some(limit) => if len > limit && force_full_value != Some(true) {
                StringRead::Preview(
                    match value_preview_bytes {
                        Some(p) => p,
                        None => limit,
                    },
                )
            } else {
                StringRead::Full
            },
            None => StringRead::Full,
        },
{
    match value_byte_limit {
        Some(limit) => {
            let forced = match force_full_value {
                Some(f) => f,
                None => false,
            };
            if len > limit && !forced {
                StringRead::Preview(
                    match value_preview_bytes {
                        Some(p) => p,
                        None => limit,
                    },
                )
            } else {
                StringRead::Full
            }
        },
        None => StringRead::Full,
    }
}

/// The `MATCH` pattern of a field scan: the pattern when it is not empty.
pub fn field_scan_match(pattern: &str) -> (r: Option<String>)
    ensures
        pattern@.len() == 0 ==> r is None,
        pattern@.len() > 0 ==> (r matches Some(p) && p@ == pattern@),
{
    if str_to_chars(pattern).len() == 0 {
        None
    } else {
        let mut s = String::new();
        push_str(&mut s, pattern);
        assert(s@ =~= pattern@);
        Some(s)
    }
}

/// Whether a hash field scan also reads the fields' TTLs (`HTTL`): only
/// when the server has field TTLs and they were asked for.
pub fn field_scan_reads_ttl(httl_supported: bool, include_field_ttl: Option<bool>) -> (r: bool)
    ensures
        r == (httl_supported && include_field_ttl == Some(true)),
{
    httl_supported && match include_field_ttl {
        Some(b) => b,
        None => false,
    }
}

/// What an exact field lookup sends instead of a scan.
#[derive(Debug)]
pub enum ExactLookup {
    /// `HGET` of the field.
    HashField(Vec<u8>),
    /// `SISMEMBER` of the member.
    SetMember(Vec<u8>),
    /// `ZSCORE` of the member.
    ZSetMember(Vec<u8>),
}

/// The exact lookup of a field scan: the pattern read in the byte format
/// is the hash field, set member or sorted-set member looked up; other
/// types are not scanned.
pub fn field_exact_lookup(kind: &KeyKind, pattern: &str, fmt: BytesFormat) -> (r: Result<ExactLookup, FieldError>)
    ensures
        (*kind is Hash || *kind is SetOf || *kind is ZSet) ==> match text_bytes(pattern@, fmt) {
            None => r matches Err(FieldError::InvalidInput),
            Some(b) => match *kind {
                KeyKind::Hash => r matches Ok(ExactLookup::HashField(x)) && x@ == b,
                KeyKind::SetOf => r matches Ok(ExactLookup::SetMember(x)) && x@ == b,
                _ => r matches Ok(ExactLookup::ZSetMember(x)) && x@ == b,
            },
        },
        !(*kind is Hash || *kind is SetOf || *kind is ZSet) ==> (r matches Err(FieldError::ScanNotSupported(k)) && kind_view(k) == kind_view(*kind)),
{
    match kind {
        KeyKind::Hash => match parse_bytes(pattern, fmt) {
            Ok(b) => Ok(ExactLookup::HashField(b)),
            Err(_) => Err(FieldError::InvalidInput),
        },
        KeyKind::SetOf => match parse_bytes(pattern, fmt) {
            Ok(b) => Ok(ExactLookup::SetMember(b)),
            Err(_) => Err(FieldError::InvalidInput),
        },
        KeyKind::ZSet => match parse_bytes(pattern, fmt) {
            Ok(b) => Ok(ExactLookup::ZSetMember(b)),
            Err(_) => Err(FieldError::InvalidInput),
        },
        _ => Err(FieldError::ScanNotSupported(copy_kind(kind))),
    }
}

/// What the first step of reading a key's value sends, by the key's type.
#[derive(Debug)]
pub enum FieldScanRead {
    /// A string value, whole or previewed ([`string_read`]).
    StringValue,
    /// `JSON.GET` of the document.
    JsonValue,
    /// `HGET` of the one hash field asked for (its name's UTF-8 bytes).
    HashField(Vec<u8>),
    /// A page of the list ([`list_page_window`]).
    ListPage,
    /// `XRANGE id id` of the one stream entry asked for.
    StreamEntry(String),
    /// A page of the stream ([`stream_page_range`]).
    StreamPage,
    /// `HSCAN`, `SSCAN` or `ZSCAN` batches (or an exact lookup).
    Scan,
}

/// What reading a key's value sends first. A missing key is `KeyNotFound`
/// with the key's bytes; a string or JSON key is read whole; a hash with a
/// field name asked for reads that field, else it is scanned; a list is
/// paged; a stream with an id asked for reads that entry, else it is paged;
/// a type the server named by an unknown name is `KeyNotFound` when the
/// name is `none`, else `KeyTypeUnknown`; any other type is scanned.
pub fn field_scan_plan(kind: &KeyKind, hash_key: Option<&str>, key: &[u8]) -> (r: Result<FieldScanRead, FieldError>)
    ensures
        match *kind {
            KeyKind::Absent => r matches Err(FieldError::KeyNotFound(k)) && k@ == key@,
            KeyKind::String => r matches Ok(FieldScanRead::StringValue),
            KeyKind::Json => r matches Ok(FieldScanRead::JsonValue),
            KeyKind::Hash => match hash_key {
                Some(h) => if h@.len() > 0 {
                    r matches Ok(FieldScanRead::HashField(f)) && f@ == vstd::utf8::encode_utf8(h@)
                } else {
                    r matches Ok(FieldScanRead::Scan)
                },
                None => r matches Ok(FieldScanRead::Scan),
            },
            KeyKind::List => r matches Ok(FieldScanRead::ListPage),
            KeyKind::Stream => match hash_key {
                Some(h) => if h@.len() > 0 {
                    r matches Ok(FieldScanRead::StreamEntry(id)) && id@ == h@
                } else {
                    r matches Ok(FieldScanRead::StreamPage)
                },
                None => r matches Ok(FieldScanRead::StreamPage),
            },
            KeyKind::Unknown(n) => if n@ == "none"@ {
                r matches Err(FieldError::KeyNotFound(k)) && k@ == key@
            } else {
                r matches Err(FieldError::KeyTypeUnknown(x)) && x@ == n@
            },
            _ => r matches Ok(FieldScanRead::Scan),
        },
{
    let asked = match hash_key {
        Some(h) => str_to_chars(h).len() > 0,
        None => false,
    };
    match kind {
        KeyKind::Absent => Err(FieldError::KeyNotFound(copy_bytes(key))),
        KeyKind::String => Ok(FieldScanRead::StringValue),
        KeyKind::Json => Ok(FieldScanRead::JsonValue),
        KeyKind::Hash => match hash_key {
            Some(h) => if asked {
                Ok(FieldScanRead::HashField(slice_to_vec(h.as_bytes())))
            } else {
                Ok(FieldScanRead::Scan)
            },
            None => Ok(FieldScanRead::Scan),
        },
        KeyKind::List => Ok(FieldScanRead::ListPage),
        KeyKind::Stream => match hash_key {
            Some(h) => if asked {
                let mut id = String::new();
                push_str(&mut id, h);
                assert(id@ =~= h@);
                Ok(FieldScanRead::StreamEntry(id))
            } else {
                Ok(FieldScanRead::StreamPage)
            },
            None => Ok(FieldScanRead::StreamPage),
        },
        KeyKind::Unknown(n) => {
            proof {
                reveal_strlit("none");
            }
            let w = str_to_chars(n.as_str());
            if crate::text::chars_eq_str(w.as_slice(), "none") {
                Err(FieldError::KeyNotFound(copy_bytes(key)))
            } else {
                let mut x = String::new();
                push_str(&mut x, n.as_str());
                assert(x@ =~= n@);
                Err(FieldError::KeyTypeUnknown(x))
            }
        },
        _ => Ok(FieldScanRead::Scan),
    }
}

/// Whether the one field or entry that [`field_scan_plan`] read was found:
/// a missing hash field is `FieldNotFound` and a missing stream entry
/// `StreamEntryNotFound`, each with the name asked for; the other reads
/// always go on.
pub fn field_scan_found(read: &FieldScanRead, found: bool, hash_key: &str) -> (r: Result<(), FieldError>)
    ensures
        match *read {
            FieldScanRead::HashField(_) => if found {
                r is Ok
            } else {
                r matches Err(FieldError::FieldNotFound(n)) && n@ == hash_key@
            },
            FieldScanRead::StreamEntry(_) => if found {
                r is Ok
            } else {
                r matches Err(FieldError::StreamEntryNotFound(n)) && n@ == hash_key@
            },
            _ => r is Ok,
        },
{
    if found {
        return Ok(());
    }
    match read {
        FieldScanRead::HashField(_) => {
            let mut n = String::new();
            push_str(&mut n, hash_key);
            assert(n@ =~= hash_key@);
            Err(FieldError::FieldNotFound(n))
        },
        FieldScanRead::StreamEntry(_) => {
            let mut n = String::new();
            push_str(&mut n, hash_key);
            assert(n@ =~= hash_key@);
            Err(FieldError::StreamEntryNotFound(n))
        },
        _ => Ok(()),
    }
}

} // verus!
