//! Export and import of keys as CSV: one line per key, `key,value,ttl`,
//! with the key and its `DUMP` value in Base64 and the TTL in seconds; and
//! the `RESTORE` that an imported line becomes.
use vstd::prelude::*;
use crate::bytes_format::{base64_encoded, base64_decoded, base64_encode, base64_decode, is_base64_char};
use crate::text::{contains_seq, str_contains, trim, trim_chars, decimal_int, decimal_i64, push_str, push_decimal_i64, str_to_chars, chars_to_string,
    push_string, parse_i64, char_fields, char_fields_from, split_char, lemma_decimal_i64_roundtrip, lemma_decimal_int_chars};

verus! {

/// The export line of a key: its bytes and its `DUMP` value in Base64, then
/// its TTL in seconds.
pub open spec fn export_line(key: Seq<u8>, dump: Seq<u8>, ttl: i64) -> Seq<char> {
    base64_encoded(key) + ","@ + base64_encoded(dump) + ","@ + decimal_int(ttl as int)
}

/// The fields of a text separated by `,`.
pub open spec fn comma_fields(s: Seq<char>) -> Seq<Seq<char>> {
    char_fields(s, ',')
}

/// The TTL in milliseconds that `RESTORE` gets: with `custom` the TTL given
/// for the import, with `parse` the one of the line (`-1` when it is not a
/// number), otherwise `-1`; a TTL that is not positive becomes 0 (no expiry),
/// a positive one is multiplied by 1000 (wrapping on overflow).
pub open spec fn restore_ttl(part_ttl: Seq<char>, ttl: i64, handle_ttl: Seq<char>) -> i64 {
    let t: i64 = if handle_ttl == "custom"@ {
        ttl
    } else if handle_ttl == "parse"@ {
        match decimal_i64(part_ttl) {
            Some(v) => v,
            None => -1i64,
        }
    } else {
        -1i64
    };
    if t <= 0 {
        0i64
    } else {
        t.wrapping_mul(1000)
    }
}

/// Why a line could not be imported.
#[derive(Debug, Clone, Copy, PartialEq, Eq, Structural)]
pub enum ImportError {
    /// The line does not have two or three fields.
    InvalidLine,
    /// The key or the value is not valid Base64.
    InvalidBase64,
}

/// The arguments of a `RESTORE`: key, TTL in milliseconds, serialized value
/// and whether to add `REPLACE`.
#[derive(Debug)]
pub struct RestoreArgs {
    pub key: Vec<u8>,
    pub ttl: i64,
    pub value: Vec<u8>,
    pub replace: bool,
}

/// What an import line stands for, as (key, TTL, value, replace).
pub open spec fn import_line(line: Seq<char>, ttl: i64, handle_ttl: Seq<char>, handle_conflict: Seq<char>)
    -> Result<(Seq<u8>, i64, Seq<u8>, bool), ImportError>
{
    let parts = comma_fields(line);
    if parts.len() != 2 && parts.len() != 3 {
        Err(ImportError::InvalidLine)
    } else {
        let ttl_part = if parts.len() == 3 {
            parts[2]
        } else {
            "-1"@
        };
        match base64_decoded(parts[0]) {
            None => Err(ImportError::InvalidBase64),
            Some(k) => match base64_decoded(parts[1]) {
                None => Err(ImportError::InvalidBase64),
                Some(v) => Ok((k, restore_ttl(ttl_part, ttl, handle_ttl), v, handle_conflict == "replace"@)),
            },
        }
    }
}

/// The TTL that `RESTORE` gets for an imported key.
pub fn import_restore_ttl(part_ttl: &str, ttl: i64, handle_ttl: &str) -> (r: i64)
    ensures
        r == restore_ttl(part_ttl@, ttl, handle_ttl@),
{
    let h = str_to_chars(handle_ttl);
    let t = if crate::text::chars_eq_str(h.as_slice(), "custom") {
        ttl
    } else if crate::text::chars_eq_str(h.as_slice(), "parse") {
        match parse_i64(part_ttl) {
            Some(v) => v,
            None => -1,
        }
    } else {
        -1
    };
    if t <= 0 {
        0
    } else {
        t.wrapping_mul(1000)
    }
}

/// The export line of a key. Importing the line with the TTL taken from it
/// restores the same key and value.
pub fn export_key_line(key: &[u8], dump: &[u8], ttl: i64) -> (r: String)
    ensures
        r@ == export_line(key@, dump@, ttl),
        forall|t: i64, conflict: Seq<char>| #[trigger] import_line(r@, t, "parse"@, conflict) == Ok::<
            (Seq<u8>, i64, Seq<u8>, bool),
            ImportError,
        >((key@, if ttl <= 0 { 0i64 } else { ttl.wrapping_mul(1000) }, dump@, conflict == "replace"@)),
{
    let k = base64_encode(key);
    let v = base64_encode(dump);
    let mut s = String::new();
    push_str(&mut s, k.as_str());
    push_str(&mut s, ",");
    push_str(&mut s, v.as_str());
    push_str(&mut s, ",");
    push_decimal_i64(&mut s, ttl);
    proof {
        reveal_strlit(",");
        assert(s@ =~= export_line(key@, dump@, ttl));
        reveal_strlit("parse");
        reveal_strlit("custom");
        lemma_decimal_int_chars(ttl as int);
        lemma_fields_of_export(k@, v@, decimal_int(ttl as int));
        lemma_decimal_i64_roundtrip(ttl);
        let d = decimal_int(ttl as int);
        let parts = comma_fields(s@);
        assert(s@ == k@ + ","@ + v@ + ","@ + d);
        assert(parts == seq![k@, v@, d]);
        assert(parts[0] == k@ && parts[1] == v@ && parts[2] == d);
        assert("parse"@ != "custom"@) by {
            assert("parse"@.len() != "custom"@.len());
        }
        assert(decimal_i64(d) == Some(ttl));
        assert(restore_ttl(d, 0, "parse"@) == (if ttl <= 0 { 0i64 } else { ttl.wrapping_mul(1000) }));
        assert forall|t: i64, conflict: Seq<char>| #[trigger] import_line(s@, t, "parse"@, conflict) == Ok::<
            (Seq<u8>, i64, Seq<u8>, bool),
            ImportError,
        >((key@, if ttl <= 0 { 0i64 } else { ttl.wrapping_mul(1000) }, dump@, conflict == "replace"@)) by {
            assert(restore_ttl(d, t, "parse"@) == restore_ttl(d, 0, "parse"@));
        }
    }
    s
}

proof fn lemma_fields_no_comma(s: Seq<char>, cur: Seq<char>, rest: Seq<Seq<char>>, tail: Seq<char>)
    requires
        forall|i: int| 0 <= i < s.len() ==> #[trigger] s[i] != ',',
    ensures
        char_fields_from(s + ","@ + tail, ',', cur) == seq![cur + s] + char_fields_from(tail, ',', Seq::empty()),
        char_fields_from(s, ',', cur) == seq![cur + s],
    decreases s.len(),
{
    reveal_strlit(",");
    if s.len() == 0 {
        assert(s + ","@ + tail =~= seq![','] + tail);
        assert((seq![','] + tail).drop_first() =~= tail);
        assert(cur + s =~= cur);
    } else {
        let x = s + ","@ + tail;
        assert(x[0] == s[0]);
        assert(x.drop_first() =~= s.drop_first() + ","@ + tail);
        assert(s.drop_first().len() < s.len());
        lemma_fields_no_comma(s.drop_first(), cur.push(s[0]), rest, tail);
        assert(cur.push(s[0]) + s.drop_first() =~= cur + s);
    }
}

proof fn lemma_fields_of_export(a: Seq<char>, b: Seq<char>, c: Seq<char>)
    requires
        forall|i: int| 0 <= i < a.len() ==> is_base64_char(#[trigger] a[i]),
        forall|i: int| 0 <= i < b.len() ==> is_base64_char(#[trigger] b[i]),
        forall|i: int| 0 <= i < c.len() ==> #[trigger] c[i] != ',',
    ensures
        comma_fields(a + ","@ + b + ","@ + c) == seq![a, b, c],
{
    reveal_strlit(",");
    assert forall|i: int| 0 <= i < a.len() implies #[trigger] a[i] != ',' by {
        assert(is_base64_char(a[i]));
    }
    assert forall|i: int| 0 <= i < b.len() implies #[trigger] b[i] != ',' by {
        assert(is_base64_char(b[i]));
    }
    let e = Seq::<char>::empty();
    let t2 = b + ","@ + c;
    assert(a + ","@ + b + ","@ + c =~= a + ","@ + t2);
    lemma_fields_no_comma(a, e, Seq::empty(), t2);
    lemma_fields_no_comma(b, e, Seq::empty(), c);
    lemma_fields_no_comma(c, e, Seq::empty(), Seq::empty());
    assert(e + a =~= a);
    assert(e + b =~= b);
    assert(e + c =~= c);
    assert(seq![a] + (seq![b] + seq![c]) =~= seq![a, b, c]);
}

/// Reads an import line into the arguments of its `RESTORE`.
pub fn import_key_line(line: &str, ttl: i64, handle_ttl: &str, handle_conflict: &str) -> (r: Result<
    RestoreArgs,
    ImportError,
>)
    ensures
        match import_line(line@, ttl, handle_ttl@, handle_conflict@) {
            Err(e) => r matches Err(x) && x == e,
            Ok((k, t, v, rep)) => r matches Ok(a) && a.key@ == k && a.ttl == t && a.value@ == v
                && a.replace == rep,
        },
{
    let parts = split_char(line, ',');
    if parts.len() != 2 && parts.len() != 3 {
        return Err(ImportError::InvalidLine);
    }
    proof {
        assert(parts@[0]@ == parts.deep_view()[0]);
        assert(parts@[1]@ == parts.deep_view()[1]);
        if parts@.len() == 3 {
            assert(parts@[2]@ == parts.deep_view()[2]);
        }
        reveal_strlit("-1");
        reveal_strlit("replace");
    }
    let key = match base64_decode(parts[0].as_str()) {
        Some(k) => k,
        None => {
            return Err(ImportError::InvalidBase64);
        },
    };
    let value = match base64_decode(parts[1].as_str()) {
        Some(v) => v,
        None => {
            return Err(ImportError::InvalidBase64);
        },
    };
    let t = if parts.len() == 3 {
        import_restore_ttl(parts[2].as_str(), ttl, handle_ttl)
    } else {
        import_restore_ttl("-1", ttl, handle_ttl)
    };
    let c = str_to_chars(handle_conflict);
    let replace = crate::text::chars_eq_str(c.as_slice(), "replace");
    Ok(RestoreArgs { key, ttl: t, value, replace })
}

/// The counters of an export or import.
#[derive(Debug, Clone, Copy, PartialEq, Eq, Structural)]
pub struct TransferProgress {
    pub ok_count: u64,
    pub err_count: u64,
    pub ignore_count: u64,
    pub total_count: u64,
}

/// How one key or line of an export or import went.
#[derive(Debug, Clone, Copy, PartialEq, Eq, Structural)]
pub enum TransferOutcome {
    Done,
    Failed,
    /// The key already exists and is left as it is.
    Ignored,
}

/// The counters at the start of a transfer of `total` items.
pub fn start_progress(total: u64) -> (r: TransferProgress)
    ensures
        r == (TransferProgress { ok_count: 0, err_count: 0, ignore_count: 0, total_count: total }),
{
    TransferProgress { ok_count: 0, err_count: 0, ignore_count: 0, total_count: total }
}

/// The counters after one more item.
pub fn record_outcome(p: TransferProgress, o: TransferOutcome) -> (r: TransferProgress)
    requires
        p.ok_count < u64::MAX,
        p.err_count < u64::MAX,
        p.ignore_count < u64::MAX,
    ensures
        r.total_count == p.total_count,
        r.ok_count == p.ok_count + if o == TransferOutcome::Done { 1int } else { 0int },
        r.err_count == p.err_count + if o == TransferOutcome::Failed { 1int } else { 0int },
        r.ignore_count == p.ignore_count + if o == TransferOutcome::Ignored { 1int } else { 0int },
{
    match o {
        TransferOutcome::Done => TransferProgress { ok_count: p.ok_count + 1, ..p },
        TransferOutcome::Failed => TransferProgress { err_count: p.err_count + 1, ..p },
        TransferOutcome::Ignored => TransferProgress { ignore_count: p.ignore_count + 1, ..p },
    }
}

/// How a failed `RESTORE` counts: a key that already exists (the server's
/// message names the "Target key name") is ignored, anything else failed.
pub fn import_error_outcome(message: &str) -> (r: TransferOutcome)
    ensures
        r == if contains_seq(message@, "Target key name"@) {
            TransferOutcome::Ignored
        } else {
            TransferOutcome::Failed
        },
{
    if str_contains(message, "Target key name") {
        TransferOutcome::Ignored
    } else {
        TransferOutcome::Failed
    }
}

/// The text of an import file line to process: the line trimmed, or
/// nothing for a blank line.
pub fn import_line_text(line: &str) -> (r: Option<String>)
    ensures
        trim(line@).len() == 0 ==> r is None,
        trim(line@).len() > 0 ==> (r matches Some(t) && t@ == trim(line@)),
{
    let w = str_to_chars(line);
    let t = trim_chars(w.as_slice());
    if t.len() == 0 {
        None
    } else {
        Some(chars_to_string(t.as_slice()))
    }
}

} // verus!
