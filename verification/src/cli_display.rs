//! Renders command replies the way redis-cli does in its output modes:
//! the interactive TTY form, `--raw`, `--csv` and `--json`.
use vstd::prelude::*;
use crate::text::{hex_digit, push_char, push_chars, push_str, push_decimal_i64, push_decimal_u64, decimal_int,
    decimal_nat, strip_newline, strip_trailing_newline, utf8_lossy, bytes_to_string_lossy,
    eq_ignore_ascii_case, str_eq_ignore_ascii_case};
use crate::model::CliOutputMode;
use vstd::string::StringSliceAdditionalSpecFns;
use crate::cli_format::{format_quoted, quoted};

verus! {

/// A reply as the renderers read it. Numbers that are not 64-bit integers
/// (doubles, big numbers) and server errors are held as the text they are
/// displayed with; `Other` holds the debug text of a reply kind this model
/// does not name.
#[derive(Debug)]
pub enum CliValue {
    Nil,
    Int(i64),
    BulkString(Vec<u8>),
    Array(Vec<CliValue>),
    SimpleString(String),
    Okay,
    MapOf(Vec<(CliValue, CliValue)>),
    Attribute(Box<CliValue>),
    SetOf(Vec<CliValue>),
    Double(String),
    Boolean(bool),
    VerbatimString(String),
    BigNumber(String),
    Push(Vec<CliValue>),
    ServerError(String),
    Other(String),
}

/// The kind of an element list, which decides its numbering and its
/// empty-list message.
#[derive(Debug, Clone, Copy, PartialEq, Eq, Structural)]
pub enum AggregateKind {
    Array,
    SetOf,
    Push,
}

pub open spec fn spaces(n: int) -> Seq<char> {
    Seq::new(if n > 0 { n as nat } else { 0 }, |i: int| ' ')
}

/// Number of decimal digits of the largest index of a list of `count`
/// elements (at least one).
pub open spec fn index_width(count: nat) -> nat {
    decimal_nat(if count == 0 { 1 } else { count }).len()
}

/// The prefix of nested lines: the parent prefix and room for an index.
pub open spec fn child_prefix(prefix: Seq<char>, idxlen: nat) -> Seq<char> {
    prefix + spaces(idxlen + 2int)
}

/// The numbering of one entry: the entry prefix, the index right-aligned to
/// `idxlen`, the separator and a space.
pub open spec fn index_line(entry_prefix: Seq<char>, human_idx: nat, numsep: char, idxlen: nat) -> Seq<char> {
    entry_prefix + spaces(idxlen as int - decimal_nat(human_idx).len()) + decimal_nat(human_idx) + seq![
        numsep,
        ' ',
    ]
}

pub open spec fn numsep(kind: AggregateKind) -> char {
    if kind == AggregateKind::SetOf {
        '~'
    } else {
        ')'
    }
}

pub open spec fn empty_message(kind: AggregateKind) -> Seq<char> {
    match kind {
        AggregateKind::Array => "(empty array)\n"@,
        AggregateKind::SetOf => "(empty set)\n"@,
        AggregateKind::Push => "(empty push)\n"@,
    }
}

/// Whether a reply spans several lines in the TTY form.
pub open spec fn is_multiline(v: CliValue) -> bool
    decreases v,
{
    match v {
        CliValue::Array(a) => if a@.len() == 0 {
            false
        } else if a@.len() > 1 {
            true
        } else {
            is_multiline(a@[0])
        },
        CliValue::SetOf(a) => if a@.len() == 0 {
            false
        } else if a@.len() > 1 {
            true
        } else {
            is_multiline(a@[0])
        },
        CliValue::Push(a) => if a@.len() == 0 {
            false
        } else if a@.len() > 1 {
            true
        } else {
            is_multiline(a@[0])
        },
        CliValue::MapOf(p) => if p@.len() == 0 {
            false
        } else if p@.len() > 1 {
            true
        } else {
            is_multiline(p@[0].1)
        },
        _ => false,
    }
}

/// The TTY form of a reply; every line, nested ones included, ends in `\n`
/// and nested lines start with `prefix`.
pub open spec fn tty_text(v: CliValue, prefix: Seq<char>) -> Seq<char>
    decreases v, 0int,
{
    match v {
        CliValue::Nil => "(nil)\n"@,
        CliValue::BulkString(b) => quoted(b@) + "\n"@,
        CliValue::Okay => "OK\n"@,
        CliValue::SimpleString(s) => s@ + "\n"@,
        CliValue::Int(i) => "(integer) "@ + decimal_int(i as int) + "\n"@,
        CliValue::Double(t) => "(double) "@ + t@ + "\n"@,
        CliValue::Boolean(b) => if b {
            "(true)\n"@
        } else {
            "(false)\n"@
        },
        CliValue::VerbatimString(t) => t@ + "\n"@,
        CliValue::BigNumber(t) => "(integer) "@ + t@ + "\n"@,
        CliValue::ServerError(e) => "(error) "@ + e@ + "\n"@,
        CliValue::Attribute(d) => tty_text(*d, prefix),
        CliValue::Array(a) => if a@.len() == 0 {
            empty_message(AggregateKind::Array)
        } else {
            tty_entries(AggregateKind::Array, a@, a@.len() as int, prefix)
        },
        CliValue::SetOf(a) => if a@.len() == 0 {
            empty_message(AggregateKind::SetOf)
        } else {
            tty_entries(AggregateKind::SetOf, a@, a@.len() as int, prefix)
        },
        CliValue::Push(a) => if a@.len() == 0 {
            empty_message(AggregateKind::Push)
        } else {
            tty_entries(AggregateKind::Push, a@, a@.len() as int, prefix)
        },
        CliValue::MapOf(p) => if p@.len() == 0 {
            "(empty hash)\n"@
        } else {
            tty_map_entries(p@, p@.len() as int, prefix)
        },
        CliValue::Other(d) => d@ + "\n"@,
    }
}

/// The first `n` numbered entries of a list: the first entry starts without
/// the prefix, the others with it.
pub open spec fn tty_entries(kind: AggregateKind, items: Seq<CliValue>, n: int, prefix: Seq<char>) -> Seq<char>
    decreases items, n,
{
    if n <= 0 || n > items.len() {
        Seq::empty()
    } else {
        let i = n - 1;
        let idxlen = index_width(items.len());
        tty_entries(kind, items, i, prefix) + index_line(
            if i == 0 {
                Seq::empty()
            } else {
                prefix
            },
            n as nat,
            numsep(kind),
            idxlen,
        ) + tty_text(items[i], child_prefix(prefix, idxlen))
    }
}

/// The first `n` numbered entries of a map: `key => value`, the value on a
/// new line when it spans several.
pub open spec fn tty_map_entries(pairs: Seq<(CliValue, CliValue)>, n: int, prefix: Seq<char>) -> Seq<char>
    decreases pairs, n,
{
    if n <= 0 || n > pairs.len() {
        Seq::empty()
    } else {
        let i = n - 1;
        let idxlen = index_width(pairs.len());
        let nested = child_prefix(prefix, idxlen);
        tty_map_entries(pairs, i, prefix) + index_line(
            if i == 0 {
                Seq::empty()
            } else {
                prefix
            },
            n as nat,
            '#',
            idxlen,
        ) + strip_newline(tty_text(pairs[i].0, nested)) + " => "@ + (if is_multiline(pairs[i].1) {
            seq!['\n'] + nested
        } else {
            Seq::empty()
        }) + tty_text(pairs[i].1, nested)
    }
}

fn is_multiline_tty(v: &CliValue) -> (r: bool)
    ensures
        r == is_multiline(*v),
    decreases v,
{
    match v {
        CliValue::Array(a) | CliValue::SetOf(a) | CliValue::Push(a) => {
            if a.len() == 0 {
                false
            } else if a.len() > 1 {
                true
            } else {
                is_multiline_tty(&a[0])
            }
        },
        CliValue::MapOf(p) => {
            if p.len() == 0 {
                false
            } else if p.len() > 1 {
                true
            } else {
                is_multiline_tty(&p[0].1)
            }
        },
        _ => false,
    }
}

/// Number of decimal digits of `max(count, 1)`.
fn index_width_of(count: usize) -> (w: usize)
    ensures
        w == index_width(count as nat),
        1 <= w <= 20,
{
    let n: u64 = if count == 0 { 1 } else { count as u64 };
    let s = crate::text::u64_to_decimal(n);
    proof {
        lemma_decimal_len_bounds(n as nat);
    }
    s.as_str().unicode_len()
}

pub open spec fn pow10(k: nat) -> nat
    decreases k,
{
    if k == 0 {
        1
    } else {
        10 * pow10((k - 1) as nat)
    }
}

proof fn lemma_decimal_len_le(n: nat, k: nat)
    requires
        k >= 1,
        n < pow10(k),
    ensures
        decimal_nat(n).len() <= k,
    decreases k,
{
    if n >= 10 {
        if k == 1 {
            assert(pow10(1) == 10 * pow10(0));
        } else {
            let p = pow10((k - 1) as nat);
            assert(n / 10 < p) by (nonlinear_arith)
                requires
                    n < 10 * p,
            ;
            lemma_decimal_len_le(n / 10, (k - 1) as nat);
        }
    }
}

proof fn lemma_decimal_len_bounds(n: nat)
    requires
        n <= u64::MAX,
    ensures
        1 <= decimal_nat(n).len() <= 20,
{
    reveal_with_fuel(pow10, 21);
    assert(pow10(20) == 100000000000000000000);
    lemma_decimal_len_le(n, 20);
}

fn push_spaces(s: &mut String, n: usize)
    ensures
        final(s)@ == old(s)@ + spaces(n as int),
{
    let mut i: usize = 0;
    while i < n
        invariant
            i <= n,
            s@ == old(s)@ + spaces(i as int),
        decreases n - i,
    {
        push_char(s, ' ');
        i += 1;
        assert(s@ =~= old(s)@ + spaces(i as int));
    }
}

fn child_prefix_of(prefix: &str, idxlen: usize) -> (r: String)
    requires
        idxlen <= 20,
    ensures
        r@ == child_prefix(prefix@, idxlen as nat),
{
    let mut r = String::new();
    push_str(&mut r, prefix);
    push_spaces(&mut r, idxlen + 2);
    assert(r@ =~= child_prefix(prefix@, idxlen as nat));
    r
}

fn push_index_line(s: &mut String, entry_prefix: &str, human_idx: usize, sep: char, idxlen: usize)
    ensures
        final(s)@ == old(s)@ + index_line(entry_prefix@, human_idx as nat, sep, idxlen as nat),
{
    push_str(s, entry_prefix);
    let digits = crate::text::u64_to_decimal(human_idx as u64);
    let w = digits.as_str().unicode_len();
    if w < idxlen {
        push_spaces(s, idxlen - w);
    } else {
        assert(spaces(idxlen - decimal_nat(human_idx as nat).len()) =~= Seq::<char>::empty());
    }
    s.append(digits.as_str());
    push_char(s, sep);
    push_char(s, ' ');
    assert(s@ =~= old(s)@ + index_line(entry_prefix@, human_idx as nat, sep, idxlen as nat));
}

fn cli_format_tty(v: &CliValue, prefix: &str) -> (r: String)
    ensures
        r@ == tty_text(*v, prefix@),
    decreases v, 0int,
{
    let mut s = String::new();
    match v {
        CliValue::Nil => push_str(&mut s, "(nil)\n"),
        CliValue::BulkString(b) => {
            let q = format_quoted(b.as_slice());
            push_str(&mut s, q.as_str());
            push_str(&mut s, "\n");
        },
        CliValue::Okay => push_str(&mut s, "OK\n"),
        CliValue::SimpleString(t) => {
            push_str(&mut s, t.as_str());
            push_str(&mut s, "\n");
        },
        CliValue::Int(i) => {
            push_str(&mut s, "(integer) ");
            push_decimal_i64(&mut s, *i);
            push_str(&mut s, "\n");
        },
        CliValue::Double(t) => {
            push_str(&mut s, "(double) ");
            push_str(&mut s, t.as_str());
            push_str(&mut s, "\n");
        },
        CliValue::Boolean(b) => {
            if *b {
                push_str(&mut s, "(true)\n");
            } else {
                push_str(&mut s, "(false)\n");
            }
        },
        CliValue::VerbatimString(t) => {
            push_str(&mut s, t.as_str());
            push_str(&mut s, "\n");
        },
        CliValue::BigNumber(t) => {
            push_str(&mut s, "(integer) ");
            push_str(&mut s, t.as_str());
            push_str(&mut s, "\n");
        },
        CliValue::ServerError(e) => {
            push_str(&mut s, "(error) ");
            push_str(&mut s, e.as_str());
            push_str(&mut s, "\n");
        },
        CliValue::Attribute(d) => {
            return cli_format_tty(d, prefix);
        },
        CliValue::Array(a) => {
            return format_aggregate_tty(AggregateKind::Array, a, prefix);
        },
        CliValue::SetOf(a) => {
            return format_aggregate_tty(AggregateKind::SetOf, a, prefix);
        },
        CliValue::Push(a) => {
            return format_aggregate_tty(AggregateKind::Push, a, prefix);
        },
        CliValue::MapOf(p) => {
            return format_map_tty(p, prefix);
        },
        CliValue::Other(d) => {
            push_str(&mut s, d.as_str());
            push_str(&mut s, "\n");
        },
    }
    assert(s@ =~= tty_text(*v, prefix@));
    s
}

fn format_aggregate_tty(kind: AggregateKind, elements: &Vec<CliValue>, prefix: &str) -> (r: String)
    ensures
        r@ == (if elements@.len() == 0 {
            empty_message(kind)
        } else {
            tty_entries(kind, elements@, elements@.len() as int, prefix@)
        }),
    decreases elements@, elements@.len() + 1,
{
    let mut out = String::new();
    if elements.len() == 0 {
        match kind {
            AggregateKind::Array => push_str(&mut out, "(empty array)\n"),
            AggregateKind::SetOf => push_str(&mut out, "(empty set)\n"),
            AggregateKind::Push => push_str(&mut out, "(empty push)\n"),
        }
        assert(out@ =~= empty_message(kind));
        return out;
    }
    let idxlen = index_width_of(elements.len());
    let nested = child_prefix_of(prefix, idxlen);
    let sep = if kind == AggregateKind::SetOf { '~' } else { ')' };
    let mut i: usize = 0;
    assert(out@ =~= tty_entries(kind, elements@, 0, prefix@));
    while i < elements.len()
        invariant
            i <= elements@.len(),
            idxlen == index_width(elements@.len() as nat),
            nested@ == child_prefix(prefix@, idxlen as nat),
            sep == numsep(kind),
            out@ == tty_entries(kind, elements@, i as int, prefix@),
        decreases elements@.len() - i,
    {
        proof {
            reveal_strlit("");
        }
        if i == 0 {
            push_index_line(&mut out, "", i + 1, sep, idxlen);
        } else {
            push_index_line(&mut out, prefix, i + 1, sep, idxlen);
        }
        proof {
            assert(decreases_to!(elements@ => elements@[i as int]));
        }
        let t = cli_format_tty(&elements[i], nested.as_str());
        out.append(t.as_str());
        i += 1;
        proof {
            assert(tty_entries(kind, elements@, i as int, prefix@) == tty_entries(kind, elements@, i - 1, prefix@) + index_line(
                if i - 1 == 0 { Seq::<char>::empty() } else { prefix@ },
                i as nat,
                numsep(kind),
                idxlen as nat,
            ) + tty_text(elements@[i - 1], child_prefix(prefix@, idxlen as nat)));
        }
        assert(out@ =~= tty_entries(kind, elements@, i as int, prefix@));
    }
    out
}

fn format_map_tty(pairs: &Vec<(CliValue, CliValue)>, prefix: &str) -> (r: String)
    ensures
        r@ == (if pairs@.len() == 0 {
            "(empty hash)\n"@
        } else {
            tty_map_entries(pairs@, pairs@.len() as int, prefix@)
        }),
    decreases pairs@, pairs@.len() + 1,
{
    let mut out = String::new();
    if pairs.len() == 0 {
        push_str(&mut out, "(empty hash)\n");
        return out;
    }
    let idxlen = index_width_of(pairs.len());
    let nested = child_prefix_of(prefix, idxlen);
    let mut i: usize = 0;
    assert(out@ =~= tty_map_entries(pairs@, 0, prefix@));
    while i < pairs.len()
        invariant
            i <= pairs@.len(),
            idxlen == index_width(pairs@.len() as nat),
            nested@ == child_prefix(prefix@, idxlen as nat),
            out@ == tty_map_entries(pairs@, i as int, prefix@),
        decreases pairs@.len() - i,
    {
        proof {
            reveal_strlit("");
        }
        if i == 0 {
            push_index_line(&mut out, "", i + 1, '#', idxlen);
        } else {
            push_index_line(&mut out, prefix, i + 1, '#', idxlen);
        }
        let (key, val) = &pairs[i];
        proof {
            assert(decreases_to!(pairs@ => pairs@[i as int]));
            assert(pairs@[i as int] == (*key, *val));
        }
        let key_part = strip_trailing_newline(cli_format_tty(key, nested.as_str()));
        out.append(key_part.as_str());
        push_str(&mut out, " => ");
        if is_multiline_tty(val) {
            push_char(&mut out, '\n');
            out.append(nested.as_str());
        }
        let t = cli_format_tty(val, nested.as_str());
        out.append(t.as_str());
        i += 1;
        assert(out@ =~= tty_map_entries(pairs@, i as int, prefix@));
    }
    out
}


// ---------------------------------------------------------------------------
// Raw (`--raw`)
// ---------------------------------------------------------------------------

/// The raw form of a reply: text without quotes, elements one per line.
pub open spec fn raw_text(v: CliValue) -> Seq<char>
    decreases v, 0int,
{
    match v {
        CliValue::Nil => Seq::empty(),
        CliValue::BulkString(b) => utf8_lossy(b@),
        CliValue::Okay => "OK"@,
        CliValue::SimpleString(t) => t@,
        CliValue::Int(i) => decimal_int(i as int),
        CliValue::Double(t) => t@,
        CliValue::Boolean(b) => if b {
            "(true)"@
        } else {
            "(false)"@
        },
        CliValue::VerbatimString(t) => t@,
        CliValue::BigNumber(t) => t@,
        CliValue::ServerError(e) => e@ + "\n"@,
        CliValue::Attribute(d) => raw_text(*d),
        CliValue::Array(a) => raw_join(a@, a@.len() as int),
        CliValue::SetOf(a) => raw_join(a@, a@.len() as int),
        CliValue::Push(a) => raw_join(a@, a@.len() as int),
        CliValue::MapOf(p) => raw_map_join(p@, p@.len() as int),
        CliValue::Other(d) => d@,
    }
}

/// The raw forms of the first `n` elements joined by `\n`.
pub open spec fn raw_join(items: Seq<CliValue>, n: int) -> Seq<char>
    decreases items, n,
{
    if n <= 0 || n > items.len() {
        Seq::empty()
    } else if n == 1 {
        raw_text(items[0])
    } else {
        raw_join(items, n - 1) + "\n"@ + raw_text(items[n - 1])
    }
}

/// `key value` for the first `n` pairs, joined by `\n`.
pub open spec fn raw_map_join(pairs: Seq<(CliValue, CliValue)>, n: int) -> Seq<char>
    decreases pairs, n,
{
    if n <= 0 || n > pairs.len() {
        Seq::empty()
    } else if n == 1 {
        raw_text(pairs[0].0) + " "@ + raw_text(pairs[0].1)
    } else {
        raw_map_join(pairs, n - 1) + "\n"@ + raw_text(pairs[n - 1].0) + " "@ + raw_text(
            pairs[n - 1].1,
        )
    }
}

fn cli_format_raw(v: &CliValue) -> (r: String)
    ensures
        r@ == raw_text(*v),
    decreases v, 0int,
{
    let mut s = String::new();
    match v {
        CliValue::Nil => {},
        CliValue::BulkString(b) => {
            return bytes_to_string_lossy(b.as_slice());
        },
        CliValue::Okay => push_str(&mut s, "OK"),
        CliValue::SimpleString(t) => push_str(&mut s, t.as_str()),
        CliValue::Int(i) => push_decimal_i64(&mut s, *i),
        CliValue::Double(t) => push_str(&mut s, t.as_str()),
        CliValue::Boolean(b) => {
            if *b {
                push_str(&mut s, "(true)");
            } else {
                push_str(&mut s, "(false)");
            }
        },
        CliValue::VerbatimString(t) => push_str(&mut s, t.as_str()),
        CliValue::BigNumber(t) => push_str(&mut s, t.as_str()),
        CliValue::ServerError(e) => {
            push_str(&mut s, e.as_str());
            push_str(&mut s, "\n");
        },
        CliValue::Attribute(d) => {
            return cli_format_raw(d);
        },
        CliValue::Array(a) | CliValue::SetOf(a) | CliValue::Push(a) => {
            return format_raw_sequence(a);
        },
        CliValue::MapOf(p) => {
            return format_raw_map(p);
        },
        CliValue::Other(d) => push_str(&mut s, d.as_str()),
    }
    assert(s@ =~= raw_text(*v));
    s
}

fn format_raw_sequence(items: &Vec<CliValue>) -> (r: String)
    ensures
        r@ == raw_join(items@, items@.len() as int),
    decreases items@, items@.len() + 1,
{
    let mut out = String::new();
    let mut i: usize = 0;
    assert(out@ =~= raw_join(items@, 0));
    while i < items.len()
        invariant
            i <= items@.len(),
            out@ == raw_join(items@, i as int),
        decreases items@.len() - i,
    {
        if i > 0 {
            push_str(&mut out, "\n");
        }
        proof {
            assert(decreases_to!(items@ => items@[i as int]));
        }
        let t = cli_format_raw(&items[i]);
        out.append(t.as_str());
        i += 1;
        proof {
            if i == 1 {
                reveal_strlit("");
                assert(out@ =~= raw_text(items@[0]));
            }
        }
        assert(out@ =~= raw_join(items@, i as int));
    }
    out
}

fn format_raw_map(pairs: &Vec<(CliValue, CliValue)>) -> (r: String)
    ensures
        r@ == raw_map_join(pairs@, pairs@.len() as int),
    decreases pairs@, pairs@.len() + 1,
{
    let mut out = String::new();
    let mut i: usize = 0;
    assert(out@ =~= raw_map_join(pairs@, 0));
    while i < pairs.len()
        invariant
            i <= pairs@.len(),
            out@ == raw_map_join(pairs@, i as int),
        decreases pairs@.len() - i,
    {
        if i > 0 {
            push_str(&mut out, "\n");
        }
        let (k, v) = &pairs[i];
        proof {
            assert(decreases_to!(pairs@ => pairs@[i as int]));
            assert(pairs@[i as int] == (*k, *v));
        }
        let kt = cli_format_raw(k);
        let vt = cli_format_raw(v);
        out.append(kt.as_str());
        push_str(&mut out, " ");
        out.append(vt.as_str());
        i += 1;
        assert(out@ =~= raw_map_join(pairs@, i as int));
    }
    out
}

// ---------------------------------------------------------------------------
// CSV (`--csv`)
// ---------------------------------------------------------------------------

/// The CSV form of a reply: strings quoted, elements (and map keys and
/// values alike) separated by commas.
pub open spec fn csv_text(v: CliValue) -> Seq<char>
    decreases v, 0int,
{
    match v {
        CliValue::Nil => "NULL"@,
        CliValue::BulkString(b) => quoted(b@),
        CliValue::Okay => quoted(seq![0x4fu8, 0x4bu8]),
        CliValue::SimpleString(t) => quoted(vstd::utf8::encode_utf8(t@)),
        CliValue::Int(i) => decimal_int(i as int),
        CliValue::Double(t) => t@,
        CliValue::Boolean(b) => if b {
            "true"@
        } else {
            "false"@
        },
        CliValue::VerbatimString(t) => quoted(vstd::utf8::encode_utf8(t@)),
        CliValue::BigNumber(t) => t@,
        CliValue::ServerError(e) => "ERROR,"@ + quoted(vstd::utf8::encode_utf8(e@)),
        CliValue::Attribute(d) => csv_text(*d),
        CliValue::Array(a) => csv_join(a@, a@.len() as int),
        CliValue::SetOf(a) => csv_join(a@, a@.len() as int),
        CliValue::Push(a) => csv_join(a@, a@.len() as int),
        CliValue::MapOf(p) => csv_map_join(p@, p@.len() as int),
        CliValue::Other(d) => d@,
    }
}

/// The CSV forms of the first `n` elements joined by `,`.
pub open spec fn csv_join(items: Seq<CliValue>, n: int) -> Seq<char>
    decreases items, n,
{
    if n <= 0 || n > items.len() {
        Seq::empty()
    } else if n == 1 {
        csv_text(items[0])
    } else {
        csv_join(items, n - 1) + ","@ + csv_text(items[n - 1])
    }
}

/// The keys and values of the first `n` pairs, all joined by `,`.
pub open spec fn csv_map_join(pairs: Seq<(CliValue, CliValue)>, n: int) -> Seq<char>
    decreases pairs, n,
{
    if n <= 0 || n > pairs.len() {
        Seq::empty()
    } else if n == 1 {
        csv_text(pairs[0].0) + ","@ + csv_text(pairs[0].1)
    } else {
        csv_map_join(pairs, n - 1) + ","@ + csv_text(pairs[n - 1].0) + ","@ + csv_text(
            pairs[n - 1].1,
        )
    }
}

fn cli_format_csv(v: &CliValue) -> (r: String)
    ensures
        r@ == csv_text(*v),
    decreases v, 0int,
{
    let mut s = String::new();
    match v {
        CliValue::Nil => push_str(&mut s, "NULL"),
        CliValue::BulkString(b) => {
            return format_quoted(b.as_slice());
        },
        CliValue::Okay => {
            let ok: [u8; 2] = [0x4f, 0x4b];
            assert(ok@ =~= seq![0x4fu8, 0x4bu8]);
            return format_quoted(&ok);
        },
        CliValue::SimpleString(t) => {
            return format_quoted(t.as_str().as_bytes());
        },
        CliValue::Int(i) => push_decimal_i64(&mut s, *i),
        CliValue::Double(t) => push_str(&mut s, t.as_str()),
        CliValue::Boolean(b) => {
            if *b {
                push_str(&mut s, "true");
            } else {
                push_str(&mut s, "false");
            }
        },
        CliValue::VerbatimString(t) => {
            return format_quoted(t.as_str().as_bytes());
        },
        CliValue::BigNumber(t) => push_str(&mut s, t.as_str()),
        CliValue::ServerError(e) => {
            push_str(&mut s, "ERROR,");
            let q = format_quoted(e.as_str().as_bytes());
            s.append(q.as_str());
        },
        CliValue::Attribute(d) => {
            return cli_format_csv(d);
        },
        CliValue::Array(a) | CliValue::SetOf(a) | CliValue::Push(a) => {
            return format_csv_sequence(a);
        },
        CliValue::MapOf(p) => {
            return format_csv_map(p);
        },
        CliValue::Other(d) => push_str(&mut s, d.as_str()),
    }
    assert(s@ =~= csv_text(*v));
    s
}

fn format_csv_sequence(items: &Vec<CliValue>) -> (r: String)
    ensures
        r@ == csv_join(items@, items@.len() as int),
    decreases items@, items@.len() + 1,
{
    let mut out = String::new();
    let mut i: usize = 0;
    assert(out@ =~= csv_join(items@, 0));
    while i < items.len()
        invariant
            i <= items@.len(),
            out@ == csv_join(items@, i as int),
        decreases items@.len() - i,
    {
        if i > 0 {
            push_str(&mut out, ",");
        }
        proof {
            assert(decreases_to!(items@ => items@[i as int]));
        }
        let t = cli_format_csv(&items[i]);
        out.append(t.as_str());
        i += 1;
        proof {
            if i == 1 {
                assert(out@ =~= csv_text(items@[0]));
            }
        }
        assert(out@ =~= csv_join(items@, i as int));
    }
    out
}

fn format_csv_map(pairs: &Vec<(CliValue, CliValue)>) -> (r: String)
    ensures
        r@ == csv_map_join(pairs@, pairs@.len() as int),
    decreases pairs@, pairs@.len() + 1,
{
    let mut out = String::new();
    let mut i: usize = 0;
    assert(out@ =~= csv_map_join(pairs@, 0));
    while i < pairs.len()
        invariant
            i <= pairs@.len(),
            out@ == csv_map_join(pairs@, i as int),
        decreases pairs@.len() - i,
    {
        if i > 0 {
            push_str(&mut out, ",");
        }
        let (k, v) = &pairs[i];
        proof {
            assert(decreases_to!(pairs@ => pairs@[i as int]));
            assert(pairs@[i as int] == (*k, *v));
        }
        let kt = cli_format_csv(k);
        let vt = cli_format_csv(v);
        out.append(kt.as_str());
        push_str(&mut out, ",");
        out.append(vt.as_str());
        i += 1;
        assert(out@ =~= csv_map_join(pairs@, i as int));
    }
    out
}


// ---------------------------------------------------------------------------
// JSON (`--json`)
// ---------------------------------------------------------------------------

/// How `serde_json` writes one character inside a JSON string: a double
/// quote or a backslash behind a backslash; backspace, tab, line feed, form
/// feed and carriage return as a backslash and `b`, `t`, `n`, `f`, `r`; the
/// other characters below U+0020 as a backslash, `u00` and two lower-case
/// hex digits; every other character as itself.
pub open spec fn json_char(c: char) -> Seq<char> {
    if c == '"' {
        seq!['\\', '"']
    } else if c == '\\' {
        seq!['\\', '\\']
    } else if c == '\u{8}' {
        seq!['\\', 'b']
    } else if c == '\t' {
        seq!['\\', 't']
    } else if c == '\n' {
        seq!['\\', 'n']
    } else if c == '\u{c}' {
        seq!['\\', 'f']
    } else if c == '\r' {
        seq!['\\', 'r']
    } else if (c as u32) < 0x20 {
        seq!['\\', 'u', '0', '0', hex_digit(((c as u32) / 16) as u8), hex_digit(((c as u32) % 16) as u8)]
    } else {
        seq![c]
    }
}

/// The characters of a text as `serde_json` writes them inside a string.
pub open spec fn json_escaped(t: Seq<char>) -> Seq<char>
    decreases t.len(),
{
    if t.len() == 0 {
        Seq::empty()
    } else {
        json_escaped(t.drop_last()) + json_char(t.last())
    }
}

/// The JSON string literal that `serde_json::to_string` writes for a text.
pub open spec fn json_quoted(t: Seq<char>) -> Seq<char> {
    seq!['"'] + json_escaped(t) + seq!['"']
}

/// `serde_json::to_string` on a string slice. It writes into a `Vec`, which
/// cannot fail, so the result is the text between double quotes with each
/// character escaped by `serde_json`'s table (`ser.rs`, `ESCAPE` and
/// `write_char_escape`).
#[verifier::external_body]
fn json_quote(text: &str) -> (r: Option<String>)
    ensures
        r is Some,
        r->0@ == json_quoted(text@),
{
    serde_json::to_string(text).ok()
}

/// A JSON string for a text.
pub open spec fn json_str(t: Seq<char>) -> Seq<char> {
    json_quoted(t)
}

fn json_string_from_str(text: &str) -> (r: String)
    ensures
        r@ == json_str(text@),
{
    match json_quote(text) {
        Some(q) => q,
        None => {
            let mut s = String::new();
            push_str(&mut s, "\"\"");
            s
        },
    }
}

/// The JSON form of a reply.
pub open spec fn json_text(v: CliValue) -> Seq<char>
    decreases v, 0int,
{
    match v {
        CliValue::Nil => "null"@,
        CliValue::BulkString(b) => json_str(utf8_lossy(b@)),
        CliValue::Okay => json_str("OK"@),
        CliValue::SimpleString(t) => json_str(t@),
        CliValue::Int(i) => decimal_int(i as int),
        CliValue::Double(t) => t@,
        CliValue::Boolean(b) => if b {
            "true"@
        } else {
            "false"@
        },
        CliValue::VerbatimString(t) => json_str(t@),
        CliValue::BigNumber(t) => t@,
        CliValue::ServerError(e) => "error:"@ + json_str(e@),
        CliValue::Attribute(d) => json_text(*d),
        CliValue::Array(a) => "["@ + json_join(a@, a@.len() as int) + "]"@,
        CliValue::SetOf(a) => "["@ + json_join(a@, a@.len() as int) + "]"@,
        CliValue::Push(a) => "["@ + json_join(a@, a@.len() as int) + "]"@,
        CliValue::MapOf(p) => "{"@ + json_map_join(p@, p@.len() as int) + "}"@,
        CliValue::Other(d) => json_str(d@),
    }
}

/// A JSON object key for a reply: string replies as they are, other replies
/// rendered and then quoted unless the rendering already is a string.
pub open spec fn json_key_text(k: CliValue) -> Seq<char>
    decreases k, 1int,
{
    match k {
        CliValue::BulkString(_) | CliValue::SimpleString(_) | CliValue::Okay
        | CliValue::VerbatimString(_) => json_text(k),
        _ => {
            let r = json_text(k);
            if r.len() > 0 && r[0] == '"' {
                r
            } else {
                json_str(r)
            }
        },
    }
}

/// The JSON forms of the first `n` elements joined by `,`.
pub open spec fn json_join(items: Seq<CliValue>, n: int) -> Seq<char>
    decreases items, n,
{
    if n <= 0 || n > items.len() {
        Seq::empty()
    } else if n == 1 {
        json_text(items[0])
    } else {
        json_join(items, n - 1) + ","@ + json_text(items[n - 1])
    }
}

/// `key:value` for the first `n` pairs, joined by `,`.
pub open spec fn json_map_join(pairs: Seq<(CliValue, CliValue)>, n: int) -> Seq<char>
    decreases pairs, n,
{
    if n <= 0 || n > pairs.len() {
        Seq::empty()
    } else if n == 1 {
        json_key_text(pairs[0].0) + ":"@ + json_text(pairs[0].1)
    } else {
        json_map_join(pairs, n - 1) + ","@ + json_key_text(pairs[n - 1].0) + ":"@ + json_text(
            pairs[n - 1].1,
        )
    }
}

fn cli_format_json(v: &CliValue) -> (r: String)
    ensures
        r@ == json_text(*v),
    decreases v, 0int,
{
    let mut s = String::new();
    match v {
        CliValue::Nil => push_str(&mut s, "null"),
        CliValue::BulkString(b) => {
            let text = bytes_to_string_lossy(b.as_slice());
            return json_string_from_str(text.as_str());
        },
        CliValue::Okay => {
            return json_string_from_str("OK");
        },
        CliValue::SimpleString(t) => {
            return json_string_from_str(t.as_str());
        },
        CliValue::Int(i) => push_decimal_i64(&mut s, *i),
        CliValue::Double(t) => push_str(&mut s, t.as_str()),
        CliValue::Boolean(b) => {
            if *b {
                push_str(&mut s, "true");
            } else {
                push_str(&mut s, "false");
            }
        },
        CliValue::VerbatimString(t) => {
            return json_string_from_str(t.as_str());
        },
        CliValue::BigNumber(t) => push_str(&mut s, t.as_str()),
        CliValue::ServerError(e) => {
            push_str(&mut s, "error:");
            let q = json_string_from_str(e.as_str());
            s.append(q.as_str());
        },
        CliValue::Attribute(d) => {
            return cli_format_json(d);
        },
        CliValue::Array(a) | CliValue::SetOf(a) | CliValue::Push(a) => {
            push_str(&mut s, "[");
            let body = format_json_sequence(a);
            s.append(body.as_str());
            push_str(&mut s, "]");
        },
        CliValue::MapOf(p) => {
            push_str(&mut s, "{");
            let body = format_json_map(p);
            s.append(body.as_str());
            push_str(&mut s, "}");
        },
        CliValue::Other(d) => {
            return json_string_from_str(d.as_str());
        },
    }
    assert(s@ =~= json_text(*v));
    s
}

fn json_format_map_key(k: &CliValue) -> (r: String)
    ensures
        r@ == json_key_text(*k),
    decreases k, 1int,
{
    match k {
        CliValue::BulkString(_) | CliValue::SimpleString(_) | CliValue::Okay
        | CliValue::VerbatimString(_) => cli_format_json(k),
        _ => {
            let rendered = cli_format_json(k);
            let n = rendered.as_str().unicode_len();
            if n > 0 && rendered.as_str().get_char(0) == '"' {
                rendered
            } else {
                json_string_from_str(rendered.as_str())
            }
        },
    }
}

fn format_json_sequence(items: &Vec<CliValue>) -> (r: String)
    ensures
        r@ == json_join(items@, items@.len() as int),
    decreases items@, items@.len() + 1,
{
    let mut out = String::new();
    let mut i: usize = 0;
    assert(out@ =~= json_join(items@, 0));
    while i < items.len()
        invariant
            i <= items@.len(),
            out@ == json_join(items@, i as int),
        decreases items@.len() - i,
    {
        if i > 0 {
            push_str(&mut out, ",");
        }
        proof {
            assert(decreases_to!(items@ => items@[i as int]));
        }
        let t = cli_format_json(&items[i]);
        out.append(t.as_str());
        i += 1;
        proof {
            if i == 1 {
                assert(out@ =~= json_text(items@[0]));
            }
        }
        assert(out@ =~= json_join(items@, i as int));
    }
    out
}

fn format_json_map(pairs: &Vec<(CliValue, CliValue)>) -> (r: String)
    ensures
        r@ == json_map_join(pairs@, pairs@.len() as int),
    decreases pairs@, pairs@.len() + 1,
{
    let mut out = String::new();
    let mut i: usize = 0;
    assert(out@ =~= json_map_join(pairs@, 0));
    while i < pairs.len()
        invariant
            i <= pairs@.len(),
            out@ == json_map_join(pairs@, i as int),
        decreases pairs@.len() - i,
    {
        if i > 0 {
            push_str(&mut out, ",");
        }
        let (k, v) = &pairs[i];
        proof {
            assert(decreases_to!(pairs@ => pairs@[i as int]));
            assert(pairs@[i as int] == (*k, *v));
        }
        let kt = json_format_map_key(k);
        let vt = cli_format_json(v);
        out.append(kt.as_str());
        push_str(&mut out, ":");
        out.append(vt.as_str());
        i += 1;
        assert(out@ =~= json_map_join(pairs@, i as int));
    }
    out
}

// ---------------------------------------------------------------------------
// Commands whose replies the TTY mode shows raw
// ---------------------------------------------------------------------------

/// Whether argument `i` exists and reads, case-insensitively, as `expected`.
pub open spec fn arg_is(args: Seq<Seq<u8>>, i: int, expected: Seq<char>) -> bool {
    0 <= i < args.len() && eq_ignore_ascii_case(utf8_lossy(args[i]), expected)
}

/// Whether argument `i` exists and equals `expected`, ignoring ASCII case.
pub fn arg_eq(args: &[Vec<u8>], i: usize, expected: &str) -> (r: bool)
    ensures
        r == arg_is(args.deep_view(), i as int, expected@),
{
    if i < args.len() {
        proof {
            assert(args@[i as int].deep_view() =~= args@[i as int]@);
        }
        let text = bytes_to_string_lossy(args[i].as_slice());
        str_eq_ignore_ascii_case(text.as_str(), expected)
    } else {
        false
    }
}

/// Commands whose replies the TTY mode prints raw (unquoted, line breaks
/// kept), as redis-cli does: INFO, LOLWUT, DEBUG HTSTATS / HTSTATS-KEY /
/// CLIENT-EVICTION, MEMORY MALLOC-STATS / DOCTOR, CLUSTER NODES / INFO (with
/// no further argument), CLIENT LIST / INFO, LATENCY GRAPH <event>, LATENCY
/// DOCTOR and PROXY INFO.
pub open spec fn uses_verbatim_tty(cmd: Seq<char>, args: Seq<Seq<u8>>) -> bool {
    let n = args.len();
    if eq_ignore_ascii_case(cmd, "info"@) || eq_ignore_ascii_case(cmd, "lolwut"@) {
        true
    } else if eq_ignore_ascii_case(cmd, "debug"@) && n >= 1 {
        arg_is(args, 0, "htstats"@) || arg_is(args, 0, "htstats-key"@) || arg_is(
            args,
            0,
            "client-eviction"@,
        )
    } else if eq_ignore_ascii_case(cmd, "memory"@) && n >= 1 {
        arg_is(args, 0, "malloc-stats"@) || arg_is(args, 0, "doctor"@)
    } else if eq_ignore_ascii_case(cmd, "cluster"@) && n == 1 {
        arg_is(args, 0, "nodes"@) || arg_is(args, 0, "info"@)
    } else if eq_ignore_ascii_case(cmd, "client"@) && n >= 1 {
        arg_is(args, 0, "list"@) || arg_is(args, 0, "info"@)
    } else if eq_ignore_ascii_case(cmd, "latency"@) && ((n == 2 && arg_is(args, 0, "graph"@)) || (
    n == 1 && arg_is(args, 0, "doctor"@))) {
        true
    } else {
        eq_ignore_ascii_case(cmd, "proxy"@) && n >= 1 && arg_is(args, 0, "info"@)
    }
}

/// Whether the TTY mode shows the reply to this command raw.
pub fn command_uses_verbatim_tty(cmd: &str, args: &[Vec<u8>]) -> (r: bool)
    ensures
        r == uses_verbatim_tty(cmd@, args.deep_view()),
{
    if str_eq_ignore_ascii_case(cmd, "info") || str_eq_ignore_ascii_case(cmd, "lolwut") {
        return true;
    }
    if str_eq_ignore_ascii_case(cmd, "debug") && args.len() >= 1 {
        return arg_eq(args, 0, "htstats") || arg_eq(args, 0, "htstats-key") || arg_eq(
            args,
            0,
            "client-eviction",
        );
    }
    if str_eq_ignore_ascii_case(cmd, "memory") && args.len() >= 1 {
        return arg_eq(args, 0, "malloc-stats") || arg_eq(args, 0, "doctor");
    }
    if str_eq_ignore_ascii_case(cmd, "cluster") && args.len() == 1 {
        return arg_eq(args, 0, "nodes") || arg_eq(args, 0, "info");
    }
    if str_eq_ignore_ascii_case(cmd, "client") && args.len() >= 1 {
        return arg_eq(args, 0, "list") || arg_eq(args, 0, "info");
    }
    if str_eq_ignore_ascii_case(cmd, "latency") {
        if args.len() == 2 && arg_eq(args, 0, "graph") {
            return true;
        }
        if args.len() == 1 && arg_eq(args, 0, "doctor") {
            return true;
        }
    }
    str_eq_ignore_ascii_case(cmd, "proxy") && args.len() >= 1 && arg_eq(args, 0, "info")
}

/// What the terminal shows for a reply: `output_mode` `None` is the TTY
/// mode. In the TTY mode the commands of `uses_verbatim_tty` are shown raw,
/// and otherwise the last line's `\n` is dropped.
pub open spec fn cli_display_text(
    value: CliValue,
    output_mode: Option<CliOutputMode>,
    cmd: Seq<char>,
    args: Seq<Seq<u8>>,
) -> Seq<char> {
    let mode = match output_mode {
        Some(m) => m,
        None => CliOutputMode::Standard,
    };
    let verbatim = uses_verbatim_tty(cmd, args);
    match mode {
        CliOutputMode::Standard => if verbatim {
            raw_text(value)
        } else {
            strip_newline(tty_text(value, Seq::empty()))
        },
        CliOutputMode::Raw => raw_text(value),
        CliOutputMode::Csv => csv_text(value),
        CliOutputMode::Json => json_text(value),
    }
}

/// Renders a command reply for the terminal in the chosen output mode.
pub fn redis_value_to_cli_display(
    value: CliValue,
    output_mode: Option<CliOutputMode>,
    cmd: &str,
    args: &[Vec<u8>],
) -> (r: String)
    ensures
        r@ == cli_display_text(value, output_mode, cmd@, args.deep_view()),
{
    let mode = match output_mode {
        Some(m) => m,
        None => CliOutputMode::Standard,
    };
    let verbatim_cmd = command_uses_verbatim_tty(cmd, args);
    proof {
        reveal_strlit("");
        assert(""@ =~= Seq::<char>::empty());
    }
    let out = match mode {
        CliOutputMode::Standard => if verbatim_cmd {
            cli_format_raw(&value)
        } else {
            cli_format_tty(&value, "")
        },
        CliOutputMode::Raw => cli_format_raw(&value),
        CliOutputMode::Csv => cli_format_csv(&value),
        CliOutputMode::Json => cli_format_json(&value),
    };
    if mode == CliOutputMode::Standard && !verbatim_cmd {
        strip_trailing_newline(out)
    } else {
        out
    }
}

/// The text of a scalar reply: a bulk string read as UTF-8, a simple
/// string, an integer in decimal, a double or big number as its text; any
/// other reply gives no text.
pub open spec fn reply_text(v: CliValue) -> Seq<char> {
    match v {
        CliValue::BulkString(b) => utf8_lossy(b@),
        CliValue::SimpleString(s) => s@,
        CliValue::Int(i) => decimal_int(i as int),
        CliValue::Double(t) => t@,
        CliValue::BigNumber(t) => t@,
        _ => Seq::empty(),
    }
}

/// The text of a scalar reply.
pub fn reply_text_of(v: &CliValue) -> (r: String)
    ensures
        r@ == reply_text(*v),
{
    let mut s = String::new();
    match v {
        CliValue::BulkString(b) => {
            return bytes_to_string_lossy(b.as_slice());
        },
        CliValue::SimpleString(t) => push_str(&mut s, t.as_str()),
        CliValue::Int(i) => push_decimal_i64(&mut s, *i),
        CliValue::Double(t) => push_str(&mut s, t.as_str()),
        CliValue::BigNumber(t) => push_str(&mut s, t.as_str()),
        _ => {},
    }
    assert(s@ =~= reply_text(*v));
    s
}

} // verus!
