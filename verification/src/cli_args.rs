//! Splits a redis-cli command line into its arguments: blanks separate
//! arguments, double quotes allow `\xHH`, `\n`, `\r`, `\t`, `\b`, `\a` and
//! `\<char>` escapes, single quotes allow `\'`.
use vstd::prelude::*;
use vstd::string::StringSliceAdditionalSpecFns;


verus! {

broadcast use vstd::string::group_string_axioms;

/// Blank bytes between arguments: space, `\t`, `\n`, `\v`, `\f`, `\r`.
pub open spec fn is_blank(c: u8) -> bool {
    c == 0x20 || (0x09 <= c && c <= 0x0d)
}

/// Bytes that end an unquoted argument: space, `\n`, `\r`, `\t`.
pub open spec fn ends_unquoted(c: u8) -> bool {
    c == 0x20 || c == 0x0a || c == 0x0d || c == 0x09
}

pub open spec fn is_hex_byte(c: u8) -> bool {
    (0x30 <= c && c <= 0x39) || (0x61 <= c && c <= 0x66) || (0x41 <= c && c <= 0x46)
}

pub open spec fn hex_value(c: u8) -> u8 {
    if 0x30 <= c && c <= 0x39 {
        (c - 0x30) as u8
    } else if 0x61 <= c && c <= 0x66 {
        (c - 0x61 + 10) as u8
    } else {
        (c - 0x41 + 10) as u8
    }
}

/// The byte that a backslash escape inside double quotes stands for.
pub open spec fn unescape(c: u8) -> u8 {
    if c == 0x6e {
        0x0a
    } else if c == 0x72 {
        0x0d
    } else if c == 0x74 {
        0x09
    } else if c == 0x62 {
        0x08
    } else if c == 0x61 {
        0x07
    } else {
        c
    }
}

/// Reads the rest of an argument outside quotes; the result is the argument
/// and what follows it.
pub open spec fn scan_unquoted(b: Seq<u8>, acc: Seq<u8>) -> Option<(Seq<u8>, Seq<u8>)>
    decreases b.len(), 2int,
{
    if b.len() == 0 {
        Some((acc, b))
    } else if ends_unquoted(b[0]) {
        Some((acc, b.drop_first()))
    } else if b[0] == 0x22 {
        scan_double_quoted(b.drop_first(), acc)
    } else if b[0] == 0x27 {
        scan_single_quoted(b.drop_first(), acc)
    } else {
        scan_unquoted(b.drop_first(), acc.push(b[0]))
    }
}

/// Reads the rest of an argument inside double quotes. A closing quote must
/// be followed by a blank or by the end of the line.
pub open spec fn scan_double_quoted(b: Seq<u8>, acc: Seq<u8>) -> Option<(Seq<u8>, Seq<u8>)>
    decreases b.len(), 1int,
{
    if b.len() == 0 {
        None
    } else if b[0] == 0x5c && b.len() >= 4 && b[1] == 0x78 && is_hex_byte(b[2]) && is_hex_byte(
        b[3],
    ) {
        scan_double_quoted(b.skip(4), acc.push((hex_value(b[2]) * 16 + hex_value(b[3])) as u8))
    } else if b[0] == 0x5c && b.len() >= 2 {
        scan_double_quoted(b.skip(2), acc.push(unescape(b[1])))
    } else if b[0] == 0x22 {
        if b.len() >= 2 && !is_blank(b[1]) {
            None
        } else {
            Some((acc, b.drop_first()))
        }
    } else {
        scan_double_quoted(b.drop_first(), acc.push(b[0]))
    }
}

/// Reads the rest of an argument inside single quotes, where only `\'` is an
/// escape. A closing quote must be followed by a blank or by the end.
pub open spec fn scan_single_quoted(b: Seq<u8>, acc: Seq<u8>) -> Option<(Seq<u8>, Seq<u8>)>
    decreases b.len(), 0int,
{
    if b.len() == 0 {
        None
    } else if b[0] == 0x5c && b.len() >= 2 && b[1] == 0x27 {
        scan_single_quoted(b.skip(2), acc.push(0x27))
    } else if b[0] == 0x27 {
        if b.len() >= 2 && !is_blank(b[1]) {
            None
        } else {
            Some((acc, b.drop_first()))
        }
    } else {
        scan_single_quoted(b.drop_first(), acc.push(b[0]))
    }
}

/// Drops the blanks at the start.
pub open spec fn skip_blanks(b: Seq<u8>) -> Seq<u8>
    decreases b.len(),
{
    if b.len() > 0 && is_blank(b[0]) {
        skip_blanks(b.drop_first())
    } else {
        b
    }
}

proof fn lemma_scan_shorter(mode: int, b: Seq<u8>, acc: Seq<u8>)
    ensures
        scan_state(mode, b, acc) matches Some((t, rest)) ==> rest.len() <= b.len(),
    decreases b.len(), (if mode == 0 { 2int } else if mode == 1 { 1int } else { 0int }),
{
    if b.len() == 0 {
    } else if mode == 0 {
        if ends_unquoted(b[0]) {
        } else if b[0] == 0x22 {
            lemma_scan_shorter(1, b.drop_first(), acc);
        } else if b[0] == 0x27 {
            lemma_scan_shorter(2, b.drop_first(), acc);
        } else {
            lemma_scan_shorter(0, b.drop_first(), acc.push(b[0]));
        }
    } else if mode == 1 {
        if b[0] == 0x5c && b.len() >= 4 && b[1] == 0x78 && is_hex_byte(b[2]) && is_hex_byte(b[3]) {
            lemma_scan_shorter(1, b.skip(4), acc.push((hex_value(b[2]) * 16 + hex_value(b[3])) as u8));
        } else if b[0] == 0x5c && b.len() >= 2 {
            lemma_scan_shorter(1, b.skip(2), acc.push(unescape(b[1])));
        } else if b[0] == 0x22 {
        } else {
            lemma_scan_shorter(1, b.drop_first(), acc.push(b[0]));
        }
    } else {
        if b[0] == 0x5c && b.len() >= 2 && b[1] == 0x27 {
            lemma_scan_shorter(2, b.skip(2), acc.push(0x27));
        } else if b[0] == 0x27 {
        } else {
            lemma_scan_shorter(2, b.drop_first(), acc.push(b[0]));
        }
    }
}

/// The scanner for a mode: 0 outside quotes, 1 in double quotes, 2 in single
/// quotes.
pub open spec fn scan_state(mode: int, b: Seq<u8>, acc: Seq<u8>) -> Option<(Seq<u8>, Seq<u8>)> {
    if mode == 0 {
        scan_unquoted(b, acc)
    } else if mode == 1 {
        scan_double_quoted(b, acc)
    } else {
        scan_single_quoted(b, acc)
    }
}

/// The arguments of a command line given as bytes; `None` when a quote is not
/// closed or a closing quote is followed by something other than a blank.
pub open spec fn parse_args(b: Seq<u8>) -> Option<Seq<Seq<u8>>>
    decreases b.len(),
    via parse_args_decreases
{
    let s = skip_blanks(b);
    if s.len() == 0 {
        Some(Seq::empty())
    } else {
        match scan_unquoted(s, Seq::empty()) {
            None => None,
            Some((tok, rest)) => match parse_args(rest) {
                None => None,
                Some(ts) => Some(seq![tok] + ts),
            },
        }
    }
}

#[via_fn]
proof fn parse_args_decreases(b: Seq<u8>) {
    lemma_skip_blanks_shorter(b);
    let s = skip_blanks(b);
    if s.len() > 0 {
        lemma_first_arg_consumes(s);
    }
}

/// An argument that starts with a non-blank byte consumes that byte.
proof fn lemma_first_arg_consumes(s: Seq<u8>)
    requires
        s.len() > 0,
        !is_blank(s[0]),
    ensures
        scan_unquoted(s, Seq::empty()) matches Some((t, rest)) ==> rest.len() < s.len(),
{
    assert(!ends_unquoted(s[0]));
    if s[0] == 0x22 {
        lemma_scan_shorter(1, s.drop_first(), Seq::empty());
    } else if s[0] == 0x27 {
        lemma_scan_shorter(2, s.drop_first(), Seq::empty());
    } else {
        lemma_scan_shorter(0, s.drop_first(), Seq::<u8>::empty().push(s[0]));
    }
}


proof fn lemma_skip_blanks(b: Seq<u8>, i: int)
    requires
        0 <= i <= b.len(),
        forall|k: int| 0 <= k < i ==> is_blank(b[k]),
    ensures
        skip_blanks(b) == skip_blanks(b.skip(i)),
    decreases i,
{
    if i > 0 {
        assert(b.skip(1) =~= b.drop_first());
        assert(b.drop_first().skip(i - 1) =~= b.skip(i));
        lemma_skip_blanks(b.drop_first(), i - 1);
    } else {
        assert(b.skip(0) =~= b);
    }
}

proof fn lemma_skip_blanks_shorter(b: Seq<u8>)
    ensures
        skip_blanks(b).len() <= b.len(),
        skip_blanks(b).len() > 0 ==> !is_blank(skip_blanks(b)[0]),
    decreases b.len(),
{
    if b.len() > 0 && is_blank(b[0]) {
        lemma_skip_blanks_shorter(b.drop_first());
    }
}

/// A blank at the start changes nothing in how a line splits.
pub proof fn lemma_parse_args_leading_blank(b: Seq<u8>)
    requires
        b.len() > 0,
        is_blank(b[0]),
    ensures
        parse_args(b) == parse_args(b.drop_first()),
{
    assert(skip_blanks(b) == skip_blanks(b.drop_first()));
}

/// Why a command line could not be split into arguments.
#[derive(Debug, Clone, Copy, PartialEq, Eq)]
pub enum SplitArgsError {
    /// A quote is not closed, or a closing quote is not followed by a blank.
    UnbalancedQuotes,
}

/// Whether a byte is blank (space, `\t`, `\n`, `\v`, `\f`, `\r`).
pub fn is_blank_byte(c: u8) -> (r: bool)
    ensures
        r == is_blank(c),
{
    c == 0x20 || (0x09 <= c && c <= 0x0d)
}

fn is_hex(c: u8) -> (r: bool)
    ensures
        r == is_hex_byte(c),
{
    (0x30 <= c && c <= 0x39) || (0x61 <= c && c <= 0x66) || (0x41 <= c && c <= 0x46)
}

fn hex_val(c: u8) -> (r: u8)
    requires
        is_hex_byte(c),
    ensures
        r == hex_value(c),
        r < 16,
{
    if 0x30 <= c && c <= 0x39 {
        c - 0x30
    } else if 0x61 <= c && c <= 0x66 {
        c - 0x61 + 10
    } else {
        c - 0x41 + 10
    }
}

fn unescape_byte(c: u8) -> (r: u8)
    ensures
        r == unescape(c),
{
    if c == 0x6e {
        0x0a
    } else if c == 0x72 {
        0x0d
    } else if c == 0x74 {
        0x09
    } else if c == 0x62 {
        0x08
    } else if c == 0x61 {
        0x07
    } else {
        c
    }
}

/// Reads one argument that starts at `start`: the argument and the index
/// just after it.
fn read_arg(b: &[u8], start: usize) -> (r: Option<(Vec<u8>, usize)>)
    requires
        start < b@.len(),
    ensures
        match scan_unquoted(b@.skip(start as int), Seq::empty()) {
            None => r is None,
            Some((tok, rest)) => r matches Some((t, j)) && t@ == tok && j <= b@.len()
                && rest == b@.skip(j as int),
        },
{
    let n = b.len();
    let mut acc: Vec<u8> = Vec::new();
    let mut i = start;
    let mut mode: u8 = 0;
    let ghost target = scan_unquoted(b@.skip(start as int), Seq::empty());
    assert(acc@ =~= Seq::<u8>::empty());
    while i < n
        invariant
            n == b@.len(),
            start <= i <= n,
            mode <= 2,
            target == scan_unquoted(b@.skip(start as int), Seq::empty()),
            target == scan_state(mode as int, b@.skip(i as int), acc@),
        decreases n - i,
    {
        let ghost rest = b@.skip(i as int);
        let c = b[i];
        assert(rest[0] == c);
        assert(rest.drop_first() =~= b@.skip(i + 1));
        if mode == 0 {
            if c == 0x20 || c == 0x0a || c == 0x0d || c == 0x09 {
                return Some((acc, i + 1));
            } else if c == 0x22 {
                mode = 1;
                i += 1;
            } else if c == 0x27 {
                mode = 2;
                i += 1;
            } else {
                acc.push(c);
                i += 1;
            }
        } else if mode == 1 {
            if c == 0x5c && n - i >= 4 && b[i + 1] == 0x78 && is_hex(b[i + 2]) && is_hex(b[i + 3]) {
                let v = hex_val(b[i + 2]) * 16 + hex_val(b[i + 3]);
                assert(rest[1] == b@[i + 1] && rest[2] == b@[i + 2] && rest[3] == b@[i + 3]);
                assert(rest.skip(4) =~= b@.skip(i + 4));
                acc.push(v);
                i += 4;
            } else if c == 0x5c && n - i >= 2 {
                assert(rest[1] == b@[i + 1]);
                assert(rest.skip(2) =~= b@.skip(i + 2));
                acc.push(unescape_byte(b[i + 1]));
                i += 2;
            } else if c == 0x22 {
                if n - i >= 2 && !is_blank_byte(b[i + 1]) {
                    assert(rest[1] == b@[i + 1]);
                    return None;
                }
                if n - i >= 2 {
                    assert(rest[1] == b@[i + 1]);
                }
                return Some((acc, i + 1));
            } else {
                acc.push(c);
                i += 1;
            }
        } else {
            if c == 0x5c && n - i >= 2 && b[i + 1] == 0x27 {
                assert(rest[1] == b@[i + 1]);
                assert(rest.skip(2) =~= b@.skip(i + 2));
                acc.push(0x27);
                i += 2;
            } else if c == 0x27 {
                if n - i >= 2 && !is_blank_byte(b[i + 1]) {
                    assert(rest[1] == b@[i + 1]);
                    return None;
                }
                if n - i >= 2 {
                    assert(rest[1] == b@[i + 1]);
                }
                return Some((acc, i + 1));
            } else {
                acc.push(c);
                i += 1;
            }
        }
    }
    assert(b@.skip(i as int) =~= Seq::<u8>::empty());
    if mode == 0 {
        Some((acc, i))
    } else {
        None
    }
}

/// Splits a redis-cli command line into its arguments, as bytes.
pub fn split_redis_args(line: &str) -> (r: Result<Vec<Vec<u8>>, SplitArgsError>)
    ensures
        match parse_args(line.spec_bytes()) {
            None => r is Err,
            Some(args) => r matches Ok(v) && v.deep_view() == args,
        },
{
    let b = line.as_bytes();
    let n = b.len();
    let mut args: Vec<Vec<u8>> = Vec::new();
    let mut i: usize = 0;
    let ghost whole = b@;
    assert(b@.skip(0) =~= b@);
    loop
        invariant
            n == b@.len(),
            whole == b@,
            whole == line.spec_bytes(),
            i <= n,
            parse_args(whole) == match parse_args(b@.skip(i as int)) {
                None => None,
                Some(ts) => Some(args.deep_view() + ts),
            },
        decreases n - i,
    {
        let ghost i0 = i;
        while i < n && is_blank_byte(b[i])
            invariant
                n == b@.len(),
                i0 <= i <= n,
                forall|k: int| i0 <= k < i ==> is_blank(b@[k]),
                whole == b@,
                parse_args(whole) == match parse_args(b@.skip(i0 as int)) {
                    None => None,
                    Some(ts) => Some(args.deep_view() + ts),
                },
            decreases n - i,
        {
            i += 1;
        }
        proof {
            let x = b@.skip(i0 as int);
            assert forall|k: int| 0 <= k < i - i0 implies is_blank(x[k]) by {
                assert(x[k] == b@[i0 + k]);
            }
            lemma_skip_blanks(x, i - i0);
            assert(x.skip(i - i0) =~= b@.skip(i as int));
            let y = b@.skip(i as int);
            if i < n {
                assert(y[0] == b@[i as int]);
            }
            assert(skip_blanks(y) == y);
            lemma_skip_blanks_shorter(x);
        }
        if i == n {
            assert(b@.skip(i as int) =~= Seq::<u8>::empty());
            assert(skip_blanks(Seq::<u8>::empty()) =~= Seq::<u8>::empty());
            assert(parse_args(Seq::<u8>::empty()) == Some(Seq::<Seq<u8>>::empty()));
            assert(skip_blanks(b@.skip(i0 as int)) =~= Seq::<u8>::empty());
            assert(parse_args(b@.skip(i0 as int)) == Some(Seq::<Seq<u8>>::empty()));
            assert(args.deep_view() + Seq::<Seq<u8>>::empty() =~= args.deep_view());
            return Ok(args);
        }
        let ghost x = b@.skip(i0 as int);
        let ghost y = b@.skip(i as int);
        match read_arg(b, i) {
            None => {
                assert(skip_blanks(x) == y);
                assert(parse_args(x) == None::<Seq<Seq<u8>>>);
                return Err(SplitArgsError::UnbalancedQuotes);
            },
            Some((tok, j)) => {
                proof {
                    lemma_first_arg_consumes(y);
                    assert(j > i);
                }
                let ghost old_args = args.deep_view();
                let ghost old_v = args@;
                let ghost tv = tok@;
                args.push(tok);
                proof {
                    assert(args@ == old_v.push(tok));
                    assert(args.deep_view().len() == old_args.push(tv).len());
                    assert forall|k: int| 0 <= k < args.deep_view().len() implies args.deep_view()[k]
                        == old_args.push(tv)[k] by {
                        if k < old_v.len() {
                            assert(args@[k] == old_v[k]);
                        } else {
                            assert(args@[k] == tok);
                        }
                    }
                    assert(args.deep_view() =~= old_args.push(tv));
                    match parse_args(b@.skip(j as int)) {
                        None => {},
                        Some(ts) => {
                            assert(old_args + (seq![tv] + ts) =~= old_args.push(tv) + ts);
                        },
                    }
                }
                i = j;
            },
        }
    }
}

} // verus!
