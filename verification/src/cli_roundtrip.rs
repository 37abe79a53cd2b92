//! Every command line that the formatters write splits back into the bytes
//! they were given.
use vstd::prelude::*;
use vstd::utf8::*;
use crate::text::{hex_digit, hex_escape, is_control_scalar, decimal_int, decimal_nat, decimal_digit};
use crate::cli_format::{escape_bytes, printable_scalar_at, quoted, spaced, command_line, quoted_words, quoted_pair_words, scored_member_words, word_set, word_expire, word_hset, word_hmset, word_rpush, word_sadd, word_zadd, word_xadd, word_json_set};
use crate::cli_args::{scan_double_quoted, scan_unquoted, parse_args, skip_blanks, is_blank, is_hex_byte, hex_value, unescape, ends_unquoted, lemma_parse_args_leading_blank};

verus! {

proof fn lemma_encode_concat(a: Seq<char>, b: Seq<char>)
    ensures
        encode_utf8(a + b) == encode_utf8(a) + encode_utf8(b),
    decreases a.len(),
{
    if a.len() == 0 {
        assert(a + b =~= b);
        assert(encode_utf8(a) =~= Seq::<u8>::empty());
        assert(encode_utf8(a) + encode_utf8(b) =~= encode_utf8(b));
    } else {
        assert((a + b)[0] == a[0]);
        assert((a + b).drop_first() =~= a.drop_first() + b);
        lemma_encode_concat(a.drop_first(), b);
        assert(encode_utf8(a + b) =~= encode_utf8(a) + encode_utf8(b));
    }
}

proof fn lemma_encode_ascii_char(c: char)
    requires
        (c as u32) < 0x80,
    ensures
        encode_utf8(seq![c]) == seq![(c as u32) as u8],
{
    let u = c as u32;
    assert((u & 0x7f) as u8 == u as u8) by (bit_vector)
        requires
            u < 0x80,
    ;
    assert(seq![c].drop_first() =~= Seq::<char>::empty());
    assert(encode_utf8(seq![c].drop_first()) =~= Seq::<u8>::empty());
    assert(encode_utf8(seq![c]) =~= seq![(c as u32) as u8]);
}

proof fn lemma_encode_ascii_pair(c: char, d: char)
    requires
        (c as u32) < 0x80,
        (d as u32) < 0x80,
    ensures
        encode_utf8(seq![c, d]) == seq![(c as u32) as u8, (d as u32) as u8],
{
    lemma_encode_ascii_char(c);
    lemma_encode_ascii_char(d);
    assert(seq![c, d] =~= seq![c] + seq![d]);
    lemma_encode_concat(seq![c], seq![d]);
    assert(encode_utf8(seq![c, d]) =~= seq![(c as u32) as u8, (d as u32) as u8]);
}

/// Plain text made of ASCII characters: its UTF-8 bytes are its characters.
pub open spec fn ascii_bytes(t: Seq<char>) -> Seq<u8> {
    t.map_values(|c: char| (c as u32) as u8)
}

pub open spec fn all_ascii(t: Seq<char>) -> bool {
    forall|i: int| 0 <= i < t.len() ==> (t[i] as u32) < 0x80
}

pub proof fn lemma_encode_ascii(t: Seq<char>)
    requires
        all_ascii(t),
    ensures
        encode_utf8(t) == ascii_bytes(t),
    decreases t.len(),
{
    if t.len() == 0 {
        assert(encode_utf8(t) =~= ascii_bytes(t));
    } else {
        lemma_encode_ascii_char(t[0]);
        assert(t =~= seq![t[0]] + t.drop_first());
        lemma_encode_concat(seq![t[0]], t.drop_first());
        lemma_encode_ascii(t.drop_first());
        assert(encode_utf8(t) =~= ascii_bytes(t));
    }
}

proof fn lemma_dq_high_bytes(t: Seq<u8>, x: Seq<u8>, acc: Seq<u8>)
    requires
        forall|i: int| 0 <= i < t.len() ==> t[i] >= 0x80,
    ensures
        scan_double_quoted(t + x, acc) == scan_double_quoted(x, acc + t),
    decreases t.len(),
{
    if t.len() == 0 {
        assert(t + x =~= x);
        assert(acc + t =~= acc);
    } else {
        assert((t + x)[0] == t[0]);
        assert((t + x).drop_first() =~= t.drop_first() + x);
        lemma_dq_high_bytes(t.drop_first(), x, acc.push(t[0]));
        assert(acc.push(t[0]) + t.drop_first() =~= acc + t);
    }
}

proof fn lemma_hex_digit_value(n: u8)
    requires
        n < 16,
    ensures
        (hex_digit(n) as u32) < 0x80,
        is_hex_byte((hex_digit(n) as u32) as u8),
        hex_value((hex_digit(n) as u32) as u8) == n,
{
}

proof fn lemma_first_scalar_bytes(b: Seq<u8>)
    requires
        valid_first_scalar(b),
        b[0] >= 0x80,
    ensures
        encode_utf8(seq![decode_first_scalar(b) as char]) == b.take(length_of_first_scalar(b)),
        forall|i: int| 0 <= i < length_of_first_scalar(b) ==> b[i] >= 0x80,
        1 <= length_of_first_scalar(b) <= b.len(),
{
    let len = length_of_first_scalar(b);
    assert(1 <= len <= b.len());
    let t = b.take(len);
    assert(forall|k: int| 0 <= k < len ==> t[k] == b[k]);
    assert(t.len() == len);
    assert(valid_first_scalar(t));
    assert(length_of_first_scalar(t) == len);
    assert(pop_first_scalar(t) =~= Seq::<u8>::empty());
    assert(valid_utf8(Seq::<u8>::empty()));
    assert(valid_utf8(t));
    decode_utf8_first_scalar(t);
    assert(take_first_scalar(t) =~= t);
    let c = decode_first_scalar(b) as char;
    assert(seq![c][0] == c);
    assert(seq![c].drop_first() =~= Seq::<char>::empty());
    assert(encode_utf8(Seq::<char>::empty()) =~= Seq::<u8>::empty());
    assert(encode_utf8(seq![c]) =~= encode_scalar(c as u32) + encode_utf8(seq![c].drop_first()));
    assert(encode_utf8(seq![c]) =~= encode_scalar(c as u32));
}

proof fn lemma_ascii_scalar(b: Seq<u8>)
    requires
        b.len() > 0,
        b[0] < 0x80,
    ensures
        valid_first_scalar(b),
        decode_first_scalar(b) == b[0] as u32,
{
    let x = b[0];
    assert((x & 0x7f) as u32 == x as u32) by (bit_vector)
        requires
            x < 0x80,
    ;
}

proof fn step_two_char_escape(e: char, c: u8, rest: Seq<u8>, acc: Seq<u8>)
    requires
        (e as u32) < 0x80,
        (e as u32) != 0x78,
        unescape((e as u32) as u8) == c,
    ensures
        scan_double_quoted(encode_utf8(seq!['\\', e]) + rest, acc) == scan_double_quoted(
            rest,
            acc.push(c),
        ),
{
    lemma_encode_ascii_pair('\\', e);
    let whole = encode_utf8(seq!['\\', e]) + rest;
    assert(whole[0] == 0x5c);
    assert(whole[1] == (e as u32) as u8);
    assert(whole.skip(2) =~= rest);
}

proof fn step_plain_char(c: u8, rest: Seq<u8>, acc: Seq<u8>)
    requires
        0x20 <= c <= 0x7e,
        c != 0x22,
        c != 0x5c,
    ensures
        scan_double_quoted(encode_utf8(seq![c as char]) + rest, acc) == scan_double_quoted(
            rest,
            acc.push(c),
        ),
{
    lemma_encode_ascii_char(c as char);
    let whole = encode_utf8(seq![c as char]) + rest;
    assert(whole[0] == c);
    assert(whole.drop_first() =~= rest);
}

proof fn step_hex_escape(c: u8, rest: Seq<u8>, acc: Seq<u8>)
    ensures
        scan_double_quoted(encode_utf8(hex_escape(c)) + rest, acc) == scan_double_quoted(
            rest,
            acc.push(c),
        ),
{
    let h1 = hex_digit(c / 16);
    let h2 = hex_digit(c % 16);
    lemma_hex_digit_value(c / 16);
    lemma_hex_digit_value(c % 16);
    assert(hex_escape(c) =~= seq!['\\', 'x'] + seq![h1, h2]);
    lemma_encode_ascii_pair('\\', 'x');
    lemma_encode_ascii_pair(h1, h2);
    lemma_encode_concat(seq!['\\', 'x'], seq![h1, h2]);
    let whole = encode_utf8(hex_escape(c)) + rest;
    assert(whole[0] == 0x5c);
    assert(whole[1] == 0x78);
    assert(whole[2] == (h1 as u32) as u8);
    assert(whole[3] == (h2 as u32) as u8);
    assert(whole.skip(4) =~= rest);
    assert((hex_value((h1 as u32) as u8) * 16 + hex_value((h2 as u32) as u8)) as u8 == c);
}

proof fn step_closing_quote(tail: Seq<u8>, acc: Seq<u8>)
    requires
        tail.len() == 0 || is_blank(tail[0]),
    ensures
        scan_double_quoted(seq![0x22u8] + tail, acc) == Some((acc, tail)),
{
    let x = seq![0x22u8] + tail;
    assert(x[0] == 0x22);
    assert(x.drop_first() =~= tail);
    if x.len() >= 2 {
        assert(x[1] == tail[0]);
    }
}

/// Inside double quotes, the escaped text of `b` followed by the closing
/// quote reads back as `b`.
pub proof fn lemma_escape_reads_back(b: Seq<u8>, acc: Seq<u8>, tail: Seq<u8>)
    requires
        tail.len() == 0 || is_blank(tail[0]),
    ensures
        scan_double_quoted(encode_utf8(escape_bytes(b)) + seq![0x22u8] + tail, acc) == Some(
            (acc + b, tail),
        ),
    decreases b.len(),
{
    if b.len() == 0 {
        assert(escape_bytes(b) =~= Seq::<char>::empty());
        assert(encode_utf8(escape_bytes(b)) =~= Seq::<u8>::empty());
        assert(encode_utf8(escape_bytes(b)) + seq![0x22u8] + tail =~= seq![0x22u8] + tail);
        step_closing_quote(tail, acc);
        assert(acc + b =~= acc);
    } else {
        let c = b[0];
        let simple = c == 0x22 || c == 0x5c || c == 0x0a || c == 0x0d || c == 0x09 || (0x20 <= c
            <= 0x7e);
        let printable = !simple && printable_scalar_at(b);
        let piece: Seq<char> = if c == 0x22 {
            seq!['\\', '"']
        } else if c == 0x5c {
            seq!['\\', '\\']
        } else if c == 0x0a {
            seq!['\\', 'n']
        } else if c == 0x0d {
            seq!['\\', 'r']
        } else if c == 0x09 {
            seq!['\\', 't']
        } else if 0x20 <= c <= 0x7e {
            seq![c as char]
        } else if printable {
            seq![decode_first_scalar(b) as char]
        } else {
            hex_escape(c)
        };
        let next: Seq<u8> = if printable {
            b.skip(length_of_first_scalar(b))
        } else {
            b.drop_first()
        };
        assert(escape_bytes(b) == piece + escape_bytes(next));
        lemma_encode_concat(piece, escape_bytes(next));
        let rest = encode_utf8(escape_bytes(next)) + seq![0x22u8] + tail;
        let whole = encode_utf8(escape_bytes(b)) + seq![0x22u8] + tail;
        assert(whole =~= encode_utf8(piece) + rest);
        if printable {
            if c < 0x80 {
                lemma_ascii_scalar(b);
                assert(is_control_scalar(decode_first_scalar(b)));
            }
            lemma_first_scalar_bytes(b);
            let len = length_of_first_scalar(b);
            let t = b.take(len);
            lemma_dq_high_bytes(t, rest, acc);
            lemma_escape_reads_back(next, acc + t, tail);
            assert(b =~= t + next);
            assert(acc + t + next =~= acc + b);
        } else {
            if c == 0x22 {
                step_two_char_escape('"', c, rest, acc);
            } else if c == 0x5c {
                step_two_char_escape('\\', c, rest, acc);
            } else if c == 0x0a {
                step_two_char_escape('n', c, rest, acc);
            } else if c == 0x0d {
                step_two_char_escape('r', c, rest, acc);
            } else if c == 0x09 {
                step_two_char_escape('t', c, rest, acc);
            } else if 0x20 <= c <= 0x7e {
                step_plain_char(c, rest, acc);
            } else {
                step_hex_escape(c, rest, acc);
            }
            lemma_escape_reads_back(next, acc.push(c), tail);
            assert(b =~= seq![c] + next);
            assert(acc.push(c) + next =~= acc + b);
        }
    }
}


/// One word of a command line: a quoted byte string, or plain ASCII text.
pub enum CliWord {
    Quoted(Seq<u8>),
    Plain(Seq<char>),
}

/// Plain text that splits as one argument: non-empty printable ASCII
/// without blanks and without quote characters.
pub open spec fn plain_word(t: Seq<char>) -> bool {
    &&& t.len() > 0
    &&& forall|i: int|
        0 <= i < t.len() ==> 0x21 <= (#[trigger] t[i] as u32) <= 0x7e && t[i] != '"' && t[i]
            != '\''
}

pub open spec fn word_ok(w: CliWord) -> bool {
    match w {
        CliWord::Quoted(_) => true,
        CliWord::Plain(t) => plain_word(t),
    }
}

/// The text a word is written as.
pub open spec fn word_text(w: CliWord) -> Seq<char> {
    match w {
        CliWord::Quoted(b) => quoted(b),
        CliWord::Plain(t) => t,
    }
}

/// The argument a word stands for.
pub open spec fn word_arg(w: CliWord) -> Seq<u8> {
    match w {
        CliWord::Quoted(b) => b,
        CliWord::Plain(t) => ascii_bytes(t),
    }
}

pub open spec fn word_texts(ws: Seq<CliWord>) -> Seq<Seq<char>> {
    ws.map_values(|w: CliWord| word_text(w))
}

pub open spec fn word_args(ws: Seq<CliWord>) -> Seq<Seq<u8>> {
    ws.map_values(|w: CliWord| word_arg(w))
}

proof fn lemma_spaced_front(w: Seq<char>, ws: Seq<Seq<char>>)
    ensures
        spaced(seq![w] + ws) == seq![' '] + w + spaced(ws),
    decreases ws.len(),
{
    if ws.len() == 0 {
        assert(seq![w] + ws =~= seq![w]);
        assert(seq![w].drop_last() =~= Seq::<Seq<char>>::empty());
        assert(spaced(Seq::<Seq<char>>::empty()) =~= Seq::<char>::empty());
        assert(spaced(ws) =~= Seq::<char>::empty());
        assert(spaced(seq![w] + ws) =~= seq![' '] + w + spaced(ws));
    } else {
        assert((seq![w] + ws).drop_last() =~= seq![w] + ws.drop_last());
        assert((seq![w] + ws).last() == ws.last());
        lemma_spaced_front(w, ws.drop_last());
        assert(spaced(seq![w] + ws) =~= seq![' '] + w + spaced(ws));
    }
}

proof fn lemma_plain_scan(t: Seq<char>, tail: Seq<u8>, acc: Seq<u8>)
    requires
        forall|i: int|
            0 <= i < t.len() ==> 0x21 <= (#[trigger] t[i] as u32) <= 0x7e && t[i] != '"' && t[i]
                != '\'',
        tail.len() == 0 || tail[0] == 0x20,
    ensures
        scan_unquoted(ascii_bytes(t) + tail, acc) == Some(
            (acc + ascii_bytes(t), if tail.len() == 0 { tail } else { tail.drop_first() }),
        ),
    decreases t.len(),
{
    if t.len() == 0 {
        assert(ascii_bytes(t) + tail =~= tail);
        assert(acc + ascii_bytes(t) =~= acc);
        if tail.len() > 0 {
            assert(ends_unquoted(tail[0]));
        }
    } else {
        let c = (t[0] as u32) as u8;
        let x = ascii_bytes(t) + tail;
        assert(0x21 <= (t[0] as u32) <= 0x7e && t[0] != '"' && t[0] != '\'');
        vstd::utf8::char_u32_cast(t[0], t[0] as u32);
        assert(c != 0x22 && c != 0x27 && !ends_unquoted(c));
        assert(x[0] == c);
        assert(x.drop_first() =~= ascii_bytes(t.drop_first()) + tail);
        assert forall|i: int|
            0 <= i < t.drop_first().len() implies 0x21 <= (#[trigger] t.drop_first()[i] as u32)
            <= 0x7e && t.drop_first()[i] != '"' && t.drop_first()[i] != '\'' by {
            assert(t.drop_first()[i] == t[i + 1]);
        }
        lemma_plain_scan(t.drop_first(), tail, acc.push(c));
        assert(acc.push(c) + ascii_bytes(t.drop_first()) =~= acc + ascii_bytes(t));
    }
}

proof fn lemma_word_first_byte(w: CliWord)
    requires
        word_ok(w),
    ensures
        encode_utf8(word_text(w)).len() > 0,
        !is_blank(encode_utf8(word_text(w))[0]),
        all_ascii(word_text(w)) || w is Quoted,
{
    match w {
        CliWord::Quoted(b) => {
            assert(quoted(b) =~= seq!['"'] + (escape_bytes(b) + seq!['"']));
            lemma_encode_concat(seq!['"'], escape_bytes(b) + seq!['"']);
            lemma_encode_ascii_char('"');
        },
        CliWord::Plain(t) => {
            lemma_encode_ascii(t);
            assert(t[0] == t[0]);
        },
    }
}

/// One word followed by nothing or by a space reads back as its argument.
proof fn lemma_word_scan(w: CliWord, tail: Seq<u8>)
    requires
        word_ok(w),
        tail.len() == 0 || tail[0] == 0x20,
    ensures
        scan_unquoted(encode_utf8(word_text(w)) + tail, Seq::empty()) matches Some((tok, rest))
            && tok == word_arg(w) && parse_args(rest) == parse_args(tail),
{
    match w {
        CliWord::Quoted(b) => {
            let e = encode_utf8(escape_bytes(b));
            assert(quoted(b) =~= seq!['"'] + (escape_bytes(b) + seq!['"']));
            lemma_encode_concat(seq!['"'], escape_bytes(b) + seq!['"']);
            lemma_encode_concat(escape_bytes(b), seq!['"']);
            lemma_encode_ascii_char('"');
            let x = encode_utf8(word_text(w)) + tail;
            assert(x =~= seq![0x22u8] + (e + seq![0x22u8] + tail));
            assert(x[0] == 0x22);
            assert(x.drop_first() =~= e + seq![0x22u8] + tail);
            lemma_escape_reads_back(b, Seq::empty(), tail);
            assert(Seq::<u8>::empty() + b =~= b);
        },
        CliWord::Plain(t) => {
            lemma_encode_ascii(t);
            lemma_plain_scan(t, tail, Seq::empty());
            assert(Seq::<u8>::empty() + ascii_bytes(t) =~= ascii_bytes(t));
            if tail.len() > 0 {
                lemma_parse_args_leading_blank(tail);
            }
        },
    }
}

proof fn lemma_word_step(w: CliWord, tail: Seq<u8>)
    requires
        word_ok(w),
        tail.len() == 0 || tail[0] == 0x20,
    ensures
        parse_args(encode_utf8(word_text(w)) + tail) == match parse_args(tail) {
            None => None,
            Some(ts) => Some(seq![word_arg(w)] + ts),
        },
{
    lemma_word_first_byte(w);
    let x = encode_utf8(word_text(w)) + tail;
    assert(x[0] == encode_utf8(word_text(w))[0]);
    assert(skip_blanks(x) == x);
    lemma_word_scan(w, tail);
}

proof fn lemma_encode_spaced_start(ws: Seq<Seq<char>>)
    requires
        ws.len() > 0,
    ensures
        encode_utf8(spaced(ws)).len() > 0,
        encode_utf8(spaced(ws))[0] == 0x20,
{
    lemma_spaced_front(ws[0], ws.drop_first());
    assert(seq![ws[0]] + ws.drop_first() =~= ws);
    assert(seq![' '] + ws[0] + spaced(ws.drop_first()) =~= seq![' '] + (ws[0] + spaced(
        ws.drop_first(),
    )));
    lemma_encode_concat(seq![' '], ws[0] + spaced(ws.drop_first()));
    lemma_encode_ascii_char(' ');
}

/// Words, each written after a space, split back into their arguments.
pub proof fn lemma_spaced_words_split(ws: Seq<CliWord>)
    requires
        forall|i: int| 0 <= i < ws.len() ==> word_ok(#[trigger] ws[i]),
    ensures
        parse_args(encode_utf8(spaced(word_texts(ws)))) == Some(word_args(ws)),
    decreases ws.len(),
{
    if ws.len() == 0 {
        assert(word_texts(ws) =~= Seq::<Seq<char>>::empty());
        assert(spaced(word_texts(ws)) =~= Seq::<char>::empty());
        assert(encode_utf8(Seq::<char>::empty()) =~= Seq::<u8>::empty());
        assert(skip_blanks(Seq::<u8>::empty()) =~= Seq::<u8>::empty());
        assert(word_args(ws) =~= Seq::<Seq<u8>>::empty());
    } else {
        let w = ws[0];
        let rest = ws.drop_first();
        assert(word_texts(ws) =~= seq![word_text(w)] + word_texts(rest));
        assert(word_args(ws) =~= seq![word_arg(w)] + word_args(rest));
        assert forall|i: int| 0 <= i < rest.len() implies word_ok(#[trigger] rest[i]) by {
            assert(rest[i] == ws[i + 1]);
        }
        lemma_spaced_front(word_text(w), word_texts(rest));
        let tail = encode_utf8(spaced(word_texts(rest)));
        assert(seq![' '] + word_text(w) + spaced(word_texts(rest)) =~= seq![' '] + (word_text(w)
            + spaced(word_texts(rest))));
        lemma_encode_concat(seq![' '], word_text(w) + spaced(word_texts(rest)));
        lemma_encode_concat(word_text(w), spaced(word_texts(rest)));
        lemma_encode_ascii_char(' ');
        let x = encode_utf8(spaced(word_texts(ws)));
        assert(x =~= seq![0x20u8] + (encode_utf8(word_text(w)) + tail));
        if rest.len() > 0 {
            lemma_encode_spaced_start(word_texts(rest));
        } else {
            assert(word_texts(rest) =~= Seq::<Seq<char>>::empty());
            assert(tail =~= Seq::<u8>::empty());
        }
        lemma_parse_args_leading_blank(x);
        assert(x.drop_first() =~= encode_utf8(word_text(w)) + tail);
        lemma_word_step(w, tail);
        lemma_spaced_words_split(rest);
    }
}

/// A command line whose name is plain text and whose words are quoted byte
/// strings or plain text splits back into the name and the words' arguments.
pub proof fn lemma_command_line_splits(name: Seq<char>, ws: Seq<CliWord>)
    requires
        plain_word(name),
        forall|i: int| 0 <= i < ws.len() ==> word_ok(#[trigger] ws[i]),
    ensures
        parse_args(encode_utf8(command_line(name, word_texts(ws)))) == Some(
            seq![ascii_bytes(name)] + word_args(ws),
        ),
{
    let w = CliWord::Plain(name);
    let tail = encode_utf8(spaced(word_texts(ws)));
    lemma_encode_concat(name, spaced(word_texts(ws)));
    if ws.len() > 0 {
        lemma_encode_spaced_start(word_texts(ws));
    } else {
        assert(word_texts(ws) =~= Seq::<Seq<char>>::empty());
        assert(tail =~= Seq::<u8>::empty());
    }
    lemma_word_step(w, tail);
    lemma_spaced_words_split(ws);
}


/// The field and the value of each pair, in order.
pub open spec fn pair_args(p: Seq<(Seq<u8>, Seq<u8>)>) -> Seq<Seq<u8>>
    decreases p.len(),
{
    if p.len() == 0 {
        Seq::empty()
    } else {
        pair_args(p.drop_last()) + seq![p.last().0, p.last().1]
    }
}

/// The score and the member of each sorted-set entry, in order.
pub open spec fn scored_member_args(p: Seq<(Seq<u8>, Seq<char>)>) -> Seq<Seq<u8>>
    decreases p.len(),
{
    if p.len() == 0 {
        Seq::empty()
    } else {
        scored_member_args(p.drop_last()) + seq![ascii_bytes(p.last().1), p.last().0]
    }
}

spec fn quoted_cliwords(items: Seq<Seq<u8>>) -> Seq<CliWord> {
    items.map_values(|b: Seq<u8>| CliWord::Quoted(b))
}

spec fn pair_cliwords(p: Seq<(Seq<u8>, Seq<u8>)>) -> Seq<CliWord>
    decreases p.len(),
{
    if p.len() == 0 {
        Seq::empty()
    } else {
        pair_cliwords(p.drop_last()) + seq![
            CliWord::Quoted(p.last().0),
            CliWord::Quoted(p.last().1),
        ]
    }
}

spec fn scored_cliwords(p: Seq<(Seq<u8>, Seq<char>)>) -> Seq<CliWord>
    decreases p.len(),
{
    if p.len() == 0 {
        Seq::empty()
    } else {
        scored_cliwords(p.drop_last()) + seq![
            CliWord::Plain(p.last().1),
            CliWord::Quoted(p.last().0),
        ]
    }
}

proof fn lemma_quoted_cliwords(items: Seq<Seq<u8>>)
    ensures
        word_texts(quoted_cliwords(items)) == quoted_words(items),
        word_args(quoted_cliwords(items)) == items,
        forall|i: int|
            0 <= i < quoted_cliwords(items).len() ==> word_ok(#[trigger] quoted_cliwords(items)[i]),
    decreases items.len(),
{
    if items.len() > 0 {
        lemma_quoted_cliwords(items.drop_last());
        assert(quoted_cliwords(items) =~= quoted_cliwords(items.drop_last()) + seq![
            CliWord::Quoted(items.last()),
        ]);
        assert(word_texts(quoted_cliwords(items)) =~= quoted_words(items));
        assert(word_args(quoted_cliwords(items)) =~= items);
    } else {
        assert(word_texts(quoted_cliwords(items)) =~= quoted_words(items));
        assert(word_args(quoted_cliwords(items)) =~= items);
    }
}

proof fn lemma_pair_cliwords(p: Seq<(Seq<u8>, Seq<u8>)>)
    ensures
        word_texts(pair_cliwords(p)) == quoted_pair_words(p),
        word_args(pair_cliwords(p)) == pair_args(p),
        forall|i: int| 0 <= i < pair_cliwords(p).len() ==> word_ok(#[trigger] pair_cliwords(p)[i]),
    decreases p.len(),
{
    if p.len() > 0 {
        lemma_pair_cliwords(p.drop_last());
        let a = pair_cliwords(p.drop_last());
        assert(word_texts(pair_cliwords(p)) =~= word_texts(a) + seq![
            quoted(p.last().0),
            quoted(p.last().1),
        ]);
        assert(word_args(pair_cliwords(p)) =~= word_args(a) + seq![p.last().0, p.last().1]);
        assert forall|i: int| 0 <= i < pair_cliwords(p).len() implies word_ok(
            #[trigger] pair_cliwords(p)[i],
        ) by {
            if i < a.len() {
                assert(pair_cliwords(p)[i] == a[i]);
            }
        }
    } else {
        assert(word_texts(pair_cliwords(p)) =~= quoted_pair_words(p));
        assert(word_args(pair_cliwords(p)) =~= pair_args(p));
    }
}

proof fn lemma_scored_cliwords(p: Seq<(Seq<u8>, Seq<char>)>)
    requires
        forall|i: int| 0 <= i < p.len() ==> plain_word(#[trigger] p[i].1),
    ensures
        word_texts(scored_cliwords(p)) == scored_member_words(p),
        word_args(scored_cliwords(p)) == scored_member_args(p),
        forall|i: int|
            0 <= i < scored_cliwords(p).len() ==> word_ok(#[trigger] scored_cliwords(p)[i]),
    decreases p.len(),
{
    if p.len() > 0 {
        assert forall|i: int| 0 <= i < p.drop_last().len() implies plain_word(
            #[trigger] p.drop_last()[i].1,
        ) by {
            assert(p.drop_last()[i] == p[i]);
        }
        lemma_scored_cliwords(p.drop_last());
        let a = scored_cliwords(p.drop_last());
        assert(plain_word(p[p.len() - 1].1));
        assert(word_texts(scored_cliwords(p)) =~= word_texts(a) + seq![
            p.last().1,
            quoted(p.last().0),
        ]);
        assert(word_args(scored_cliwords(p)) =~= word_args(a) + seq![
            ascii_bytes(p.last().1),
            p.last().0,
        ]);
        assert forall|i: int| 0 <= i < scored_cliwords(p).len() implies word_ok(
            #[trigger] scored_cliwords(p)[i],
        ) by {
            if i < a.len() {
                assert(scored_cliwords(p)[i] == a[i]);
            }
        }
    } else {
        assert(word_texts(scored_cliwords(p)) =~= scored_member_words(p));
        assert(word_args(scored_cliwords(p)) =~= scored_member_args(p));
    }
}

proof fn lemma_decimal_nat_plain(n: nat)
    ensures
        plain_word(decimal_nat(n)),
        forall|i: int|
            0 <= i < decimal_nat(n).len() ==> 0x30 <= (#[trigger] decimal_nat(n)[i] as u32) <= 0x39,
    decreases n,
{
    if n >= 10 {
        lemma_decimal_nat_plain(n / 10);
        let d = decimal_nat(n / 10);
        assert forall|i: int| 0 <= i < decimal_nat(n).len() implies 0x30 <= (
        #[trigger] decimal_nat(n)[i] as u32) <= 0x39 by {
            if i < d.len() {
                assert(decimal_nat(n)[i] == d[i]);
            } else {
                assert(decimal_nat(n)[i] == decimal_digit(n % 10));
            }
        }
    }
}

proof fn lemma_decimal_int_plain(n: int)
    ensures
        plain_word(decimal_int(n)),
{
    if n < 0 {
        lemma_decimal_nat_plain((-n) as nat);
        let d = decimal_nat((-n) as nat);
        assert forall|i: int| 0 <= i < decimal_int(n).len() implies 0x21 <= (
        #[trigger] decimal_int(n)[i] as u32) <= 0x7e && decimal_int(n)[i] != '"'
            && decimal_int(n)[i] != '\'' by {
            if i > 0 {
                assert(decimal_int(n)[i] == d[i - 1]);
            }
        }
    } else {
        lemma_decimal_nat_plain(n as nat);
    }
}

proof fn lemma_name_plain(t: Seq<char>)
    requires
        t.len() > 0,
        forall|i: int| 0 <= i < t.len() ==> 'A' <= #[trigger] t[i] <= 'Z' || t[i] == '.',
    ensures
        plain_word(t),
{
}

/// `SET` lines split back into `SET`, the key and the value.
pub proof fn law_set_command_splits(key: Seq<u8>, value: Seq<u8>)
    ensures
        parse_args(encode_utf8(command_line(word_set(), seq![quoted(key), quoted(value)])))
            == Some(seq![ascii_bytes(word_set()), key, value]),
{
    let ws = seq![CliWord::Quoted(key), CliWord::Quoted(value)];
    assert(word_texts(ws) =~= seq![quoted(key), quoted(value)]);
    assert(word_args(ws) =~= seq![key, value]);
    lemma_name_plain(word_set());
    lemma_command_line_splits(word_set(), ws);
    assert(seq![ascii_bytes(word_set())] + seq![key, value] =~= seq![
        ascii_bytes(word_set()),
        key,
        value,
    ]);
}

/// `HSET` lines split back into `HSET`, the key, the field and the value.
pub proof fn law_hset_command_splits(key: Seq<u8>, field: Seq<u8>, value: Seq<u8>)
    ensures
        parse_args(
            encode_utf8(command_line(word_hset(), seq![quoted(key), quoted(field), quoted(value)])),
        ) == Some(seq![ascii_bytes(word_hset()), key, field, value]),
{
    let ws = seq![CliWord::Quoted(key), CliWord::Quoted(field), CliWord::Quoted(value)];
    assert(word_texts(ws) =~= seq![quoted(key), quoted(field), quoted(value)]);
    assert(word_args(ws) =~= seq![key, field, value]);
    lemma_name_plain(word_hset());
    lemma_command_line_splits(word_hset(), ws);
    assert(seq![ascii_bytes(word_hset())] + seq![key, field, value] =~= seq![
        ascii_bytes(word_hset()),
        key,
        field,
        value,
    ]);
}

/// `EXPIRE` lines split back into `EXPIRE`, the key and the decimal seconds.
pub proof fn law_expire_command_splits(key: Seq<u8>, ttl: int)
    ensures
        parse_args(encode_utf8(command_line(word_expire(), seq![quoted(key), decimal_int(ttl)])))
            == Some(seq![ascii_bytes(word_expire()), key, ascii_bytes(decimal_int(ttl))]),
{
    let ws = seq![CliWord::Quoted(key), CliWord::Plain(decimal_int(ttl))];
    lemma_decimal_int_plain(ttl);
    assert(word_texts(ws) =~= seq![quoted(key), decimal_int(ttl)]);
    assert(word_args(ws) =~= seq![key, ascii_bytes(decimal_int(ttl))]);
    lemma_name_plain(word_expire());
    lemma_command_line_splits(word_expire(), ws);
    assert(seq![ascii_bytes(word_expire())] + seq![key, ascii_bytes(decimal_int(ttl))] =~= seq![
        ascii_bytes(word_expire()),
        key,
        ascii_bytes(decimal_int(ttl)),
    ]);
}

/// `JSON.SET` lines split back into `JSON.SET`, the key, `$` and the document.
pub proof fn law_json_set_command_splits(key: Seq<u8>, json: Seq<u8>)
    ensures
        parse_args(
            encode_utf8(command_line(word_json_set(), seq![quoted(key), seq!['$'], quoted(json)])),
        ) == Some(seq![ascii_bytes(word_json_set()), key, seq![0x24u8], json]),
{
    let ws = seq![CliWord::Quoted(key), CliWord::Plain(seq!['$']), CliWord::Quoted(json)];
    assert(word_texts(ws) =~= seq![quoted(key), seq!['$'], quoted(json)]);
    assert(ascii_bytes(seq!['$']) =~= seq![0x24u8]);
    assert(word_args(ws) =~= seq![key, seq![0x24u8], json]);
    lemma_name_plain(word_json_set());
    lemma_command_line_splits(word_json_set(), ws);
    assert(seq![ascii_bytes(word_json_set())] + seq![key, seq![0x24u8], json] =~= seq![
        ascii_bytes(word_json_set()),
        key,
        seq![0x24u8],
        json,
    ]);
}

/// `HMSET` lines split back into `HMSET`, the key and every field and value.
pub proof fn law_hmset_command_splits(key: Seq<u8>, pairs: Seq<(Seq<u8>, Seq<u8>)>)
    ensures
        parse_args(
            encode_utf8(command_line(word_hmset(), seq![quoted(key)] + quoted_pair_words(pairs))),
        ) == Some(seq![ascii_bytes(word_hmset()), key] + pair_args(pairs)),
{
    let ws = seq![CliWord::Quoted(key)] + pair_cliwords(pairs);
    lemma_pair_cliwords(pairs);
    assert(word_texts(ws) =~= seq![quoted(key)] + quoted_pair_words(pairs));
    assert(word_args(ws) =~= seq![key] + pair_args(pairs));
    assert forall|i: int| 0 <= i < ws.len() implies word_ok(#[trigger] ws[i]) by {
        if i > 0 {
            assert(ws[i] == pair_cliwords(pairs)[i - 1]);
        }
    }
    lemma_name_plain(word_hmset());
    lemma_command_line_splits(word_hmset(), ws);
    assert(seq![ascii_bytes(word_hmset())] + (seq![key] + pair_args(pairs)) =~= seq![
        ascii_bytes(word_hmset()),
        key,
    ] + pair_args(pairs));
}

/// `XADD` lines split back into `XADD`, the key, the id and every field and
/// value, in order.
pub proof fn law_xadd_command_splits(key: Seq<u8>, id: Seq<u8>, fields: Seq<(Seq<u8>, Seq<u8>)>)
    ensures
        parse_args(
            encode_utf8(
                command_line(word_xadd(), seq![quoted(key), quoted(id)] + quoted_pair_words(fields)),
            ),
        ) == Some(seq![ascii_bytes(word_xadd()), key, id] + pair_args(fields)),
{
    let ws = seq![CliWord::Quoted(key), CliWord::Quoted(id)] + pair_cliwords(fields);
    lemma_pair_cliwords(fields);
    assert(word_texts(ws) =~= seq![quoted(key), quoted(id)] + quoted_pair_words(fields));
    assert(word_args(ws) =~= seq![key, id] + pair_args(fields));
    assert forall|i: int| 0 <= i < ws.len() implies word_ok(#[trigger] ws[i]) by {
        if i > 1 {
            assert(ws[i] == pair_cliwords(fields)[i - 2]);
        }
    }
    lemma_name_plain(word_xadd());
    lemma_command_line_splits(word_xadd(), ws);
    assert(seq![ascii_bytes(word_xadd())] + (seq![key, id] + pair_args(fields)) =~= seq![
        ascii_bytes(word_xadd()),
        key,
        id,
    ] + pair_args(fields));
}

/// `RPUSH` and `SADD` lines split back into the name, the key and every item.
pub proof fn law_items_command_splits(name: Seq<char>, key: Seq<u8>, items: Seq<Seq<u8>>)
    requires
        name == word_rpush() || name == word_sadd(),
    ensures
        parse_args(encode_utf8(command_line(name, seq![quoted(key)] + quoted_words(items))))
            == Some(seq![ascii_bytes(name), key] + items),
{
    let ws = seq![CliWord::Quoted(key)] + quoted_cliwords(items);
    lemma_quoted_cliwords(items);
    assert(word_texts(ws) =~= seq![quoted(key)] + quoted_words(items));
    assert(word_args(ws) =~= seq![key] + items);
    assert forall|i: int| 0 <= i < ws.len() implies word_ok(#[trigger] ws[i]) by {
        if i > 0 {
            assert(ws[i] == quoted_cliwords(items)[i - 1]);
        }
    }
    lemma_name_plain(name);
    lemma_command_line_splits(name, ws);
    assert(seq![ascii_bytes(name)] + (seq![key] + items) =~= seq![ascii_bytes(name), key]
        + items);
}

/// `ZADD` lines split back into `ZADD`, the key and every score and member,
/// when each score text is a plain word.
pub proof fn law_zadd_command_splits(key: Seq<u8>, pairs: Seq<(Seq<u8>, Seq<char>)>)
    requires
        forall|i: int| 0 <= i < pairs.len() ==> plain_word(#[trigger] pairs[i].1),
    ensures
        parse_args(
            encode_utf8(command_line(word_zadd(), seq![quoted(key)] + scored_member_words(pairs))),
        ) == Some(seq![ascii_bytes(word_zadd()), key] + scored_member_args(pairs)),
{
    let ws = seq![CliWord::Quoted(key)] + scored_cliwords(pairs);
    lemma_scored_cliwords(pairs);
    assert(word_texts(ws) =~= seq![quoted(key)] + scored_member_words(pairs));
    assert(word_args(ws) =~= seq![key] + scored_member_args(pairs));
    assert forall|i: int| 0 <= i < ws.len() implies word_ok(#[trigger] ws[i]) by {
        if i > 0 {
            assert(ws[i] == scored_cliwords(pairs)[i - 1]);
        }
    }
    lemma_name_plain(word_zadd());
    lemma_command_line_splits(word_zadd(), ws);
    assert(seq![ascii_bytes(word_zadd())] + (seq![key] + scored_member_args(pairs)) =~= seq![
        ascii_bytes(word_zadd()),
        key,
    ] + scored_member_args(pairs));
}

/// A quoted byte string alone splits back into exactly those bytes.
pub proof fn law_quoted_splits(b: Seq<u8>)
    ensures
        parse_args(encode_utf8(quoted(b))) == Some(seq![b]),
{
    let ws = seq![CliWord::Quoted(b)];
    lemma_spaced_words_split(ws);
    assert(word_texts(ws) =~= seq![quoted(b)]);
    assert(word_args(ws) =~= seq![b]);
    lemma_spaced_front(quoted(b), Seq::empty());
    assert(seq![quoted(b)] + Seq::<Seq<char>>::empty() =~= seq![quoted(b)]);
    assert(spaced(Seq::<Seq<char>>::empty()) =~= Seq::<char>::empty());
    let x = encode_utf8(spaced(seq![quoted(b)]));
    assert(seq![' '] + quoted(b) + Seq::<char>::empty() =~= seq![' '] + quoted(b));
    lemma_encode_concat(seq![' '], quoted(b));
    lemma_encode_ascii_char(' ');
    assert(x.drop_first() =~= encode_utf8(quoted(b)));
    lemma_parse_args_leading_blank(x);
}

} // verus!
