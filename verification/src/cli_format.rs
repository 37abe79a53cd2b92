//! Renders Redis keys and values as redis-cli command lines that can be pasted
//! back into redis-cli; `split_redis_args` reads them back.
use vstd::prelude::*;
use vstd::utf8::*;
use crate::text::{push_char, hex_digit_char, hex_escape, is_control, is_control_scalar, push_decimal_i64, decimal_int};

verus! {

broadcast use vstd::string::group_string_axioms;

/// Width of the UTF-8 sequence that a leading byte announces, if any.
pub open spec fn spec_utf8_char_len(b: u8) -> Option<usize> {
    if is_leading_byte_width_1(b) {
        Some(1)
    } else if is_leading_byte_width_2(b) {
        Some(2)
    } else if is_leading_byte_width_3(b) {
        Some(3)
    } else if is_leading_byte_width_4(b) {
        Some(4)
    } else {
        None
    }
}

fn utf8_char_len(b: u8) -> (r: Option<usize>)
    ensures
        r == spec_utf8_char_len(b),
{
    assert((b & 0xe0) == 0xc0 <==> 0xc0 <= b <= 0xdf) by (bit_vector);
    assert((b & 0xf0) == 0xe0 <==> 0xe0 <= b <= 0xef) by (bit_vector);
    assert((b & 0xf8) == 0xf0 <==> 0xf0 <= b <= 0xf7) by (bit_vector);
    if b <= 0x7f {
        Some(1)
    } else if (b & 0xe0) == 0xc0 {
        Some(2)
    } else if (b & 0xf0) == 0xe0 {
        Some(3)
    } else if (b & 0xf8) == 0xf0 {
        Some(4)
    } else {
        None
    }
}

/// `std::str::from_utf8`: the bytes are accepted exactly when they are valid
/// UTF-8, and the text then is their decoding.
#[verifier::external_body]
fn str_from_utf8(v: &[u8]) -> (res: Option<&str>)
    ensures
        res is Some <==> valid_utf8(v@),
        res matches Some(s) ==> s@ == decode_utf8(v@),
{
    std::str::from_utf8(v).ok()
}

proof fn lemma_valid_first_scalar_prefix(b: Seq<u8>, len: usize)
    requires
        spec_utf8_char_len(b[0]) == Some(len),
        b.len() >= len,
        len >= 1,
    ensures
        valid_first_scalar(b) <==> valid_utf8(b.subrange(0, len as int)),
        valid_first_scalar(b) ==> length_of_first_scalar(b) == len,
        valid_first_scalar(b) ==> decode_utf8(b.subrange(0, len as int)) == seq![
            decode_first_scalar(b) as char,
        ],
{
    let t = b.subrange(0, len as int);
    assert(t.len() == len);
    assert(forall|k: int| 0 <= k < len ==> t[k] == b[k]);
    assert(valid_first_scalar(b) <==> valid_first_scalar(t));
    if valid_first_scalar(t) {
        assert(length_of_first_scalar(t) == len);
        assert(pop_first_scalar(t) =~= Seq::<u8>::empty());
        assert(valid_utf8(pop_first_scalar(t)));
        assert(decode_utf8(pop_first_scalar(t)) =~= Seq::<char>::empty());
        assert(decode_utf8(t) =~= seq![decode_first_scalar(t) as char]);
    }
}

proof fn lemma_decoded_scalar(b: Seq<u8>)
    requires
        valid_first_scalar(b),
    ensures
        is_scalar(decode_first_scalar(b)),
        (decode_first_scalar(b) as char) as u32 == decode_first_scalar(b),
{
    let d = decode_first_scalar(b);
    if is_leading_byte_width_2(b[0]) {
        let (x, y) = (b[0], b[1]);
        assert(((x & 0x1f) as u32) << 6 | ((y & 0x3f) as u32) <= 0x7ff) by (bit_vector);
    } else if is_leading_byte_width_3(b[0]) {
        let (x, y, z) = (b[0], b[1], b[2]);
        assert(((x & 0x0f) as u32) << 12 | ((y & 0x3f) as u32) << 6 | ((z & 0x3f) as u32)
            <= 0xffff) by (bit_vector);
    }
    assert(is_scalar(d));
}

/// Reads the UTF-8 character that starts at `i`: its value and width, when
/// the bytes from `i` on begin with a well-formed encoding of one scalar.
fn read_utf8_char(bytes: &[u8], i: usize) -> (r: Option<(char, usize)>)
    requires
        i < bytes@.len(),
    ensures
        r is Some <==> valid_first_scalar(bytes@.skip(i as int)),
        r matches Some((ch, len)) ==> ch as u32 == decode_first_scalar(bytes@.skip(i as int))
            && len == length_of_first_scalar(bytes@.skip(i as int)),
{
    let ghost b = bytes@.skip(i as int);
    assert(b[0] == bytes@[i as int]);
    let len = match utf8_char_len(bytes[i]) {
        Some(len) => len,
        None => {
            return None;
        },
    };
    if bytes.len() - i < len {
        return None;
    }
    proof {
        lemma_valid_first_scalar_prefix(b, len);
        assert(bytes@.subrange(i as int, i + len) =~= b.subrange(0, len as int));
    }
    let piece = &bytes[i..i + len];
    let s = match str_from_utf8(piece) {
        Some(s) => s,
        None => {
            return None;
        },
    };
    let mut chars = s.chars();
    match chars.next() {
        Some(ch) => {
            proof {
                assert(s@ == seq![decode_first_scalar(b) as char]);
                assert(ch == decode_first_scalar(b) as char);
                lemma_decoded_scalar(b);
            }
            Some((ch, len))
        },
        None => None,
    }
}

/// Whether the bytes begin with a well-formed UTF-8 encoding of a character
/// that is not a control character; such characters are written as they are.
pub open spec fn printable_scalar_at(b: Seq<u8>) -> bool {
    valid_first_scalar(b) && !is_control_scalar(decode_first_scalar(b))
}

/// The characters that stand between the double quotes for the given bytes:
/// `"` `\` newline, carriage return and tab get a backslash escape, printable
/// ASCII and printable UTF-8 characters are kept, and every other byte is
/// written as `\xHH`.
pub open spec fn escape_bytes(b: Seq<u8>) -> Seq<char>
    decreases b.len(),
{
    if b.len() == 0 {
        Seq::empty()
    } else {
        let c = b[0];
        if c == 0x22 {
            seq!['\\', '"'] + escape_bytes(b.drop_first())
        } else if c == 0x5c {
            seq!['\\', '\\'] + escape_bytes(b.drop_first())
        } else if c == 0x0a {
            seq!['\\', 'n'] + escape_bytes(b.drop_first())
        } else if c == 0x0d {
            seq!['\\', 'r'] + escape_bytes(b.drop_first())
        } else if c == 0x09 {
            seq!['\\', 't'] + escape_bytes(b.drop_first())
        } else if 0x20 <= c <= 0x7e {
            seq![c as char] + escape_bytes(b.drop_first())
        } else if printable_scalar_at(b) {
            seq![decode_first_scalar(b) as char] + escape_bytes(
                b.skip(length_of_first_scalar(b)),
            )
        } else {
            hex_escape(c) + escape_bytes(b.drop_first())
        }
    }
}

/// The double-quoted, escaped form of a byte string.
pub open spec fn quoted(b: Seq<u8>) -> Seq<char> {
    seq!['"'] + escape_bytes(b) + seq!['"']
}

fn push_hex_escape(s: &mut String, b: u8)
    ensures
        final(s)@ == old(s)@ + hex_escape(b),
{
    push_char(s, '\\');
    push_char(s, 'x');
    push_char(s, hex_digit_char(b / 16));
    push_char(s, hex_digit_char(b % 16));
    assert(s@ =~= old(s)@ + hex_escape(b));
}

/// Double quotes with C-style escapes, as redis-cli prints strings: printable
/// UTF-8 characters are kept, control and binary bytes become `\xHH`.
pub fn format_quoted(bytes: &[u8]) -> (s: String)
    ensures
        s@ == quoted(bytes@),
{
    let mut s = String::new();
    push_char(&mut s, '"');
    let mut i: usize = 0;
    assert(bytes@.skip(0) =~= bytes@);
    while i < bytes.len()
        invariant
            i <= bytes@.len(),
            s@ + escape_bytes(bytes@.skip(i as int)) == seq!['"'] + escape_bytes(bytes@),
        decreases bytes@.len() - i,
    {
        let ghost rest = bytes@.skip(i as int);
        let ghost old_s = s@;
        let b = bytes[i];
        assert(rest[0] == b);
        assert(rest.drop_first() =~= bytes@.skip(i + 1));
        if b == 0x22 {
            push_char(&mut s, '\\');
            push_char(&mut s, '"');
            i += 1;
        } else if b == 0x5c {
            push_char(&mut s, '\\');
            push_char(&mut s, '\\');
            i += 1;
        } else if b == 0x0a {
            push_char(&mut s, '\\');
            push_char(&mut s, 'n');
            i += 1;
        } else if b == 0x0d {
            push_char(&mut s, '\\');
            push_char(&mut s, 'r');
            i += 1;
        } else if b == 0x09 {
            push_char(&mut s, '\\');
            push_char(&mut s, 't');
            i += 1;
        } else if 0x20 <= b && b <= 0x7e {
            push_char(&mut s, b as char);
            i += 1;
        } else {
            match read_utf8_char(bytes, i) {
                Some((ch, len)) => {
                    if !is_control(ch) {
                        proof {
                            lemma_decoded_scalar(rest);
                            vstd::utf8::char_u32_cast(ch, ch as u32);
                            assert(ch == decode_first_scalar(rest) as char);
                            assert(rest.skip(len as int) =~= bytes@.skip(i + len));
                        }
                        push_char(&mut s, ch);
                        i += len;
                    } else {
                        push_hex_escape(&mut s, b);
                        i += 1;
                    }
                },
                None => {
                    push_hex_escape(&mut s, b);
                    i += 1;
                },
            }
        }
        assert(s@ + escape_bytes(bytes@.skip(i as int)) == seq!['"'] + escape_bytes(bytes@));
    }
    assert(bytes@.skip(i as int) =~= Seq::<u8>::empty());
    push_char(&mut s, '"');
    assert(s@ =~= quoted(bytes@));
    s
}


/// Words joined after a command name: each word is preceded by one space.
pub open spec fn spaced(words: Seq<Seq<char>>) -> Seq<char>
    decreases words.len(),
{
    if words.len() == 0 {
        Seq::empty()
    } else {
        spaced(words.drop_last()) + seq![' '] + words.last()
    }
}

/// A command line: the command name followed by its space-separated words.
pub open spec fn command_line(name: Seq<char>, words: Seq<Seq<char>>) -> Seq<char> {
    name + spaced(words)
}

/// The quoted form of each byte string, in order.
pub open spec fn quoted_words(items: Seq<Seq<u8>>) -> Seq<Seq<char>>
    decreases items.len(),
{
    if items.len() == 0 {
        Seq::empty()
    } else {
        quoted_words(items.drop_last()) + seq![quoted(items.last())]
    }
}

/// The quoted field and the quoted value of each pair, in order.
pub open spec fn quoted_pair_words(pairs: Seq<(Seq<u8>, Seq<u8>)>) -> Seq<Seq<char>>
    decreases pairs.len(),
{
    if pairs.len() == 0 {
        Seq::empty()
    } else {
        quoted_pair_words(pairs.drop_last()) + seq![
            quoted(pairs.last().0),
            quoted(pairs.last().1),
        ]
    }
}

/// The score text and the quoted member of each sorted-set entry, in order.
pub open spec fn scored_member_words(pairs: Seq<(Seq<u8>, Seq<char>)>) -> Seq<Seq<char>>
    decreases pairs.len(),
{
    if pairs.len() == 0 {
        Seq::empty()
    } else {
        scored_member_words(pairs.drop_last()) + seq![pairs.last().1, quoted(pairs.last().0)]
    }
}

pub open spec fn word_set() -> Seq<char> {
    seq!['S', 'E', 'T']
}

pub open spec fn word_expire() -> Seq<char> {
    seq!['E', 'X', 'P', 'I', 'R', 'E']
}

pub open spec fn word_hmset() -> Seq<char> {
    seq!['H', 'M', 'S', 'E', 'T']
}

pub open spec fn word_hset() -> Seq<char> {
    seq!['H', 'S', 'E', 'T']
}

pub open spec fn word_rpush() -> Seq<char> {
    seq!['R', 'P', 'U', 'S', 'H']
}

pub open spec fn word_sadd() -> Seq<char> {
    seq!['S', 'A', 'D', 'D']
}

pub open spec fn word_zadd() -> Seq<char> {
    seq!['Z', 'A', 'D', 'D']
}

pub open spec fn word_xadd() -> Seq<char> {
    seq!['X', 'A', 'D', 'D']
}

pub open spec fn word_json_set() -> Seq<char> {
    seq!['J', 'S', 'O', 'N', '.', 'S', 'E', 'T']
}

pub proof fn lemma_spaced_push(words: Seq<Seq<char>>, w: Seq<char>)
    ensures
        spaced(words.push(w)) == spaced(words) + seq![' '] + w,
{
    assert(words.push(w).drop_last() =~= words);
}

fn push_word_chars(s: &mut String, w: &[char])
    ensures
        final(s)@ == old(s)@ + w@,
{
    let mut i: usize = 0;
    while i < w.len()
        invariant
            i <= w@.len(),
            s@ == old(s)@ + w@.take(i as int),
        decreases w@.len() - i,
    {
        push_char(s, w[i]);
        i += 1;
        assert(s@ =~= old(s)@ + w@.take(i as int));
    }
    assert(w@.take(i as int) =~= w@);
}

/// Appends a space and the quoted form of `b`.
fn push_quoted_word(s: &mut String, b: &[u8])
    ensures
        final(s)@ == old(s)@ + seq![' '] + quoted(b@),
{
    push_char(s, ' ');
    let q = format_quoted(b);
    let ghost before = s@;
    s.append(q.as_str());
    assert(s@ =~= old(s)@ + seq![' '] + quoted(b@));
}

/// Appends a space and the given text.
fn push_plain_word(s: &mut String, t: &str)
    ensures
        final(s)@ == old(s)@ + seq![' '] + t@,
{
    push_char(s, ' ');
    s.append(t);
    assert(s@ =~= old(s)@ + seq![' '] + t@);
}

fn start_line(name: &[char]) -> (s: String)
    ensures
        s@ == name@,
{
    let mut s = String::new();
    push_word_chars(&mut s, name);
    assert(s@ =~= name@);
    s
}

/// `SET "key" "value"`.
pub fn format_set_command(key: &[u8], value: &[u8]) -> (s: String)
    ensures
        s@ == command_line(word_set(), seq![quoted(key@), quoted(value@)]),
{
    let mut s = start_line(&['S', 'E', 'T']);
    push_quoted_word(&mut s, key);
    push_quoted_word(&mut s, value);
    proof {
        let w = seq![quoted(key@), quoted(value@)];
        lemma_spaced_push(seq![quoted(key@)], quoted(value@));
        lemma_spaced_push(Seq::empty(), quoted(key@));
        assert(seq![quoted(key@)] =~= Seq::<Seq<char>>::empty().push(quoted(key@)));
        assert(w =~= seq![quoted(key@)].push(quoted(value@)));
        assert(s@ =~= command_line(word_set(), w));
    }
    s
}

/// `EXPIRE "key" <seconds>`.
pub fn format_expire_command(key: &[u8], ttl_secs: i64) -> (s: String)
    ensures
        s@ == command_line(word_expire(), seq![quoted(key@), decimal_int(ttl_secs as int)]),
{
    let mut s = start_line(&['E', 'X', 'P', 'I', 'R', 'E']);
    push_quoted_word(&mut s, key);
    push_char(&mut s, ' ');
    push_decimal_i64(&mut s, ttl_secs);
    proof {
        let w = seq![quoted(key@), decimal_int(ttl_secs as int)];
        lemma_spaced_push(seq![quoted(key@)], decimal_int(ttl_secs as int));
        lemma_spaced_push(Seq::empty(), quoted(key@));
        assert(seq![quoted(key@)] =~= Seq::<Seq<char>>::empty().push(quoted(key@)));
        assert(w =~= seq![quoted(key@)].push(decimal_int(ttl_secs as int)));
        assert(s@ =~= command_line(word_expire(), w));
    }
    s
}

/// `HSET "key" "field" "value"`.
pub fn format_hset_command(key: &[u8], field: &[u8], value: &[u8]) -> (s: String)
    ensures
        s@ == command_line(word_hset(), seq![quoted(key@), quoted(field@), quoted(value@)]),
{
    let mut s = start_line(&['H', 'S', 'E', 'T']);
    push_quoted_word(&mut s, key);
    push_quoted_word(&mut s, field);
    push_quoted_word(&mut s, value);
    proof {
        let w1 = Seq::<Seq<char>>::empty().push(quoted(key@));
        let w2 = w1.push(quoted(field@));
        let w3 = w2.push(quoted(value@));
        lemma_spaced_push(Seq::empty(), quoted(key@));
        lemma_spaced_push(w1, quoted(field@));
        lemma_spaced_push(w2, quoted(value@));
        assert(w3 =~= seq![quoted(key@), quoted(field@), quoted(value@)]);
        assert(s@ =~= command_line(word_hset(), w3));
    }
    s
}

/// `JSON.SET "key" $ "json"`.
pub fn format_json_set_command(key: &[u8], json: &[u8]) -> (s: String)
    ensures
        s@ == command_line(word_json_set(), seq![quoted(key@), seq!['$'], quoted(json@)]),
{
    let mut s = start_line(&['J', 'S', 'O', 'N', '.', 'S', 'E', 'T']);
    push_quoted_word(&mut s, key);
    push_char(&mut s, ' ');
    push_char(&mut s, '$');
    push_quoted_word(&mut s, json);
    proof {
        let w1 = Seq::<Seq<char>>::empty().push(quoted(key@));
        let w2 = w1.push(seq!['$']);
        let w3 = w2.push(quoted(json@));
        lemma_spaced_push(Seq::empty(), quoted(key@));
        lemma_spaced_push(w1, seq!['$']);
        lemma_spaced_push(w2, quoted(json@));
        assert(w3 =~= seq![quoted(key@), seq!['$'], quoted(json@)]);
        assert(s@ =~= command_line(word_json_set(), w3));
    }
    s
}

/// Appends the quoted field and value of every pair, each after a space.
fn push_pair_words(s: &mut String, pairs: &[(Vec<u8>, Vec<u8>)])
    ensures
        final(s)@ == old(s)@ + spaced(quoted_pair_words(pairs.deep_view())),
{
    let ghost p = pairs.deep_view();
    let mut i: usize = 0;
    assert(p.take(0) =~= Seq::<(Seq<u8>, Seq<u8>)>::empty());
    while i < pairs.len()
        invariant
            i <= pairs@.len(),
            p == pairs.deep_view(),
            s@ == old(s)@ + spaced(quoted_pair_words(p.take(i as int))),
        decreases pairs@.len() - i,
    {
        let (f, v) = &pairs[i];
        assert(p[i as int] == (f@, v@));
        push_quoted_word(s, f.as_slice());
        push_quoted_word(s, v.as_slice());
        proof {
            let t = p.take(i + 1);
            assert(t.drop_last() =~= p.take(i as int));
            let w = quoted_pair_words(p.take(i as int));
            assert(quoted_pair_words(t) == w + seq![quoted(f@), quoted(v@)]);
            assert(w + seq![quoted(f@), quoted(v@)] =~= w.push(quoted(f@)).push(quoted(v@)));
            lemma_spaced_push(w, quoted(f@));
            lemma_spaced_push(w.push(quoted(f@)), quoted(v@));
        }
        i += 1;
        assert(s@ =~= old(s)@ + spaced(quoted_pair_words(p.take(i as int))));
    }
    assert(p.take(i as int) =~= p);
}

/// Appends the quoted form of every item, each after a space.
fn push_item_words(s: &mut String, items: &[Vec<u8>])
    ensures
        final(s)@ == old(s)@ + spaced(quoted_words(items.deep_view())),
{
    let ghost p = items.deep_view();
    let mut i: usize = 0;
    assert(p.take(0) =~= Seq::<Seq<u8>>::empty());
    while i < items.len()
        invariant
            i <= items@.len(),
            p == items.deep_view(),
            s@ == old(s)@ + spaced(quoted_words(p.take(i as int))),
        decreases items@.len() - i,
    {
        let it = &items[i];
        assert(p[i as int] == it@);
        push_quoted_word(s, it.as_slice());
        proof {
            let t = p.take(i + 1);
            assert(t.drop_last() =~= p.take(i as int));
            let w = quoted_words(p.take(i as int));
            assert(quoted_words(t) == w.push(quoted(it@)));
            lemma_spaced_push(w, quoted(it@));
        }
        i += 1;
        assert(s@ =~= old(s)@ + spaced(quoted_words(p.take(i as int))));
    }
    assert(p.take(i as int) =~= p);
}

/// `HMSET "key" "f1" "v1" ...`; nothing for an empty hash.
pub fn format_hmset_command(key: &[u8], pairs: &[(Vec<u8>, Vec<u8>)]) -> (r: Option<String>)
    ensures
        pairs@.len() == 0 ==> r is None,
        pairs@.len() > 0 ==> (r matches Some(s) && s@ == command_line(
            word_hmset(),
            seq![quoted(key@)] + quoted_pair_words(pairs.deep_view()),
        )),
{
    if pairs.len() == 0 {
        return None;
    }
    let mut s = start_line(&['H', 'M', 'S', 'E', 'T']);
    push_quoted_word(&mut s, key);
    let ghost head = s@;
    push_pair_words(&mut s, pairs);
    proof {
        lemma_spaced_concat(seq![quoted(key@)], quoted_pair_words(pairs.deep_view()));
        lemma_spaced_push(Seq::empty(), quoted(key@));
        assert(seq![quoted(key@)] =~= Seq::<Seq<char>>::empty().push(quoted(key@)));
        assert(s@ =~= command_line(
            word_hmset(),
            seq![quoted(key@)] + quoted_pair_words(pairs.deep_view()),
        ));
    }
    Some(s)
}

proof fn lemma_spaced_concat(a: Seq<Seq<char>>, b: Seq<Seq<char>>)
    ensures
        spaced(a + b) == spaced(a) + spaced(b),
    decreases b.len(),
{
    if b.len() == 0 {
        assert(a + b =~= a);
        assert(spaced(b) =~= Seq::<char>::empty());
        assert(spaced(a) + spaced(b) =~= spaced(a));
    } else {
        assert((a + b).drop_last() =~= a + b.drop_last());
        assert((a + b).last() == b.last());
        lemma_spaced_concat(a, b.drop_last());
        assert(spaced(a + b) =~= spaced(a) + spaced(b));
    }
}

fn format_items_command(name: &[char], key: &[u8], items: &[Vec<u8>]) -> (r: Option<String>)
    ensures
        items@.len() == 0 ==> r is None,
        items@.len() > 0 ==> (r matches Some(s) && s@ == command_line(
            name@,
            seq![quoted(key@)] + quoted_words(items.deep_view()),
        )),
{
    if items.len() == 0 {
        return None;
    }
    let mut s = start_line(name);
    push_quoted_word(&mut s, key);
    push_item_words(&mut s, items);
    proof {
        lemma_spaced_concat(seq![quoted(key@)], quoted_words(items.deep_view()));
        lemma_spaced_push(Seq::empty(), quoted(key@));
        assert(seq![quoted(key@)] =~= Seq::<Seq<char>>::empty().push(quoted(key@)));
        assert(s@ =~= command_line(name@, seq![quoted(key@)] + quoted_words(items.deep_view())));
    }
    Some(s)
}

/// `RPUSH "key" "item" ...`; nothing for an empty list.
pub fn format_rpush_command(key: &[u8], items: &[Vec<u8>]) -> (r: Option<String>)
    ensures
        items@.len() == 0 ==> r is None,
        items@.len() > 0 ==> (r matches Some(s) && s@ == command_line(
            word_rpush(),
            seq![quoted(key@)] + quoted_words(items.deep_view()),
        )),
{
    let name = ['R', 'P', 'U', 'S', 'H'];
    assert(name@ =~= word_rpush());
    format_items_command(&name, key, items)
}

/// `SADD "key" "member" ...`; nothing for an empty set.
pub fn format_sadd_command(key: &[u8], members: &[Vec<u8>]) -> (r: Option<String>)
    ensures
        members@.len() == 0 ==> r is None,
        members@.len() > 0 ==> (r matches Some(s) && s@ == command_line(
            word_sadd(),
            seq![quoted(key@)] + quoted_words(members.deep_view()),
        )),
{
    let name = ['S', 'A', 'D', 'D'];
    assert(name@ =~= word_sadd());
    format_items_command(&name, key, members)
}

/// `ZADD "key" <score> "member" ...`; nothing for an empty sorted set. Each
/// score is given as the text it is written with.
pub fn format_zadd_command(key: &[u8], pairs: &[(Vec<u8>, String)]) -> (r: Option<String>)
    ensures
        pairs@.len() == 0 ==> r is None,
        pairs@.len() > 0 ==> (r matches Some(s) && s@ == command_line(
            word_zadd(),
            seq![quoted(key@)] + scored_member_words(pairs.deep_view()),
        )),
{
    if pairs.len() == 0 {
        return None;
    }
    let mut s = start_line(&['Z', 'A', 'D', 'D']);
    push_quoted_word(&mut s, key);
    let ghost p = pairs.deep_view();
    let ghost base = s@;
    let mut i: usize = 0;
    assert(p.take(0) =~= Seq::<(Seq<u8>, Seq<char>)>::empty());
    while i < pairs.len()
        invariant
            i <= pairs@.len(),
            p == pairs.deep_view(),
            s@ == base + spaced(scored_member_words(p.take(i as int))),
        decreases pairs@.len() - i,
    {
        let (m, score) = &pairs[i];
        assert(p[i as int] == (m@, score@));
        push_plain_word(&mut s, score.as_str());
        push_quoted_word(&mut s, m.as_slice());
        proof {
            let t = p.take(i + 1);
            assert(t.drop_last() =~= p.take(i as int));
            let w = scored_member_words(p.take(i as int));
            assert(scored_member_words(t) == w + seq![score@, quoted(m@)]);
            assert(w + seq![score@, quoted(m@)] =~= w.push(score@).push(quoted(m@)));
            lemma_spaced_push(w, score@);
            lemma_spaced_push(w.push(score@), quoted(m@));
        }
        i += 1;
        assert(s@ =~= base + spaced(scored_member_words(p.take(i as int))));
    }
    assert(p.take(i as int) =~= p);
    proof {
        lemma_spaced_concat(seq![quoted(key@)], scored_member_words(p));
        lemma_spaced_push(Seq::empty(), quoted(key@));
        assert(seq![quoted(key@)] =~= Seq::<Seq<char>>::empty().push(quoted(key@)));
        assert(s@ =~= command_line(word_zadd(), seq![quoted(key@)] + scored_member_words(p)));
    }
    Some(s)
}

/// `XADD "key" "id" "f1" "v1" ...`, fields in the order given.
pub fn format_xadd_command(key: &[u8], id: &[u8], fields: &[(Vec<u8>, Vec<u8>)]) -> (s: String)
    ensures
        s@ == command_line(
            word_xadd(),
            seq![quoted(key@), quoted(id@)] + quoted_pair_words(fields.deep_view()),
        ),
{
    let mut s = start_line(&['X', 'A', 'D', 'D']);
    push_quoted_word(&mut s, key);
    push_quoted_word(&mut s, id);
    push_pair_words(&mut s, fields);
    proof {
        let w1 = Seq::<Seq<char>>::empty().push(quoted(key@));
        let w2 = w1.push(quoted(id@));
        lemma_spaced_push(Seq::empty(), quoted(key@));
        lemma_spaced_push(w1, quoted(id@));
        assert(w2 =~= seq![quoted(key@), quoted(id@)]);
        lemma_spaced_concat(w2, quoted_pair_words(fields.deep_view()));
        assert(s@ =~= command_line(
            word_xadd(),
            seq![quoted(key@), quoted(id@)] + quoted_pair_words(fields.deep_view()),
        ));
    }
    s
}

} // verus!
