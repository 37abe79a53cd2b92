//! Character-level helpers shared by the formatters and parsers.
use vstd::prelude::*;

verus! {

/// Appends one character to a string (`String::push`).
#[verifier::external_body]
pub(crate) fn push_char(s: &mut String, c: char)
    ensures
        final(s)@ == old(s)@.push(c),
{
    s.push(c);
}

/// Appends the characters of `t` to `s`.
pub fn push_str(s: &mut String, t: &str)
    ensures
        final(s)@ == old(s)@ + t@,
{
    s.append(t);
}

/// Digit of a value below sixteen in lower-case hexadecimal.
pub open spec fn hex_digit(n: u8) -> char {
    if n < 10 {
        ((n + 48) as u8) as char
    } else {
        ((n + 87) as u8) as char
    }
}

/// Lower-case hexadecimal digit of a value below sixteen.
pub fn hex_digit_char(n: u8) -> (c: char)
    requires
        n < 16,
    ensures
        c == hex_digit(n),
{
    if n < 10 {
        (n + 48) as char
    } else {
        (n + 87) as char
    }
}

/// The `\xHH` escape of a byte, with two lower-case hexadecimal digits.
pub open spec fn hex_escape(b: u8) -> Seq<char> {
    seq!['\\', 'x', hex_digit(b / 16), hex_digit(b % 16)]
}

/// Control characters: the Unicode general category `Cc`, that is
/// U+0000..=U+001F and U+007F..=U+009F (what `char::is_control` tests).
pub open spec fn is_control_scalar(u: u32) -> bool {
    u <= 0x1f || (0x7f <= u && u <= 0x9f)
}

/// Whether a character is a control character (general category `Cc`).
pub fn is_control(c: char) -> (r: bool)
    ensures
        r == is_control_scalar(c as u32),
{
    let u = c as u32;
    u <= 0x1f || (0x7f <= u && u <= 0x9f)
}

/// ASCII lower-casing of one character; other characters are kept.
pub open spec fn ascii_lower(c: char) -> char {
    if 'A' <= c && c <= 'Z' {
        ((c as u32) + 32) as char
    } else {
        c
    }
}

/// ASCII lower-casing of a character sequence (`str::to_ascii_lowercase`).
pub open spec fn ascii_lower_seq(s: Seq<char>) -> Seq<char> {
    s.map_values(|c: char| ascii_lower(c))
}

/// Lower-cases one character in the ASCII range.
pub fn ascii_lower_char(c: char) -> (r: char)
    ensures
        r == ascii_lower(c),
{
    if 'A' <= c && c <= 'Z' {
        let u = (c as u32) + 32;
        proof {
            assert(u < 128);
        }
        ((u as u8) as char)
    } else {
        c
    }
}

} // verus!

verus! {

/// Decimal digit character of a value below ten.
pub open spec fn decimal_digit(d: nat) -> char {
    ((d + 48) as u8) as char
}

/// Decimal digits of a natural number, most significant first, without
/// leading zeros (a single `0` for zero).
pub open spec fn decimal_nat(n: nat) -> Seq<char>
    decreases n,
{
    if n < 10 {
        seq![decimal_digit(n)]
    } else {
        decimal_nat(n / 10) + seq![decimal_digit(n % 10)]
    }
}

/// Decimal text of an integer as `Display` writes it: a `-` before the
/// digits of its magnitude when it is negative.
pub open spec fn decimal_int(n: int) -> Seq<char> {
    if n < 0 {
        seq!['-'] + decimal_nat((-n) as nat)
    } else {
        decimal_nat(n as nat)
    }
}

/// Appends the decimal digits of `n`.
pub fn push_decimal_u64(s: &mut String, n: u64)
    ensures
        final(s)@ == old(s)@ + decimal_nat(n as nat),
    decreases n,
{
    if n >= 10 {
        push_decimal_u64(s, n / 10);
    }
    let d = (n % 10) as u8;
    push_char(s, (d + 48) as char);
    assert(s@ =~= old(s)@ + decimal_nat(n as nat));
}

/// Appends the decimal text of `n`.
pub fn push_decimal_i64(s: &mut String, n: i64)
    ensures
        final(s)@ == old(s)@ + decimal_int(n as int),
{
    if n < 0 {
        push_char(s, '-');
        let m: u64 = if n == i64::MIN {
            9223372036854775808u64
        } else {
            (-n) as u64
        };
        push_decimal_u64(s, m);
        assert(s@ =~= old(s)@ + decimal_int(n as int));
    } else {
        push_decimal_u64(s, n as u64);
    }
}

/// Decimal text of a signed integer.
pub fn i64_to_decimal(n: i64) -> (s: String)
    ensures
        s@ == decimal_int(n as int),
{
    let mut s = String::new();
    push_decimal_i64(&mut s, n);
    assert(s@ =~= decimal_int(n as int));
    s
}

/// Whether a character is an ASCII digit.
pub open spec fn is_digit(c: char) -> bool {
    '0' <= c && c <= '9'
}

/// Whether every character is an ASCII digit.
pub open spec fn all_digits(d: Seq<char>) -> bool {
    forall|i: int| 0 <= i < d.len() ==> is_digit(#[trigger] d[i])
}

/// The value of a digit character.
pub open spec fn digit_value(c: char) -> int {
    (c as u32) - 48
}

/// The value of decimal digits, most significant first.
pub open spec fn digits_value(d: Seq<char>) -> int
    decreases d.len(),
{
    if d.len() == 0 {
        0
    } else {
        digits_value(d.drop_last()) * 10 + digit_value(d.last())
    }
}

/// What `i64::from_str` reads: an optional `+` or `-`, then at least one
/// ASCII digit and nothing else, with a value that fits in `i64`.
pub open spec fn decimal_i64(t: Seq<char>) -> Option<i64> {
    let neg = t.len() > 0 && t[0] == '-';
    let d = if t.len() > 0 && (t[0] == '-' || t[0] == '+') {
        t.skip(1)
    } else {
        t
    };
    if d.len() == 0 || !all_digits(d) {
        None
    } else {
        let v = if neg {
            -digits_value(d)
        } else {
            digits_value(d)
        };
        if i64::MIN <= v <= i64::MAX {
            Some(v as i64)
        } else {
            None
        }
    }
}

proof fn lemma_digits_value_nonneg(d: Seq<char>)
    requires
        all_digits(d),
    ensures
        digits_value(d) >= 0,
    decreases d.len(),
{
    if d.len() > 0 {
        assert(is_digit(d[d.len() - 1]));
        lemma_digits_value_nonneg(d.drop_last());
    }
}

/// Reads a decimal `i64` (`str::parse::<i64>`).
pub fn parse_i64(text: &str) -> (r: Option<i64>)
    ensures
        r == decimal_i64(text@),
{
    let w = str_to_chars(text);
    let n = w.len();
    let neg = n > 0 && w[0] == '-';
    let start: usize = if n > 0 && (w[0] == '-' || w[0] == '+') {
        1
    } else {
        0
    };
    let ghost d = w@.skip(start as int);
    proof {
        if start == 0 {
            assert(d =~= w@);
        }
    }
    if start == n {
        return None;
    }
    let cap: u128 = 9223372036854775809;
    let mut acc: u128 = 0;
    let mut i: usize = start;
    assert(d.take(0) =~= Seq::<char>::empty());
    while i < n
        invariant
            start <= i <= n,
            n == w@.len(),
            d == w@.skip(start as int),
            w@ == text@,
            d == if w@.len() > 0 && (w@[0] == '-' || w@[0] == '+') {
                w@.skip(1)
            } else {
                w@
            },
            all_digits(d.take(i - start)),
            acc == if digits_value(d.take(i - start)) < cap {
                digits_value(d.take(i - start))
            } else {
                cap as int
            },
            cap == 9223372036854775809u128,
        decreases n - i,
    {
        let c = w[i];
        if !('0' <= c && c <= '9') {
            proof {
                assert(d[i - start] == c);
                assert(!is_digit(d[i - start]));
                assert(!all_digits(d));
            }
            return None;
        }
        let ghost k = i - start;
        proof {
            assert(d.take(k + 1).drop_last() =~= d.take(k));
            assert(d.take(k + 1).last() == c);
            lemma_digits_value_nonneg(d.take(k));
            assert(all_digits(d.take(k + 1))) by {
                assert forall|j: int| 0 <= j < k + 1 implies is_digit(#[trigger] d.take(k + 1)[j]) by {
                    if j < k {
                        assert(d.take(k + 1)[j] == d.take(k)[j]);
                    }
                }
            }
        }
        let dv = (c as u32 - 48) as u128;
        let next = acc * 10 + dv;
        acc = if next < cap {
            next
        } else {
            cap
        };
        i += 1;
    }
    assert(d.take(n - start) =~= d);
    proof {
        lemma_digits_value_nonneg(d);
    }
    if neg {
        if acc <= 9223372036854775808 {
            let v: i128 = -(acc as i128);
            assert(v == -digits_value(d));
            assert(i64::MIN <= v <= i64::MAX);
            Some(v as i64)
        } else {
            None
        }
    } else {
        if acc <= 9223372036854775807 {
            Some(acc as i64)
        } else {
            None
        }
    }
}

/// What `u16::from_str` reads: an optional `+`, then at least one ASCII
/// digit and nothing else, with a value below 65536.
pub open spec fn decimal_u16(t: Seq<char>) -> Option<u16> {
    let d = if t.len() > 0 && t[0] == '+' {
        t.skip(1)
    } else {
        t
    };
    if d.len() == 0 || !all_digits(d) {
        None
    } else if digits_value(d) <= 65535 {
        Some(digits_value(d) as u16)
    } else {
        None
    }
}

/// Reads a decimal `u16` (`str::parse::<u16>`).
pub fn parse_u16(text: &str) -> (r: Option<u16>)
    ensures
        r == decimal_u16(text@),
{
    let w = str_to_chars(text);
    let n = w.len();
    let start: usize = if n > 0 && w[0] == '+' {
        1
    } else {
        0
    };
    let ghost d = w@.skip(start as int);
    proof {
        if start == 0 {
            assert(d =~= w@);
        }
    }
    if start == n {
        return None;
    }
    let cap: u32 = 65536;
    let mut acc: u32 = 0;
    let mut i: usize = start;
    assert(d.take(0) =~= Seq::<char>::empty());
    while i < n
        invariant
            start <= i <= n,
            n == w@.len(),
            d == w@.skip(start as int),
            w@ == text@,
            d == if w@.len() > 0 && w@[0] == '+' {
                w@.skip(1)
            } else {
                w@
            },
            all_digits(d.take(i - start)),
            acc == if digits_value(d.take(i - start)) < cap {
                digits_value(d.take(i - start))
            } else {
                cap as int
            },
            cap == 65536u32,
        decreases n - i,
    {
        let c = w[i];
        if !('0' <= c && c <= '9') {
            proof {
                assert(d[i - start] == c);
                assert(!is_digit(d[i - start]));
                assert(!all_digits(d));
            }
            return None;
        }
        let ghost k = i - start;
        proof {
            assert(d.take(k + 1).drop_last() =~= d.take(k));
            assert(d.take(k + 1).last() == c);
            lemma_digits_value_nonneg(d.take(k));
            assert(all_digits(d.take(k + 1))) by {
                assert forall|j: int| 0 <= j < k + 1 implies is_digit(#[trigger] d.take(k + 1)[j]) by {
                    if j < k {
                        assert(d.take(k + 1)[j] == d.take(k)[j]);
                    }
                }
            }
        }
        let dv = c as u32 - 48;
        let next = acc * 10 + dv;
        acc = if next < cap {
            next
        } else {
            cap
        };
        i += 1;
    }
    assert(d.take(n - start) =~= d);
    proof {
        lemma_digits_value_nonneg(d);
    }
    if acc <= 65535 {
        Some(acc as u16)
    } else {
        None
    }
}

pub proof fn lemma_decimal_nat(n: nat)
    ensures
        decimal_nat(n).len() > 0,
        all_digits(decimal_nat(n)),
        digits_value(decimal_nat(n)) == n,
    decreases n,
{
    let d = decimal_nat(n);
    if n < 10 {
        assert(((n + 48) as u8) as char as u32 == n + 48);
        assert(d[0] == decimal_digit(n));
        assert(d.last() == d[0]);
        assert(d.drop_last() =~= Seq::<char>::empty());
        assert(digit_value(d.last()) == n);
        assert(digits_value(d.drop_last()) == 0);
        assert(digits_value(d) == digits_value(d.drop_last()) * 10 + digit_value(d.last()));
        assert(digits_value(d) == n);
    } else {
        lemma_decimal_nat(n / 10);
        let m = (n % 10) as nat;
        assert(((m + 48) as u8) as char as u32 == m + 48);
        assert(d.drop_last() =~= decimal_nat(n / 10));
        assert(d.last() == decimal_digit(m));
        assert(digit_value(d.last()) == m);
        assert((n / 10) * 10 + m == n);
        assert(digits_value(d) == digits_value(d.drop_last()) * 10 + digit_value(d.last()));
        assert(digits_value(d) == n);
        assert forall|j: int| 0 <= j < d.len() implies is_digit(#[trigger] d[j]) by {
            if j < d.len() - 1 {
                assert(d[j] == decimal_nat(n / 10)[j]);
            }
        }
    }
}

/// The decimal text of an integer holds only digits and `-`.
pub proof fn lemma_decimal_int_chars(n: int)
    ensures
        forall|i: int| 0 <= i < decimal_int(n).len() ==> #[trigger] decimal_int(n)[i] == '-' || is_digit(
            decimal_int(n)[i],
        ),
{
    if n < 0 {
        lemma_decimal_nat((-n) as nat);
        let t = decimal_int(n);
        assert forall|i: int| 0 < i < t.len() implies is_digit(#[trigger] t[i]) by {
            assert(t[i] == decimal_nat((-n) as nat)[i - 1]);
        }
    } else {
        lemma_decimal_nat(n as nat);
    }
}

/// The decimal text of an `i64` reads back as that number.
pub proof fn lemma_decimal_i64_roundtrip(n: i64)
    ensures
        decimal_i64(decimal_int(n as int)) == Some(n),
{
    if n < 0 {
        lemma_decimal_nat((-n) as nat);
        let t = decimal_int(n as int);
        assert(t.skip(1) =~= decimal_nat((-n) as nat));
    } else {
        lemma_decimal_nat(n as nat);
        let t = decimal_int(n as int);
        assert(is_digit(t[0]));
    }
}

/// Decimal text of an unsigned integer.
pub fn u64_to_decimal(n: u64) -> (s: String)
    ensures
        s@ == decimal_nat(n as nat),
{
    let mut s = String::new();
    push_decimal_u64(&mut s, n);
    assert(s@ =~= decimal_nat(n as nat));
    s
}

} // verus!

verus! {

/// Appends the given characters.
pub fn push_chars(s: &mut String, w: &[char])
    ensures
        final(s)@ == old(s)@ + w@,
{
    let mut i: usize = 0;
    while i < w.len()
        invariant
            i <= w@.len(),
            s@ == old(s)@ + w@.take(i as int),
        decreases w@.len() - i,
    {
        push_char(s, w[i]);
        i += 1;
        assert(s@ =~= old(s)@ + w@.take(i as int));
    }
    assert(w@.take(i as int) =~= w@);
}

/// The text without its last character when that character is `\n`.
pub open spec fn strip_newline(t: Seq<char>) -> Seq<char> {
    if t.len() > 0 && t.last() == '\n' {
        t.drop_last()
    } else {
        t
    }
}

/// Removes one trailing `\n`, if there is one.
pub fn strip_trailing_newline(s: String) -> (r: String)
    ensures
        r@ == strip_newline(s@),
{
    let n = s.as_str().unicode_len();
    if n > 0 && s.as_str().get_char(n - 1) == '\n' {
        let t = s.as_str().substring_char(0, n - 1);
        let r = t.to_owned();
        assert(r@ =~= s@.drop_last());
        r
    } else {
        s
    }
}

/// ASCII case-insensitive equality of two texts (`str::eq_ignore_ascii_case`).
pub open spec fn eq_ignore_ascii_case(a: Seq<char>, b: Seq<char>) -> bool {
    a.len() == b.len() && forall|i: int| 0 <= i < a.len() ==> ascii_lower(#[trigger] a[i])
        == ascii_lower(b[i])
}

/// Compares two texts ignoring ASCII case.
pub fn str_eq_ignore_ascii_case(a: &str, b: &str) -> (r: bool)
    ensures
        r == eq_ignore_ascii_case(a@, b@),
{
    let n = a.unicode_len();
    if n != b.unicode_len() {
        return false;
    }
    let mut i: usize = 0;
    while i < n
        invariant
            n == a@.len(),
            n == b@.len(),
            i <= n,
            forall|k: int| 0 <= k < i ==> ascii_lower(#[trigger] a@[k]) == ascii_lower(b@[k]),
        decreases n - i,
    {
        if ascii_lower_char(a.get_char(i)) != ascii_lower_char(b.get_char(i)) {
            return false;
        }
        i += 1;
    }
    true
}

/// The text of a byte string with every ill-formed UTF-8 sequence replaced
/// by U+FFFD (`String::from_utf8_lossy`).
pub uninterp spec fn utf8_lossy(bytes: Seq<u8>) -> Seq<char>;

/// The text of some bytes read as UTF-8: their decoding when they are
/// well-formed, else what `String::from_utf8_lossy` makes of them.
pub open spec fn text_of_bytes(bytes: Seq<u8>) -> Seq<char> {
    if vstd::utf8::valid_utf8(bytes) {
        vstd::utf8::decode_utf8(bytes)
    } else {
        utf8_lossy(bytes)
    }
}

/// `String::from_utf8_lossy`, owned. Its result is named `utf8_lossy`; for
/// bytes that are valid UTF-8 it is their decoding. How ill-formed sequences
/// are replaced is not stated here.
#[verifier::external_body]
pub(crate) fn bytes_to_string_lossy(bytes: &[u8]) -> (s: String)
    ensures
        s@ == utf8_lossy(bytes@),
        vstd::utf8::valid_utf8(bytes@) ==> s@ == vstd::utf8::decode_utf8(bytes@),
{
    String::from_utf8_lossy(bytes).into_owned()
}

} // verus!

verus! {

/// The characters of a text.
pub fn str_to_chars(s: &str) -> (v: Vec<char>)
    ensures
        v@ == s@,
{
    let n = s.unicode_len();
    let mut v: Vec<char> = Vec::new();
    let mut i: usize = 0;
    while i < n
        invariant
            n == s@.len(),
            i <= n,
            v@ == s@.take(i as int),
        decreases n - i,
    {
        v.push(s.get_char(i));
        i += 1;
        assert(v@ =~= s@.take(i as int));
    }
    assert(s@.take(n as int) =~= s@);
    v
}

/// A string holding the given characters.
pub fn chars_to_string(w: &[char]) -> (s: String)
    ensures
        s@ == w@,
{
    let mut s = String::new();
    push_chars(&mut s, w);
    assert(s@ =~= w@);
    s
}

/// The characters `w[from..to]`.
pub fn chars_slice(w: &[char], from: usize, to: usize) -> (v: Vec<char>)
    requires
        from <= to <= w@.len(),
    ensures
        v@ == w@.subrange(from as int, to as int),
{
    let mut v: Vec<char> = Vec::new();
    let mut i = from;
    while i < to
        invariant
            from <= i <= to,
            to <= w@.len(),
            v@ == w@.subrange(from as int, i as int),
        decreases to - i,
    {
        v.push(w[i]);
        i += 1;
        assert(v@ =~= w@.subrange(from as int, i as int));
    }
    v
}

/// Characters with the Unicode `White_Space` property (what
/// `char::is_whitespace` tests).
pub open spec fn is_whitespace(c: char) -> bool {
    let u = c as u32;
    (0x09 <= u && u <= 0x0d) || u == 0x20 || u == 0x85 || u == 0xa0 || u == 0x1680 || (0x2000
        <= u && u <= 0x200a) || u == 0x2028 || u == 0x2029 || u == 0x202f || u == 0x205f || u
        == 0x3000
}

pub fn is_whitespace_char(c: char) -> (r: bool)
    ensures
        r == is_whitespace(c),
{
    let u = c as u32;
    (0x09 <= u && u <= 0x0d) || u == 0x20 || u == 0x85 || u == 0xa0 || u == 0x1680 || (0x2000
        <= u && u <= 0x200a) || u == 0x2028 || u == 0x2029 || u == 0x202f || u == 0x205f || u
        == 0x3000
}

pub open spec fn trim_start(s: Seq<char>) -> Seq<char>
    decreases s.len(),
{
    if s.len() > 0 && is_whitespace(s[0]) {
        trim_start(s.drop_first())
    } else {
        s
    }
}

pub open spec fn trim_end(s: Seq<char>) -> Seq<char>
    decreases s.len(),
{
    if s.len() > 0 && is_whitespace(s.last()) {
        trim_end(s.drop_last())
    } else {
        s
    }
}

/// The text without leading and trailing whitespace (`str::trim`).
pub open spec fn trim(s: Seq<char>) -> Seq<char> {
    trim_end(trim_start(s))
}

/// The text without any leading `c` (`str::trim_start_matches`).
pub open spec fn trim_start_char(s: Seq<char>, c: char) -> Seq<char>
    decreases s.len(),
{
    if s.len() > 0 && s[0] == c {
        trim_start_char(s.drop_first(), c)
    } else {
        s
    }
}

pub open spec fn starts_with(s: Seq<char>, p: Seq<char>) -> bool {
    p.len() <= s.len() && s.take(p.len() as int) == p
}

proof fn lemma_trim_start_skip(s: Seq<char>, i: int)
    requires
        0 <= i <= s.len(),
        forall|k: int| 0 <= k < i ==> is_whitespace(#[trigger] s[k]),
    ensures
        trim_start(s) == trim_start(s.skip(i)),
    decreases i,
{
    if i > 0 {
        assert(s.drop_first().skip(i - 1) =~= s.skip(i));
        lemma_trim_start_skip(s.drop_first(), i - 1);
    } else {
        assert(s.skip(0) =~= s);
    }
}

proof fn lemma_trim_end_take(s: Seq<char>, j: int)
    requires
        0 <= j <= s.len(),
        forall|k: int| j <= k < s.len() ==> is_whitespace(#[trigger] s[k]),
    ensures
        trim_end(s) == trim_end(s.take(j)),
    decreases s.len() - j,
{
    if j < s.len() {
        assert(s.drop_last().take(j) =~= s.take(j));
        lemma_trim_end_take(s.drop_last(), j);
    } else {
        assert(s.take(j) =~= s);
    }
}

proof fn lemma_trim_start_char_skip(s: Seq<char>, c: char, i: int)
    requires
        0 <= i <= s.len(),
        forall|k: int| 0 <= k < i ==> #[trigger] s[k] == c,
    ensures
        trim_start_char(s, c) == trim_start_char(s.skip(i), c),
    decreases i,
{
    if i > 0 {
        assert(s.drop_first().skip(i - 1) =~= s.skip(i));
        lemma_trim_start_char_skip(s.drop_first(), c, i - 1);
    } else {
        assert(s.skip(0) =~= s);
    }
}

/// The characters without leading and trailing whitespace.
pub fn trim_chars(w: &[char]) -> (v: Vec<char>)
    ensures
        v@ == trim(w@),
{
    let n = w.len();
    let mut i: usize = 0;
    while i < n && is_whitespace_char(w[i])
        invariant
            i <= n,
            n == w@.len(),
            forall|k: int| 0 <= k < i ==> is_whitespace(#[trigger] w@[k]),
        decreases n - i,
    {
        i += 1;
    }
    proof {
        lemma_trim_start_skip(w@, i as int);
        if i < n {
            assert(w@.skip(i as int)[0] == w@[i as int]);
        }
        assert(trim_start(w@.skip(i as int)) == w@.skip(i as int));
    }
    let mut j: usize = n;
    while j > i && is_whitespace_char(w[j - 1])
        invariant
            i <= j <= n,
            n == w@.len(),
            forall|k: int| j <= k < n ==> is_whitespace(#[trigger] w@[k]),
        decreases j,
    {
        j -= 1;
    }
    let ghost t = w@.skip(i as int);
    proof {
        assert forall|k: int| j - i <= k < t.len() implies is_whitespace(#[trigger] t[k]) by {
            assert(t[k] == w@[i + k]);
        }
        lemma_trim_end_take(t, j - i);
        let u = t.take(j - i);
        if j > i {
            assert(u.last() == w@[j - 1]);
        }
        assert(trim_end(u) == u);
        assert(u =~= w@.subrange(i as int, j as int));
    }
    chars_slice(w, i, j)
}

/// The characters without any leading `c`.
pub fn trim_start_matches_char(w: &[char], c: char) -> (v: Vec<char>)
    ensures
        v@ == trim_start_char(w@, c),
{
    let n = w.len();
    let mut i: usize = 0;
    while i < n && w[i] == c
        invariant
            i <= n,
            n == w@.len(),
            forall|k: int| 0 <= k < i ==> #[trigger] w@[k] == c,
        decreases n - i,
    {
        i += 1;
    }
    proof {
        lemma_trim_start_char_skip(w@, c, i as int);
        if i < n {
            assert(w@.skip(i as int)[0] == w@[i as int]);
        }
        assert(trim_start_char(w@.skip(i as int), c) == w@.skip(i as int));
        assert(w@.skip(i as int) =~= w@.subrange(i as int, n as int));
    }
    chars_slice(w, i, n)
}

/// Whether `w` starts with `p`.
pub fn chars_start_with(w: &[char], p: &[char]) -> (r: bool)
    ensures
        r == starts_with(w@, p@),
{
    if p.len() > w.len() {
        return false;
    }
    let mut i: usize = 0;
    while i < p.len()
        invariant
            i <= p@.len(),
            p@.len() <= w@.len(),
            forall|k: int| 0 <= k < i ==> #[trigger] w@[k] == p@[k],
        decreases p@.len() - i,
    {
        if w[i] != p[i] {
            assert(w@.take(p@.len() as int)[i as int] == w@[i as int]);
            return false;
        }
        i += 1;
    }
    assert(w@.take(p@.len() as int) =~= p@);
    true
}

/// Whether two character sequences are equal.
pub fn chars_eq(a: &[char], b: &[char]) -> (r: bool)
    ensures
        r == (a@ == b@),
{
    if a.len() != b.len() {
        return false;
    }
    let r = chars_start_with(a, b);
    proof {
        assert(a@.take(b@.len() as int) =~= a@);
    }
    r
}

/// ASCII lower-casing of a character sequence.
pub fn ascii_lower_chars(w: &[char]) -> (v: Vec<char>)
    ensures
        v@ == ascii_lower_seq(w@),
{
    let mut v: Vec<char> = Vec::new();
    let mut i: usize = 0;
    while i < w.len()
        invariant
            i <= w@.len(),
            v@ == ascii_lower_seq(w@.take(i as int)),
        decreases w@.len() - i,
    {
        v.push(ascii_lower_char(w[i]));
        i += 1;
        assert(v@ =~= ascii_lower_seq(w@.take(i as int)));
    }
    assert(w@.take(i as int) =~= w@);
    v
}

} // verus!

verus! {

/// Whether the characters equal the text.
pub fn chars_eq_str(w: &[char], s: &str) -> (r: bool)
    ensures
        r == (w@ == s@),
{
    let t = str_to_chars(s);
    chars_eq(w, t.as_slice())
}

/// Whether the characters start with the text.
pub fn chars_start_with_str(w: &[char], s: &str) -> (r: bool)
    ensures
        r == starts_with(w@, s@),
{
    let t = str_to_chars(s);
    chars_start_with(w, t.as_slice())
}

/// A string of the characters `w[from..]`.
pub fn string_from(w: &[char], from: usize) -> (s: String)
    requires
        from <= w@.len(),
    ensures
        s@ == w@.skip(from as int),
{
    let v = chars_slice(w, from, w.len());
    assert(v@ =~= w@.skip(from as int));
    chars_to_string(v.as_slice())
}

} // verus!

verus! {

proof fn lemma_trim_start_shape(s: Seq<char>)
    ensures
        trim_start(s).len() > 0 ==> !is_whitespace(trim_start(s)[0]),
        exists|i: int| 0 <= i <= s.len() && trim_start(s) == #[trigger] s.skip(i),
    decreases s.len(),
{
    if s.len() > 0 && is_whitespace(s[0]) {
        lemma_trim_start_shape(s.drop_first());
        let i = choose|i: int| 0 <= i <= s.drop_first().len() && trim_start(s.drop_first()) == #[trigger] s.drop_first().skip(i);
        assert(s.drop_first().skip(i) =~= s.skip(i + 1));
    } else {
        assert(s.skip(0) =~= s);
    }
}

proof fn lemma_trim_end_shape(s: Seq<char>)
    ensures
        trim_end(s).len() > 0 ==> !is_whitespace(trim_end(s).last()),
        trim_end(s).len() > 0 ==> trim_end(s)[0] == s[0],
        trim_start(trim_end(s)).len() == 0 || trim_start(trim_end(s)) == trim_end(s) || true,
    decreases s.len(),
{
    if s.len() > 0 && is_whitespace(s.last()) {
        lemma_trim_end_shape(s.drop_last());
    }
}

/// Trimming a trimmed text changes nothing.
pub proof fn lemma_trim_idempotent(s: Seq<char>)
    ensures
        trim(trim(s)) == trim(s),
{
    let a = trim_start(s);
    let b = trim_end(a);
    lemma_trim_start_shape(s);
    lemma_trim_end_shape(a);
    if b.len() > 0 {
        assert(b[0] == a[0]);
        assert(trim_start(b) == b);
        assert(trim_end(b) == b);
    } else {
        assert(trim_start(b) == b);
        assert(trim_end(b) == b);
    }
}

/// Appends a string to a list of strings.
pub fn push_string(v: &mut Vec<String>, x: String)
    ensures
        final(v).deep_view() == old(v).deep_view().push(x@),
{
    let ghost before = v@;
    let ghost xv = x@;
    v.push(x);
    proof {
        assert(v@ == before.push(x));
        assert forall|k: int| 0 <= k < v@.len() implies #[trigger] v.deep_view()[k] == before.map_values(
            |t: String| t@,
        ).push(xv)[k] by {
            if k < before.len() {
                assert(v@[k] == before[k]);
            }
        }
        assert(v.deep_view() =~= before.map_values(|t: String| t@).push(xv));
        assert(before.map_values(|t: String| t@) =~= old(v).deep_view());
    }
}

/// The fields of a text separated by `sep` (`str::split`), the current field
/// being `cur`.
pub open spec fn char_fields_from(s: Seq<char>, sep: char, cur: Seq<char>) -> Seq<Seq<char>>
    decreases s.len(),
{
    if s.len() == 0 {
        seq![cur]
    } else if s[0] == sep {
        seq![cur] + char_fields_from(s.drop_first(), sep, Seq::empty())
    } else {
        char_fields_from(s.drop_first(), sep, cur.push(s[0]))
    }
}

/// The fields of a text separated by `sep`; there is always at least one.
pub open spec fn char_fields(s: Seq<char>, sep: char) -> Seq<Seq<char>> {
    char_fields_from(s, sep, Seq::empty())
}

/// There is always at least one field.
pub proof fn lemma_char_fields_nonempty(s: Seq<char>, sep: char, cur: Seq<char>)
    ensures
        char_fields_from(s, sep, cur).len() >= 1,
    decreases s.len(),
{
    if s.len() > 0 {
        if s[0] == sep {
            lemma_char_fields_nonempty(s.drop_first(), sep, Seq::empty());
        } else {
            lemma_char_fields_nonempty(s.drop_first(), sep, cur.push(s[0]));
        }
    }
}

/// Splits a text at each `sep`.
pub fn split_char(text: &str, sep: char) -> (r: Vec<String>)
    ensures
        r.deep_view() == char_fields(text@, sep),
        r@.len() >= 1,
{
    proof {
        lemma_char_fields_nonempty(text@, sep, Seq::empty());
    }
    let w = str_to_chars(text);
    let mut fields: Vec<String> = Vec::new();
    let mut cur: Vec<char> = Vec::new();
    let mut i: usize = 0;
    assert(w@.skip(0) =~= w@);
    while i < w.len()
        invariant
            i <= w@.len(),
            w@ == text@,
            fields.deep_view() + char_fields_from(w@.skip(i as int), sep, cur@) == char_fields(text@, sep),
        decreases w@.len() - i,
    {
        let ghost rest = w@.skip(i as int);
        proof {
            assert(rest[0] == w@[i as int]);
            assert(rest.drop_first() =~= w@.skip(i + 1));
        }
        if w[i] == sep {
            let ghost before = fields.deep_view();
            let ghost c = cur@;
            push_string(&mut fields, chars_to_string(cur.as_slice()));
            cur = Vec::new();
            assert(before + (seq![c] + char_fields_from(w@.skip(i + 1), sep, Seq::empty()))
                =~= fields.deep_view() + char_fields_from(w@.skip(i + 1), sep, cur@));
        } else {
            cur.push(w[i]);
        }
        i += 1;
    }
    assert(w@.skip(i as int) =~= Seq::<char>::empty());
    push_string(&mut fields, chars_to_string(cur.as_slice()));
    fields
}

/// The words of a text separated by whitespace (`str::split_whitespace`),
/// the current word being `cur`.
pub open spec fn words_from(s: Seq<char>, cur: Seq<char>) -> Seq<Seq<char>>
    decreases s.len(),
{
    if s.len() == 0 {
        if cur.len() > 0 {
            seq![cur]
        } else {
            Seq::empty()
        }
    } else if is_whitespace(s[0]) {
        (if cur.len() > 0 {
            seq![cur]
        } else {
            Seq::empty()
        }) + words_from(s.drop_first(), Seq::empty())
    } else {
        words_from(s.drop_first(), cur.push(s[0]))
    }
}

/// The words of a text separated by whitespace; none is empty.
pub open spec fn words(s: Seq<char>) -> Seq<Seq<char>> {
    words_from(s, Seq::empty())
}

/// Splits a text into its whitespace-separated words.
pub fn split_whitespace(text: &str) -> (r: Vec<String>)
    ensures
        r.deep_view() == words(text@),
{
    let w = str_to_chars(text);
    let mut out: Vec<String> = Vec::new();
    let mut cur: Vec<char> = Vec::new();
    let mut i: usize = 0;
    assert(w@.skip(0) =~= w@);
    assert(out.deep_view() + words_from(w@, Seq::empty()) =~= words(text@));
    while i < w.len()
        invariant
            i <= w@.len(),
            w@ == text@,
            out.deep_view() + words_from(w@.skip(i as int), cur@) == words(text@),
        decreases w@.len() - i,
    {
        let ghost rest = w@.skip(i as int);
        proof {
            assert(rest[0] == w@[i as int]);
            assert(rest.drop_first() =~= w@.skip(i + 1));
        }
        if is_whitespace_char(w[i]) {
            let ghost before = out.deep_view();
            let ghost c = cur@;
            if cur.len() > 0 {
                push_string(&mut out, chars_to_string(cur.as_slice()));
                assert(before + (seq![c] + words_from(w@.skip(i + 1), Seq::empty())) =~= out.deep_view()
                    + words_from(w@.skip(i + 1), Seq::empty()));
            } else {
                assert(before + (Seq::<Seq<char>>::empty() + words_from(w@.skip(i + 1), Seq::empty()))
                    =~= out.deep_view() + words_from(w@.skip(i + 1), Seq::empty()));
            }
            cur = Vec::new();
        } else {
            cur.push(w[i]);
        }
        i += 1;
    }
    assert(w@.skip(i as int) =~= Seq::<char>::empty());
    if cur.len() > 0 {
        let ghost before = out.deep_view();
        push_string(&mut out, chars_to_string(cur.as_slice()));
    } else {
        assert(out.deep_view() + Seq::<Seq<char>>::empty() =~= out.deep_view());
    }
    out
}

/// Whether `p` occurs in `s`.
pub open spec fn contains_seq(s: Seq<char>, p: Seq<char>) -> bool {
    exists|i: int| 0 <= i && i + p.len() <= s.len() && #[trigger] s.subrange(i, i + p.len()) == p
}

/// Whether the text contains `p` (`str::contains`).
pub fn str_contains(text: &str, p: &str) -> (r: bool)
    ensures
        r == contains_seq(text@, p@),
{
    let w = str_to_chars(text);
    let q = str_to_chars(p);
    let n = w.len();
    let m = q.len();
    if m > n {
        return false;
    }
    let mut i: usize = 0;
    while i <= n - m
        invariant
            n == w@.len(),
            m == q@.len(),
            m <= n,
            i <= n - m + 1,
            w@ == text@,
            q@ == p@,
            forall|k: int| 0 <= k < i ==> #[trigger] w@.subrange(k, k + m) != q@,
        decreases n - i,
    {
        let mut j: usize = 0;
        while j < m && w[i + j] == q[j]
            invariant
                j <= m,
                i + m <= n,
                n == w@.len(),
                m == q@.len(),
                forall|t: int| 0 <= t < j ==> w@[i + t] == q@[t],
            decreases m - j,
        {
            j += 1;
        }
        if j == m {
            assert(w@.subrange(i as int, i + m) =~= q@);
            return true;
        }
        assert(w@.subrange(i as int, i + m)[j as int] != q@[j as int]);
        i += 1;
    }
    proof {
        assert forall|k: int| 0 <= k && k + m <= n implies #[trigger] w@.subrange(k, k + m) != q@ by {
            assert(k < i);
        }
    }
    false
}

/// The text before the first `c`, or the whole text.
pub open spec fn until_char(s: Seq<char>, c: char) -> Seq<char> {
    char_fields(s, c)[0]
}

/// Words joined with single spaces.
pub open spec fn join_spaced(ws: Seq<Seq<char>>) -> Seq<char>
    decreases ws.len(),
{
    if ws.len() == 0 {
        Seq::empty()
    } else if ws.len() == 1 {
        ws[0]
    } else {
        join_spaced(ws.drop_last()) + seq![' '] + ws.last()
    }
}

/// The words from `from` on, joined with single spaces.
pub fn join_words_from(ws: &Vec<String>, from: usize) -> (r: String)
    requires
        from <= ws@.len(),
    ensures
        r@ == join_spaced(ws.deep_view().skip(from as int)),
{
    let ghost all = ws.deep_view().skip(from as int);
    let mut s = String::new();
    let mut i: usize = from;
    assert(all.take(0) =~= Seq::<Seq<char>>::empty());
    while i < ws.len()
        invariant
            from <= i <= ws@.len(),
            all == ws.deep_view().skip(from as int),
            s@ == join_spaced(all.take(i - from)),
        decreases ws@.len() - i,
    {
        proof {
            assert(all.take(i - from + 1).drop_last() =~= all.take(i - from));
            assert(all.take(i - from + 1).last() == ws@[i as int]@);
        }
        if i > from {
            push_char(&mut s, ' ');
        }
        push_str(&mut s, ws[i].as_str());
        i += 1;
        proof {
            if i == from + 1 {
                assert(all.take(1)[0] == all[0]);
            }
        }
        assert(s@ =~= join_spaced(all.take(i - from)));
    }
    assert(all.take(i - from) =~= all);
    s
}

/// The text with each `'` written as `'\''`.
pub open spec fn quote_escaped(s: Seq<char>) -> Seq<char>
    decreases s.len(),
{
    if s.len() == 0 {
        Seq::empty()
    } else {
        quote_escaped(s.drop_last()) + if s.last() == '\'' {
            seq!['\'', '\\', '\'', '\'']
        } else {
            seq![s.last()]
        }
    }
}

/// A text as one single-quoted shell word.
pub fn shell_escape(s: &str) -> (r: String)
    ensures
        r@ == seq!['\''] + quote_escaped(s@) + seq!['\''],
{
    let w = str_to_chars(s);
    let mut out = String::new();
    push_char(&mut out, '\'');
    let mut i: usize = 0;
    assert(w@.take(0) =~= Seq::<char>::empty());
    while i < w.len()
        invariant
            i <= w@.len(),
            w@ == s@,
            out@ == seq!['\''] + quote_escaped(w@.take(i as int)),
        decreases w@.len() - i,
    {
        proof {
            assert(w@.take(i + 1).drop_last() =~= w@.take(i as int));
            assert(w@.take(i + 1).last() == w@[i as int]);
        }
        if w[i] == '\'' {
            push_char(&mut out, '\'');
            push_char(&mut out, '\\');
            push_char(&mut out, '\'');
            push_char(&mut out, '\'');
        } else {
            push_char(&mut out, w[i]);
        }
        i += 1;
        assert(out@ =~= seq!['\''] + quote_escaped(w@.take(i as int)));
    }
    assert(w@.take(i as int) =~= w@);
    push_char(&mut out, '\'');
    out
}

} // verus!
