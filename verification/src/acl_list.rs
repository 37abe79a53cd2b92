//! Reading the lines of `ACL LIST` (`user <name> <rules...>`) into user
//! details.
use vstd::prelude::*;
use crate::cli_display::CliValue;
use crate::acl::{AclError, AclRule, RuleSpec, rules_view, rule_view, lemma_rules_view,
    rule_display_text, selector_text, acl_rule_to_string, acl_rules_to_selector_text};
use crate::text::{utf8_lossy, bytes_to_string_lossy, push_str, trim, starts_with, ascii_lower_seq, str_to_chars, trim_chars,
    trim_start_char, trim_start_matches_char, chars_eq_str, chars_start_with_str, string_from,
    chars_to_string, chars_slice, ascii_lower_chars, push_string, lemma_trim_idempotent};

verus! {

/// Whitespace as `u8::is_ascii_whitespace` sees it.
pub open spec fn is_list_space(c: char) -> bool {
    c == ' ' || c == '\t' || c == '\n' || c == '\x0C' || c == '\r'
}

fn is_list_space_char(c: char) -> (r: bool)
    ensures
        r == is_list_space(c),
{
    c == ' ' || c == '\t' || c == '\n' || c == '\x0C' || c == '\r'
}

/// The first position at or after `i` that holds no whitespace.
pub open spec fn skip_spaces(s: Seq<char>, i: int) -> int
    decreases s.len() - i,
{
    if i < s.len() && is_list_space(s[i]) {
        skip_spaces(s, i + 1)
    } else {
        i
    }
}

/// The first position at or after `i` that holds whitespace, or the end.
pub open spec fn word_end(s: Seq<char>, i: int) -> int
    decreases s.len() - i,
{
    if i < s.len() && !is_list_space(s[i]) {
        word_end(s, i + 1)
    } else {
        i
    }
}

/// Where a parenthesised group ends: scanning from `i` with `depth` groups
/// open, just after the `)` that closes the last one, or the end of the text.
pub open spec fn group_end(s: Seq<char>, i: int, depth: int) -> int
    decreases s.len() - i,
{
    if i >= s.len() {
        s.len() as int
    } else if s[i] == '(' {
        group_end(s, i + 1, depth + 1)
    } else if s[i] == ')' {
        if depth - 1 == 0 {
            i + 1
        } else {
            group_end(s, i + 1, depth - 1)
        }
    } else {
        group_end(s, i + 1, depth)
    }
}

/// The end of the token that starts at `j`: a whole `( ... )` group, or a
/// word.
pub open spec fn token_end(s: Seq<char>, j: int) -> int {
    if s[j] == '(' {
        group_end(s, j, 0)
    } else {
        word_end(s, j)
    }
}

/// The tokens of `s` from position `i` on.
pub open spec fn list_tokens_from(s: Seq<char>, i: int) -> Seq<Seq<char>>
    decreases s.len() - i,
{
    let j = skip_spaces(s, i);
    if j >= s.len() {
        Seq::empty()
    } else {
        let e = token_end(s, j);
        proof {
            lemma_skip_spaces(s, i);
            lemma_word_end(s, j);
            lemma_group_end(s, j, 0);
        }
        seq![s.subrange(j, e)] + list_tokens_from(s, e)
    }
}

/// The rule tokens of an `ACL LIST` line: words separated by ASCII
/// whitespace, where a selector `( ... )` is one token.
pub open spec fn list_tokens(s: Seq<char>) -> Seq<Seq<char>> {
    list_tokens_from(s, 0)
}

pub proof fn lemma_skip_spaces(s: Seq<char>, i: int)
    ensures
        skip_spaces(s, i) >= i,
        skip_spaces(s, i) < s.len() ==> !is_list_space(s[skip_spaces(s, i)]),
    decreases s.len() - i,
{
    if i < s.len() && is_list_space(s[i]) {
        lemma_skip_spaces(s, i + 1);
    }
}

pub proof fn lemma_word_end(s: Seq<char>, i: int)
    ensures
        word_end(s, i) >= i,
        i < s.len() && !is_list_space(s[i]) ==> word_end(s, i) > i,
        i <= s.len() ==> word_end(s, i) <= s.len(),
    decreases s.len() - i,
{
    if i < s.len() && !is_list_space(s[i]) {
        lemma_word_end(s, i + 1);
    }
}

pub proof fn lemma_group_end(s: Seq<char>, i: int, depth: int)
    ensures
        i < s.len() ==> i < group_end(s, i, depth) <= s.len(),
        i >= s.len() ==> group_end(s, i, depth) == s.len(),
    decreases s.len() - i,
{
    if i < s.len() {
        if s[i] == '(' {
            lemma_group_end(s, i + 1, depth + 1);
        } else if s[i] == ')' {
            if depth - 1 != 0 {
                lemma_group_end(s, i + 1, depth - 1);
            }
        } else {
            lemma_group_end(s, i + 1, depth);
        }
    }
}

proof fn lemma_token_end(s: Seq<char>, j: int)
    requires
        0 <= j < s.len(),
        !is_list_space(s[j]),
    ensures
        j < token_end(s, j) <= s.len(),
{
    lemma_group_end(s, j, 0);
    lemma_word_end_bound(s, j);
}

proof fn lemma_word_end_bound(s: Seq<char>, i: int)
    requires
        0 <= i <= s.len(),
    ensures
        i <= word_end(s, i) <= s.len(),
        i < s.len() && !is_list_space(s[i]) ==> word_end(s, i) > i,
    decreases s.len() - i,
{
    if i < s.len() && !is_list_space(s[i]) {
        lemma_word_end_bound(s, i + 1);
    }
}

/// Splits the rules of an `ACL LIST` line into tokens, keeping a selector
/// such as `(+set ~key)` whole.
pub fn tokenize_acl_list_rule_tokens(text: &str) -> (r: Vec<String>)
    ensures
        r.deep_view() == list_tokens(text@),
{
    let s = str_to_chars(text);
    let n = s.len();
    let ghost sv = s@;
    let mut tokens: Vec<String> = Vec::new();
    let mut i: usize = 0;
    assert(tokens.deep_view() + list_tokens_from(sv, 0) =~= list_tokens_from(sv, 0));
    while i < n
        invariant
            i <= n,
            n == s@.len(),
            sv == s@,
            sv == text@,
            tokens.deep_view() + list_tokens_from(sv, i as int) == list_tokens_from(sv, 0),
        decreases n - i,
    {
        let ghost i0 = i as int;
        while i < n && is_list_space_char(s[i])
            invariant
                i0 <= i <= n,
                n == s@.len(),
                sv == s@,
                skip_spaces(sv, i0) == skip_spaces(sv, i as int),
            decreases n - i,
        {
            i += 1;
        }
        assert(skip_spaces(sv, i as int) == i as int);
        if i < n {
            let start = i;
            proof {
                lemma_token_end(sv, start as int);
            }
            if s[i] == '(' {
                let mut depth: usize = 0;
                let mut closed = false;
                while i < n && !closed
                    invariant
                        start <= i <= n,
                        n == s@.len(),
                        sv == s@,
                        sv[start as int] == '(',
                        depth <= i - start,
                        i == start ==> depth == 0 && !closed,
                        i > start && !closed ==> depth >= 1,
                        closed ==> i == group_end(sv, start as int, 0),
                        !closed ==> group_end(sv, start as int, 0) == group_end(sv, i as int, depth as int),
                    decreases n - i,
                {
                    let c = s[i];
                    if c == '(' {
                        depth += 1;
                    }
                    if c == ')' {
                        depth -= 1;
                        if depth == 0 {
                            closed = true;
                        }
                    }
                    i += 1;
                }
            } else {
                while i < n && !is_list_space_char(s[i])
                    invariant
                        start <= i <= n,
                        n == s@.len(),
                        sv == s@,
                        word_end(sv, start as int) == word_end(sv, i as int),
                    decreases n - i,
                {
                    i += 1;
                }
            }
            assert(i as int == token_end(sv, start as int));
            let piece = chars_slice(s.as_slice(), start, i);
            let t = chars_to_string(piece.as_slice());
            let ghost before = tokens.deep_view();
            push_string(&mut tokens, t);
            assert(list_tokens_from(sv, i0) == seq![sv.subrange(start as int, i as int)]
                + list_tokens_from(sv, i as int));
            assert(before + list_tokens_from(sv, i0) =~= tokens.deep_view() + list_tokens_from(
                sv,
                i as int,
            ));
        } else {
            assert(list_tokens_from(sv, i0) =~= Seq::<Seq<char>>::empty());
        }
    }
    assert(list_tokens_from(sv, n as int) =~= Seq::<Seq<char>>::empty());
    assert(tokens.deep_view() + Seq::<Seq<char>>::empty() =~= tokens.deep_view());
    tokens
}

/// A key pattern as `ACL LIST` writes it: without the leading `~`;
/// `allkeys` and `*` (in any case) are written in lower case.
pub open spec fn list_key_pattern(token: Seq<char>) -> Seq<char> {
    let v = trim_start_char(trim(token), '~');
    let l = ascii_lower_seq(v);
    if l == "allkeys"@ {
        "allkeys"@
    } else if l == "*"@ {
        "*"@
    } else {
        v
    }
}

/// A channel pattern as `ACL LIST` writes it: without the leading `&`;
/// `allchannels` and `*` (in any case) are written in lower case.
pub open spec fn list_channel_pattern(token: Seq<char>) -> Seq<char> {
    let v = trim_start_char(trim(token), '&');
    let l = ascii_lower_seq(v);
    if l == "allchannels"@ {
        "allchannels"@
    } else if l == "*"@ {
        "*"@
    } else {
        v
    }
}

/// The rules of a selector token, without its parentheses and the
/// surrounding whitespace.
pub open spec fn selector_body(token: Seq<char>) -> Seq<char> {
    let t = trim(token);
    let inner = if t.len() >= 2 && t[0] == '(' && t.last() == ')' {
        t.subrange(1, t.len() - 1)
    } else {
        t
    };
    trim(inner)
}

/// A command or category rule: `+` or `-` followed by something.
pub open spec fn is_list_command_rule(token: Seq<char>) -> bool {
    token.len() > 1 && (token[0] == '+' || token[0] == '-')
}

/// A key rule: `~pattern`, or `allkeys`, `resetkeys` or `*` in any case.
pub open spec fn is_list_key_rule(token: Seq<char>) -> bool {
    let l = ascii_lower_seq(token);
    starts_with(token, "~"@) || l == "allkeys"@ || l == "resetkeys"@ || l == "*"@
}

/// A channel rule: `&pattern`, or `allchannels` or `resetchannels` in any
/// case.
pub open spec fn is_list_channel_rule(token: Seq<char>) -> bool {
    let l = ascii_lower_seq(token);
    starts_with(token, "&"@) || l == "allchannels"@ || l == "resetchannels"@
}

/// The key pattern of a key token.
pub fn list_key_to_pattern(token: &str) -> (r: String)
    ensures
        r@ == list_key_pattern(token@),
{
    let w = str_to_chars(token);
    let t = trim_chars(w.as_slice());
    let v = trim_start_matches_char(t.as_slice(), '~');
    let l = ascii_lower_chars(v.as_slice());
    if chars_eq_str(l.as_slice(), "allkeys") {
        chars_to_string(l.as_slice())
    } else if chars_eq_str(l.as_slice(), "*") {
        chars_to_string(l.as_slice())
    } else {
        chars_to_string(v.as_slice())
    }
}

/// The channel pattern of a channel token.
pub fn list_channel_to_pattern(token: &str) -> (r: String)
    ensures
        r@ == list_channel_pattern(token@),
{
    let w = str_to_chars(token);
    let t = trim_chars(w.as_slice());
    let v = trim_start_matches_char(t.as_slice(), '&');
    let l = ascii_lower_chars(v.as_slice());
    if chars_eq_str(l.as_slice(), "allchannels") {
        chars_to_string(l.as_slice())
    } else if chars_eq_str(l.as_slice(), "*") {
        chars_to_string(l.as_slice())
    } else {
        chars_to_string(v.as_slice())
    }
}

/// The text of a selector token.
pub fn selector_token_to_text(token: &str) -> (r: String)
    ensures
        r@ == selector_body(token@),
{
    let w = str_to_chars(token);
    let t = trim_chars(w.as_slice());
    let n = t.len();
    let inner = if n >= 2 && t[0] == '(' && t[n - 1] == ')' {
        chars_slice(t.as_slice(), 1, n - 1)
    } else {
        chars_slice(t.as_slice(), 0, n)
    };
    proof {
        assert(t@.subrange(0, n as int) =~= t@);
        if n >= 2 {
            assert(t@.last() == t@[n - 1]);
        }
    }
    let v = trim_chars(inner.as_slice());
    chars_to_string(v.as_slice())
}

/// Whether a token is a command or category rule.
pub fn is_acl_list_command_rule(token: &str) -> (r: bool)
    ensures
        r == is_list_command_rule(token@),
{
    let w = str_to_chars(token);
    w.len() > 1 && (w[0] == '+' || w[0] == '-')
}

/// Whether a token is a key rule.
pub fn is_acl_list_key_rule(token: &str) -> (r: bool)
    ensures
        r == is_list_key_rule(token@),
{
    let w = str_to_chars(token);
    let l = ascii_lower_chars(w.as_slice());
    chars_start_with_str(w.as_slice(), "~") || chars_eq_str(l.as_slice(), "allkeys")
        || chars_eq_str(l.as_slice(), "resetkeys") || chars_eq_str(l.as_slice(), "*")
}

/// Whether a token is a channel rule.
pub fn is_acl_list_channel_rule(token: &str) -> (r: bool)
    ensures
        r == is_list_channel_rule(token@),
{
    let w = str_to_chars(token);
    let l = ascii_lower_chars(w.as_slice());
    chars_start_with_str(w.as_slice(), "&") || chars_eq_str(l.as_slice(), "allchannels")
        || chars_eq_str(l.as_slice(), "resetchannels")
}

/// A Redis user as the ACL screens show it.
#[derive(Debug)]
pub struct AclUserDetail {
    pub username: String,
    pub enabled: bool,
    pub nopass: bool,
    /// Rules that are neither passwords, commands, keys, channels nor
    /// selectors, as text.
    pub flags: Vec<String>,
    pub password_hashes: Vec<String>,
    pub command_rules: Vec<String>,
    pub key_patterns: Vec<String>,
    pub channel_patterns: Vec<String>,
    /// One text per selector, without its parentheses.
    pub selectors: Vec<String>,
}

/// The contents of an [`AclUserDetail`] as character sequences.
pub struct UserSpec {
    pub username: Seq<char>,
    pub enabled: bool,
    pub nopass: bool,
    pub flags: Seq<Seq<char>>,
    pub password_hashes: Seq<Seq<char>>,
    pub command_rules: Seq<Seq<char>>,
    pub key_patterns: Seq<Seq<char>>,
    pub channel_patterns: Seq<Seq<char>>,
    pub selectors: Seq<Seq<char>>,
}

pub open spec fn detail_view(d: AclUserDetail) -> UserSpec {
    UserSpec {
        username: d.username@,
        enabled: d.enabled,
        nopass: d.nopass,
        flags: d.flags.deep_view(),
        password_hashes: d.password_hashes.deep_view(),
        command_rules: d.command_rules.deep_view(),
        key_patterns: d.key_patterns.deep_view(),
        channel_patterns: d.channel_patterns.deep_view(),
        selectors: d.selectors.deep_view(),
    }
}

/// A user with a name and nothing else.
pub open spec fn bare_user(name: Seq<char>) -> UserSpec {
    UserSpec {
        username: name,
        enabled: false,
        nopass: false,
        flags: Seq::empty(),
        password_hashes: Seq::empty(),
        command_rules: Seq::empty(),
        key_patterns: Seq::empty(),
        channel_patterns: Seq::empty(),
        selectors: Seq::empty(),
    }
}

/// What one rule token of an `ACL LIST` line adds to the user: `on` and
/// `off` set `enabled` (the last one wins) and are kept as flags, `nopass`
/// sets `nopass` and is kept as a flag, `#hash` is a password hash, a
/// `( ... )` token is a selector (kept when it is not empty), then command,
/// key and channel rules; anything else is a flag.
pub open spec fn list_step(u: UserSpec, t: Seq<char>) -> UserSpec {
    if t == "on"@ {
        UserSpec { enabled: true, flags: u.flags.push("on"@), ..u }
    } else if t == "off"@ {
        UserSpec { enabled: false, flags: u.flags.push("off"@), ..u }
    } else if t == "nopass"@ {
        UserSpec { nopass: true, flags: u.flags.push("nopass"@), ..u }
    } else if starts_with(t, "#"@) {
        UserSpec { password_hashes: u.password_hashes.push(t.skip(1)), ..u }
    } else if starts_with(t, "("@) {
        if selector_body(t).len() > 0 {
            UserSpec { selectors: u.selectors.push(selector_body(t)), ..u }
        } else {
            u
        }
    } else if is_list_command_rule(t) {
        UserSpec { command_rules: u.command_rules.push(t), ..u }
    } else if is_list_key_rule(t) {
        UserSpec { key_patterns: u.key_patterns.push(list_key_pattern(t)), ..u }
    } else if is_list_channel_rule(t) {
        UserSpec { channel_patterns: u.channel_patterns.push(list_channel_pattern(t)), ..u }
    } else {
        UserSpec { flags: u.flags.push(t), ..u }
    }
}

/// The user after its rule tokens, read from left to right.
pub open spec fn list_fold(u: UserSpec, tokens: Seq<Seq<char>>) -> UserSpec
    decreases tokens.len(),
{
    if tokens.len() == 0 {
        u
    } else {
        list_step(list_fold(u, tokens.drop_last()), tokens.last())
    }
}

/// The user an `ACL LIST` line describes: after trimming, the line must start
/// with `user `; the first token after it is the name, the others are its
/// rules.
pub open spec fn list_line_user(line: Seq<char>) -> Result<UserSpec, AclError> {
    let t = trim(line);
    if !starts_with(t, "user "@) {
        Err(AclError::InvalidListLine)
    } else {
        let tokens = list_tokens(t.skip(5));
        if tokens.len() == 0 {
            Err(AclError::MissingUsername)
        } else {
            Ok(list_fold(bare_user(tokens[0]), tokens.drop_first()))
        }
    }
}

fn literal_string(t: &str) -> (r: String)
    ensures
        r@ == t@,
{
    let mut s = String::new();
    push_str(&mut s, t);
    assert(s@ =~= t@);
    s
}

fn apply_list_token(d: AclUserDetail, token: &String) -> (r: AclUserDetail)
    ensures
        detail_view(r) == list_step(detail_view(d), token@),
{
    let mut d = d;
    let w = str_to_chars(token.as_str());
    proof {
        reveal_strlit("#");
        reveal_strlit("(");
    }
    if chars_eq_str(w.as_slice(), "on") {
        d.enabled = true;
        push_string(&mut d.flags, literal_string("on"));
    } else if chars_eq_str(w.as_slice(), "off") {
        d.enabled = false;
        push_string(&mut d.flags, literal_string("off"));
    } else if chars_eq_str(w.as_slice(), "nopass") {
        d.nopass = true;
        push_string(&mut d.flags, literal_string("nopass"));
    } else if chars_start_with_str(w.as_slice(), "#") {
        push_string(&mut d.password_hashes, string_from(w.as_slice(), 1));
    } else if chars_start_with_str(w.as_slice(), "(") {
        let text = selector_token_to_text(token.as_str());
        if text.as_str().unicode_len() > 0 {
            push_string(&mut d.selectors, text);
        }
    } else if is_acl_list_command_rule(token.as_str()) {
        push_string(&mut d.command_rules, token.clone());
    } else if is_acl_list_key_rule(token.as_str()) {
        push_string(&mut d.key_patterns, list_key_to_pattern(token.as_str()));
    } else if is_acl_list_channel_rule(token.as_str()) {
        push_string(&mut d.channel_patterns, list_channel_to_pattern(token.as_str()));
    } else {
        push_string(&mut d.flags, token.clone());
    }
    d
}

/// Reads one `ACL LIST` line (`user <name> <rules...>`).
pub fn parse_acl_list_line(line: &str) -> (r: Result<AclUserDetail, AclError>)
    ensures
        match list_line_user(line@) {
            Ok(u) => r matches Ok(d) && detail_view(d) == u,
            Err(e) => r matches Err(x) && x == e,
        },
{
    let w = str_to_chars(line);
    let t = trim_chars(w.as_slice());
    proof {
        reveal_strlit("user ");
    }
    if !chars_start_with_str(t.as_slice(), "user ") {
        return Err(AclError::InvalidListLine);
    }
    let rest = string_from(t.as_slice(), 5);
    let tokens = tokenize_acl_list_rule_tokens(rest.as_str());
    let ghost tv = tokens.deep_view();
    if tokens.len() == 0 {
        return Err(AclError::MissingUsername);
    }
    let mut d = AclUserDetail {
        username: tokens[0].clone(),
        enabled: false,
        nopass: false,
        flags: Vec::new(),
        password_hashes: Vec::new(),
        command_rules: Vec::new(),
        key_patterns: Vec::new(),
        channel_patterns: Vec::new(),
        selectors: Vec::new(),
    };
    let ghost u0 = bare_user(tv[0]);
    proof {
        assert(tokens@[0].deep_view() == tokens@[0]@);
        assert(d.flags.deep_view() =~= Seq::<Seq<char>>::empty());
        assert(d.password_hashes.deep_view() =~= Seq::<Seq<char>>::empty());
        assert(d.command_rules.deep_view() =~= Seq::<Seq<char>>::empty());
        assert(d.key_patterns.deep_view() =~= Seq::<Seq<char>>::empty());
        assert(d.channel_patterns.deep_view() =~= Seq::<Seq<char>>::empty());
        assert(d.selectors.deep_view() =~= Seq::<Seq<char>>::empty());
        assert(detail_view(d) == u0);
        assert(tv.drop_first().take(0) =~= Seq::<Seq<char>>::empty());
    }
    let mut i: usize = 1;
    while i < tokens.len()
        invariant
            1 <= i <= tokens@.len(),
            tv == tokens.deep_view(),
            detail_view(d) == list_fold(u0, tv.drop_first().take(i - 1)),
        decreases tokens@.len() - i,
    {
        let ghost prev = tv.drop_first().take(i - 1);
        d = apply_list_token(d, &tokens[i]);
        proof {
            let next = tv.drop_first().take(i as int);
            assert(next.drop_last() =~= prev);
            assert(next.last() == tv[i as int]);
            assert(tokens@[i as int].deep_view() == tokens@[i as int]@);
        }
        i += 1;
    }
    assert(tv.drop_first().take(i - 1) =~= tv.drop_first());
    Ok(d)
}

/// Whether `a` comes before `b` in the order of `str`: lexicographic, by
/// code point.
pub open spec fn text_lt(a: Seq<char>, b: Seq<char>) -> bool
    decreases a.len(),
{
    if b.len() == 0 {
        false
    } else if a.len() == 0 {
        true
    } else if a[0] < b[0] {
        true
    } else if a[0] > b[0] {
        false
    } else {
        text_lt(a.drop_first(), b.drop_first())
    }
}

/// Whether `a` comes before `b`, by code point.
pub fn str_lt(a: &str, b: &str) -> (r: bool)
    ensures
        r == text_lt(a@, b@),
{
    let x = str_to_chars(a);
    let y = str_to_chars(b);
    let mut i: usize = 0;
    assert(x@.skip(0) =~= x@);
    assert(y@.skip(0) =~= y@);
    while i < x.len() && i < y.len() && x[i] == y[i]
        invariant
            i <= x@.len(),
            i <= y@.len(),
            text_lt(a@, b@) == text_lt(x@.skip(i as int), y@.skip(i as int)),
            x@ == a@,
            y@ == b@,
        decreases x@.len() - i,
    {
        proof {
            let xs = x@.skip(i as int);
            let ys = y@.skip(i as int);
            assert(xs[0] == x@[i as int]);
            assert(ys[0] == y@[i as int]);
            assert(xs.drop_first() =~= x@.skip(i + 1));
            assert(ys.drop_first() =~= y@.skip(i + 1));
        }
        i += 1;
    }
    proof {
        let xs = x@.skip(i as int);
        let ys = y@.skip(i as int);
        if i < x.len() {
            assert(xs[0] == x@[i as int]);
        }
        if i < y.len() {
            assert(ys[0] == y@[i as int]);
        }
    }
    if i >= y.len() {
        false
    } else if i >= x.len() {
        true
    } else {
        x[i] < y[i]
    }
}

/// `s` with `x` put after every element whose name does not come after
/// `x`'s, scanning from the end: for a list sorted by name, the place a
/// stable sort gives it.
pub open spec fn insert_by_name(s: Seq<UserSpec>, x: UserSpec) -> Seq<UserSpec>
    decreases s.len(),
{
    if s.len() == 0 {
        seq![x]
    } else if text_lt(x.username, s.last().username) {
        insert_by_name(s.drop_last(), x).push(s.last())
    } else {
        s.push(x)
    }
}

/// The users sorted by name; users with the same name keep their order.
pub open spec fn sort_by_name(s: Seq<UserSpec>) -> Seq<UserSpec>
    decreases s.len(),
{
    if s.len() == 0 {
        Seq::empty()
    } else {
        insert_by_name(sort_by_name(s.drop_last()), s.last())
    }
}

proof fn lemma_lt_irreflexive(a: Seq<char>)
    ensures
        !text_lt(a, a),
    decreases a.len(),
{
    if a.len() > 0 {
        lemma_lt_irreflexive(a.drop_first());
    }
}

proof fn lemma_lt_transitive(a: Seq<char>, b: Seq<char>, c: Seq<char>)
    requires
        text_lt(a, b),
        text_lt(b, c),
    ensures
        text_lt(a, c),
    decreases a.len(),
{
    if a.len() > 0 && b.len() > 0 && c.len() > 0 && a[0] == b[0] && b[0] == c[0] {
        lemma_lt_transitive(a.drop_first(), b.drop_first(), c.drop_first());
    }
}

proof fn lemma_lt_total(a: Seq<char>, b: Seq<char>)
    requires
        !text_lt(a, b),
        !text_lt(b, a),
    ensures
        a == b,
    decreases a.len(),
{
    if a.len() > 0 && b.len() > 0 {
        lemma_lt_total(a.drop_first(), b.drop_first());
        assert(a =~= seq![a[0]] + a.drop_first());
        assert(b =~= seq![b[0]] + b.drop_first());
    } else {
        assert(a.len() == 0 && b.len() == 0);
        assert(a =~= b);
    }
}

/// `a` does not come after `b`, and `b` does not come after `c`: then `a`
/// does not come after `c`.
proof fn lemma_not_after_transitive(a: Seq<char>, b: Seq<char>, c: Seq<char>)
    requires
        !text_lt(b, a),
        !text_lt(c, b),
    ensures
        !text_lt(c, a),
{
    if text_lt(c, a) {
        if text_lt(b, c) {
            lemma_lt_transitive(b, c, a);
        } else {
            lemma_lt_total(b, c);
        }
    }
}

/// Whether the users are in the order of their names.
pub open spec fn name_sorted(s: Seq<UserSpec>) -> bool {
    forall|i: int, j: int| 0 <= i < j < s.len() ==> !text_lt(#[trigger] s[j].username, #[trigger] s[i].username)
}

proof fn lemma_insert_sorted(s: Seq<UserSpec>, x: UserSpec)
    requires
        name_sorted(s),
    ensures
        name_sorted(insert_by_name(s, x)),
        insert_by_name(s, x).to_multiset() == s.to_multiset().insert(x),
    decreases s.len(),
{
    broadcast use vstd::seq_lib::group_to_multiset_ensures;

    if s.len() == 0 {
        assert(seq![x] =~= Seq::<UserSpec>::empty().push(x));
        assert(s =~= Seq::<UserSpec>::empty());
    } else {
        let last = s.last();
        let rest = s.drop_last();
        assert(s =~= rest.push(last));
        assert(name_sorted(rest)) by {
            assert forall|i: int, j: int| 0 <= i < j < rest.len() implies !text_lt(
                #[trigger] rest[j].username,
                #[trigger] rest[i].username,
            ) by {
                assert(rest[i] == s[i] && rest[j] == s[j]);
            }
        }
        if text_lt(x.username, last.username) {
            lemma_insert_sorted(rest, x);
            let t = insert_by_name(rest, x);
            let r = t.push(last);
            assert forall|k: int| 0 <= k < t.len() implies !text_lt(last.username, #[trigger] t[k].username) by {
                assert(t.contains(t[k]));
                assert(t.to_multiset().count(t[k]) > 0);
                if t[k] == x {
                    if text_lt(last.username, x.username) {
                        lemma_lt_transitive(x.username, last.username, x.username);
                        lemma_lt_irreflexive(x.username);
                    }
                } else {
                    assert(rest.to_multiset().count(t[k]) > 0);
                    assert(rest.contains(t[k]));
                    let m = choose|m: int| 0 <= m < rest.len() && rest[m] == t[k];
                    assert(s[m] == rest[m]);
                    assert(s[s.len() - 1] == last);
                }
            }
            assert forall|i: int, j: int| 0 <= i < j < r.len() implies !text_lt(
                #[trigger] r[j].username,
                #[trigger] r[i].username,
            ) by {
                if j < t.len() {
                    assert(r[i] == t[i] && r[j] == t[j]);
                } else {
                    assert(r[j] == last);
                    assert(r[i] == t[i]);
                }
            }
        } else {
            let r = s.push(x);
            assert forall|i: int, j: int| 0 <= i < j < r.len() implies !text_lt(
                #[trigger] r[j].username,
                #[trigger] r[i].username,
            ) by {
                if j < s.len() {
                    assert(r[i] == s[i] && r[j] == s[j]);
                } else {
                    assert(r[j] == x);
                    assert(r[i] == s[i]);
                    if i < s.len() - 1 {
                        assert(!text_lt(s[s.len() - 1].username, s[i].username));
                        lemma_not_after_transitive(s[i].username, last.username, x.username);
                    }
                }
            }
        }
    }
}

/// `ACL LIST` users come out sorted by name (by code point, as `str`
/// orders them), and they are the users that were read, neither more nor
/// fewer.
pub proof fn law_list_users_sorted(us: Seq<UserSpec>)
    ensures
        name_sorted(sort_by_name(us)),
        sort_by_name(us).to_multiset() == us.to_multiset(),
    decreases us.len(),
{
    broadcast use vstd::seq_lib::group_to_multiset_ensures;

    if us.len() == 0 {
        assert(sort_by_name(us) =~= Seq::<UserSpec>::empty());
        assert(us =~= Seq::<UserSpec>::empty());
    } else {
        law_list_users_sorted(us.drop_last());
        lemma_insert_sorted(sort_by_name(us.drop_last()), us.last());
        assert(us =~= us.drop_last().push(us.last()));
    }
}

/// `s` with `x` put after every text that does not come after it.
pub open spec fn insert_text(s: Seq<Seq<char>>, x: Seq<char>) -> Seq<Seq<char>>
    decreases s.len(),
{
    if s.len() == 0 {
        seq![x]
    } else if text_lt(x, s.last()) {
        insert_text(s.drop_last(), x).push(s.last())
    } else {
        s.push(x)
    }
}

/// The texts in `str` order.
pub open spec fn sort_texts_spec(s: Seq<Seq<char>>) -> Seq<Seq<char>>
    decreases s.len(),
{
    if s.len() == 0 {
        Seq::empty()
    } else {
        insert_text(sort_texts_spec(s.drop_last()), s.last())
    }
}

/// Whether the texts are in `str` order.
pub open spec fn texts_sorted(s: Seq<Seq<char>>) -> bool {
    forall|i: int, j: int| 0 <= i < j < s.len() ==> !text_lt(#[trigger] s[j], #[trigger] s[i])
}

proof fn lemma_insert_text_sorted(s: Seq<Seq<char>>, x: Seq<char>)
    requires
        texts_sorted(s),
    ensures
        texts_sorted(insert_text(s, x)),
        insert_text(s, x).to_multiset() == s.to_multiset().insert(x),
    decreases s.len(),
{
    broadcast use vstd::seq_lib::group_to_multiset_ensures;

    if s.len() == 0 {
        assert(seq![x] =~= Seq::<Seq<char>>::empty().push(x));
        assert(s =~= Seq::<Seq<char>>::empty());
    } else {
        let last = s.last();
        let rest = s.drop_last();
        assert(s =~= rest.push(last));
        assert(texts_sorted(rest)) by {
            assert forall|i: int, j: int| 0 <= i < j < rest.len() implies !text_lt(
                #[trigger] rest[j],
                #[trigger] rest[i],
            ) by {
                assert(rest[i] == s[i] && rest[j] == s[j]);
            }
        }
        if text_lt(x, last) {
            lemma_insert_text_sorted(rest, x);
            let t = insert_text(rest, x);
            let r = t.push(last);
            assert forall|k: int| 0 <= k < t.len() implies !text_lt(last, #[trigger] t[k]) by {
                assert(t.contains(t[k]));
                assert(t.to_multiset().count(t[k]) > 0);
                if t[k] == x {
                    if text_lt(last, x) {
                        lemma_lt_transitive(x, last, x);
                        lemma_lt_irreflexive(x);
                    }
                } else {
                    assert(rest.to_multiset().count(t[k]) > 0);
                    assert(rest.contains(t[k]));
                    let m = choose|m: int| 0 <= m < rest.len() && rest[m] == t[k];
                    assert(s[m] == rest[m]);
                    assert(s[s.len() - 1] == last);
                }
            }
            assert forall|i: int, j: int| 0 <= i < j < r.len() implies !text_lt(#[trigger] r[j], #[trigger] r[i]) by {
                if j < t.len() {
                    assert(r[i] == t[i] && r[j] == t[j]);
                } else {
                    assert(r[j] == last);
                    assert(r[i] == t[i]);
                }
            }
        } else {
            let r = s.push(x);
            assert forall|i: int, j: int| 0 <= i < j < r.len() implies !text_lt(#[trigger] r[j], #[trigger] r[i]) by {
                if j < s.len() {
                    assert(r[i] == s[i] && r[j] == s[j]);
                } else {
                    assert(r[j] == x);
                    assert(r[i] == s[i]);
                    if i < s.len() - 1 {
                        assert(!text_lt(s[s.len() - 1], s[i]));
                        lemma_not_after_transitive(s[i], last, x);
                    }
                }
            }
        }
    }
}

/// ACL categories come out in `str` order, and they are the ones that were
/// read, neither more nor fewer.
pub proof fn law_sorted_texts(s: Seq<Seq<char>>)
    ensures
        texts_sorted(sort_texts_spec(s)),
        sort_texts_spec(s).to_multiset() == s.to_multiset(),
    decreases s.len(),
{
    broadcast use vstd::seq_lib::group_to_multiset_ensures;

    if s.len() == 0 {
        assert(sort_texts_spec(s) =~= Seq::<Seq<char>>::empty());
        assert(s =~= Seq::<Seq<char>>::empty());
    } else {
        law_sorted_texts(s.drop_last());
        lemma_insert_text_sorted(sort_texts_spec(s.drop_last()), s.last());
        assert(s =~= s.drop_last().push(s.last()));
    }
}

proof fn lemma_insert_text_at(s: Seq<Seq<char>>, x: Seq<char>, k: int)
    requires
        0 <= k <= s.len(),
        forall|j: int| k <= j < s.len() ==> text_lt(x, #[trigger] s[j]),
        k == 0 || !text_lt(x, s[k - 1]),
    ensures
        insert_text(s, x) == s.insert(k, x),
    decreases s.len(),
{
    if s.len() == 0 {
        assert(s.insert(k, x) =~= seq![x]);
    } else if k == s.len() {
        assert(s.insert(k, x) =~= s.push(x));
    } else {
        assert(text_lt(x, s.last()));
        lemma_insert_text_at(s.drop_last(), x, k);
        assert(s.drop_last().insert(k, x).push(s.last()) =~= s.insert(k, x));
    }
}

/// The names of `ACL CAT` in `str` order (`slice::sort`).
pub fn sort_texts(v: Vec<String>) -> (r: Vec<String>)
    ensures
        r.deep_view() == sort_texts_spec(v.deep_view()),
{
    let ghost all = v.deep_view();
    let mut v = v;
    let mut out: Vec<String> = Vec::new();
    let n = v.len();
    assert(v@.skip(0) =~= v@);
    assert(all.take(0) =~= Seq::<Seq<char>>::empty());
    assert(out.deep_view() =~= Seq::<Seq<char>>::empty());
    let mut i: usize = 0;
    while v.len() > 0
        invariant
            i + v@.len() == n,
            n == all.len(),
            v.deep_view() == all.skip(i as int),
            out.deep_view() == sort_texts_spec(all.take(i as int)),
        decreases v@.len(),
    {
        let ghost old_dv = v.deep_view();
        let ghost old_v = v@;
        let x = v.remove(0);
        proof {
            assert(v@ == old_v.remove(0));
            assert(x == old_v[0]);
            assert(x@ == old_dv[0]);
            assert forall|j: int| 0 <= j < v@.len() implies #[trigger] v.deep_view()[j] == all.skip(i + 1)[j] by {
                assert(v@[j] == old_v[j + 1]);
                assert(old_dv[j + 1] == all.skip(i as int)[j + 1]);
            }
            assert(v.deep_view() =~= all.skip(i + 1));
            assert(all.take(i + 1).drop_last() =~= all.take(i as int));
            assert(all.take(i + 1).last() == all[i as int]);
            assert(old_dv[0] == all[i as int]);
        }
        let ghost sv = out.deep_view();
        let ghost xv = x@;
        let mut k: usize = out.len();
        while k > 0 && str_lt(x.as_str(), out[k - 1].as_str())
            invariant
                k <= out@.len(),
                sv == out.deep_view(),
                xv == x@,
                forall|j: int| k <= j < sv.len() ==> text_lt(xv, #[trigger] sv[j]),
            decreases k,
        {
            k -= 1;
        }
        proof {
            lemma_insert_text_at(sv, xv, k as int);
        }
        let ghost before = out@;
        out.insert(k, x);
        proof {
            assert(out@ == before.insert(k as int, x));
            assert(out.deep_view() =~= sv.insert(k as int, xv)) by {
                assert forall|j: int| 0 <= j < out@.len() implies #[trigger] out.deep_view()[j] == sv.insert(k as int, xv)[j] by {
                    if j < k {
                        assert(out@[j] == before[j]);
                    } else if j > k {
                        assert(out@[j] == before[j - 1]);
                    }
                }
            }
        }
        i += 1;
    }
    assert(all.take(n as int) =~= all);
    out
}

/// The users of the `ACL LIST` lines that start with `user ` once trimmed,
/// in order; the first such line that cannot be read gives the error.
pub open spec fn listed_users(lines: Seq<Seq<char>>) -> Result<Seq<UserSpec>, AclError>
    decreases lines.len(),
{
    if lines.len() == 0 {
        Ok(Seq::empty())
    } else {
        match listed_users(lines.drop_last()) {
            Err(e) => Err(e),
            Ok(us) => {
                let t = trim(lines.last());
                if t.len() == 0 || !starts_with(t, "user "@) {
                    Ok(us)
                } else {
                    match list_line_user(t) {
                        Err(e) => Err(e),
                        Ok(u) => Ok(us.push(u)),
                    }
                }
            },
        }
    }
}

pub open spec fn users_view(s: Seq<AclUserDetail>) -> Seq<UserSpec> {
    s.map_values(|d: AclUserDetail| detail_view(d))
}

proof fn lemma_insert_at(s: Seq<UserSpec>, x: UserSpec, k: int)
    requires
        0 <= k <= s.len(),
        forall|j: int| k <= j < s.len() ==> text_lt(x.username, #[trigger] s[j].username),
        k == 0 || !text_lt(x.username, s[k - 1].username),
    ensures
        insert_by_name(s, x) == s.insert(k, x),
    decreases s.len(),
{
    if s.len() == 0 {
        assert(s.insert(k, x) =~= seq![x]);
    } else if k == s.len() {
        assert(s.insert(k, x) =~= s.push(x));
    } else {
        assert(text_lt(x.username, s.last().username));
        lemma_insert_at(s.drop_last(), x, k);
        assert(s.drop_last().insert(k, x).push(s.last()) =~= s.insert(k, x));
    }
}

proof fn lemma_listed_error_stays(lines: Seq<Seq<char>>, n: int)
    requires
        0 <= n <= lines.len(),
        listed_users(lines.take(n)) is Err,
    ensures
        listed_users(lines) == listed_users(lines.take(n)),
    decreases lines.len() - n,
{
    if n < lines.len() {
        assert(lines.take(n + 1).drop_last() =~= lines.take(n));
        lemma_listed_error_stays(lines, n + 1);
    } else {
        assert(lines.take(n) =~= lines);
    }
}

fn insert_user(sorted: &mut Vec<AclUserDetail>, d: AclUserDetail)
    ensures
        users_view(final(sorted)@) == insert_by_name(users_view(old(sorted)@), detail_view(d)),
{
    let ghost before = sorted@;
    let ghost sv = users_view(before);
    let ghost dv = detail_view(d);
    let mut k: usize = sorted.len();
    while k > 0 && str_lt(d.username.as_str(), sorted[k - 1].username.as_str())
        invariant
            k <= sorted@.len(),
            sorted@ == before,
            sv == users_view(before),
            dv == detail_view(d),
            forall|j: int| k <= j < sv.len() ==> text_lt(dv.username, #[trigger] sv[j].username),
        decreases k,
    {
        k -= 1;
    }
    proof {
        lemma_insert_at(sv, dv, k as int);
    }
    sorted.insert(k, d);
    assert(users_view(sorted@) =~= sv.insert(k as int, dv));
}

/// The users of the `ACL LIST` reply, sorted by name.
pub fn acl_list_users_from_lines(lines: &Vec<String>) -> (r: Result<Vec<AclUserDetail>, AclError>)
    ensures
        match listed_users(lines.deep_view()) {
            Ok(us) => r matches Ok(v) && users_view(v@) == sort_by_name(us),
            Err(e) => r matches Err(x) && x == e,
        },
{
    let ghost lv = lines.deep_view();
    let mut sorted: Vec<AclUserDetail> = Vec::new();
    let mut i: usize = 0;
    assert(lv.take(0) =~= Seq::<Seq<char>>::empty());
    assert(users_view(sorted@) =~= Seq::<UserSpec>::empty());
    while i < lines.len()
        invariant
            i <= lines@.len(),
            lv == lines.deep_view(),
            listed_users(lv.take(i as int)) matches Ok(us) && users_view(sorted@) == sort_by_name(us),
        decreases lines@.len() - i,
    {
        let ghost prev = listed_users(lv.take(i as int));
        proof {
            assert(lv.take(i + 1).drop_last() =~= lv.take(i as int));
            assert(lv.take(i + 1).last() == lines@[i as int]@);
            reveal_strlit("user ");
        }
        let w = str_to_chars(lines[i].as_str());
        let t = trim_chars(w.as_slice());
        if t.len() > 0 && chars_start_with_str(t.as_slice(), "user ") {
            let ts = chars_to_string(t.as_slice());
            match parse_acl_list_line(ts.as_str()) {
                Ok(d) => {
                    let ghost us = prev->Ok_0;
                    let ghost dv = detail_view(d);
                    insert_user(&mut sorted, d);
                    assert(us.push(dv).drop_last() =~= us);
                },
                Err(e) => {
                    proof {
                        lemma_listed_error_stays(lv, i as int + 1);
                    }
                    return Err(e);
                },
            }
        }
        i += 1;
    }
    assert(lv.take(i as int) =~= lv);
    Ok(sorted)
}

/// The rules `ACL GETUSER` reports for a user, or for one of its selectors.
#[derive(Debug)]
pub struct AclInfoRules {
    pub flags: Vec<AclRule>,
    pub passwords: Vec<AclRule>,
    pub commands: Vec<AclRule>,
    pub keys: Vec<AclRule>,
    pub channels: Vec<AclRule>,
}

/// The display texts of rules.
pub open spec fn display_texts(rules: Seq<RuleSpec>) -> Seq<Seq<char>> {
    Seq::new(rules.len(), |k: int| rule_display_text(rules[k]))
}

/// Whether one of the rules is `on`.
pub open spec fn has_on(rules: Seq<RuleSpec>) -> bool {
    exists|k: int| 0 <= k < rules.len() && rules[k] is On
}

/// Whether one of the rules is `nopass`.
pub open spec fn has_nopass(rules: Seq<RuleSpec>) -> bool {
    exists|k: int| 0 <= k < rules.len() && rules[k] is NoPass
}

/// The user `ACL GETUSER` describes: enabled when a flag is `on`, without
/// password when a flag is `nopass`; each rule is shown by its display text.
pub open spec fn info_user(username: Seq<char>, info: AclInfoRules, selectors: Seq<Seq<char>>) -> UserSpec {
    UserSpec {
        username: username,
        enabled: has_on(rules_view(info.flags@)),
        nopass: has_nopass(rules_view(info.flags@)),
        flags: display_texts(rules_view(info.flags@)),
        password_hashes: display_texts(rules_view(info.passwords@)),
        command_rules: display_texts(rules_view(info.commands@)),
        key_patterns: display_texts(rules_view(info.keys@)),
        channel_patterns: display_texts(rules_view(info.channels@)),
        selectors: selectors,
    }
}

fn rules_to_strings(rules: &Vec<AclRule>) -> (r: Vec<String>)
    ensures
        r.deep_view() == display_texts(rules_view(rules@)),
{
    proof {
        lemma_rules_view(rules@);
    }
    let ghost rv = rules_view(rules@);
    let mut out: Vec<String> = Vec::new();
    let mut i: usize = 0;
    assert(out.deep_view() =~= display_texts(rv).take(0));
    while i < rules.len()
        invariant
            i <= rules@.len(),
            rv == rules_view(rules@),
            rv.len() == rules@.len(),
            forall|k: int| 0 <= k < rules@.len() ==> #[trigger] rv[k] == rule_view(rules@[k]),
            out.deep_view() == display_texts(rv).take(i as int),
        decreases rules@.len() - i,
    {
        let t = acl_rule_to_string(&rules[i]);
        push_string(&mut out, t);
        i += 1;
        assert(out.deep_view() =~= display_texts(rv).take(i as int));
    }
    assert(display_texts(rv).take(i as int) =~= display_texts(rv));
    out
}

fn flag_presence(rules: &Vec<AclRule>) -> (r: (bool, bool))
    ensures
        r.0 == has_on(rules_view(rules@)),
        r.1 == has_nopass(rules_view(rules@)),
{
    proof {
        lemma_rules_view(rules@);
    }
    let ghost rv = rules_view(rules@);
    let mut on = false;
    let mut nopass = false;
    let mut i: usize = 0;
    while i < rules.len()
        invariant
            i <= rules@.len(),
            rv == rules_view(rules@),
            rv.len() == rules@.len(),
            forall|k: int| 0 <= k < rules@.len() ==> #[trigger] rv[k] == rule_view(rules@[k]),
            on == exists|k: int| 0 <= k < i && rv[k] is On,
            nopass == exists|k: int| 0 <= k < i && rv[k] is NoPass,
        decreases rules@.len() - i,
    {
        let ghost k0 = i as int;
        match &rules[i] {
            AclRule::On => {
                on = true;
            },
            AclRule::NoPass => {
                nopass = true;
            },
            _ => {},
        }
        assert(rv[k0] == rule_view(rules@[k0]));
        i += 1;
    }
    (on, nopass)
}

/// The user detail of an `ACL GETUSER` reply, with its selectors already
/// read.
pub fn acl_user_detail_from_info(username: &str, info: &AclInfoRules, selectors: Vec<String>) -> (r:
    AclUserDetail)
    ensures
        detail_view(r) == info_user(username@, *info, selectors.deep_view()),
{
    let (enabled, nopass) = flag_presence(&info.flags);
    let mut name = String::new();
    push_str(&mut name, username);
    assert(name@ =~= username@);
    AclUserDetail {
        username: name,
        enabled,
        nopass,
        flags: rules_to_strings(&info.flags),
        password_hashes: rules_to_strings(&info.passwords),
        command_rules: rules_to_strings(&info.commands),
        key_patterns: rules_to_strings(&info.keys),
        channel_patterns: rules_to_strings(&info.channels),
        selectors,
    }
}

proof fn lemma_rules_view_concat(a: Seq<AclRule>, b: Seq<AclRule>)
    ensures
        rules_view(a + b) == rules_view(a) + rules_view(b),
{
    lemma_rules_view(a);
    lemma_rules_view(b);
    lemma_rules_view(a + b);
    assert(rules_view(a + b) =~= rules_view(a) + rules_view(b));
}

/// The rules of a selector that `ACL GETUSER` reports: its flags, commands,
/// keys and channels, in that order.
pub open spec fn selector_info_rules(info: AclInfoRules) -> Seq<RuleSpec> {
    rules_view(info.flags@) + rules_view(info.commands@) + rules_view(info.keys@) + rules_view(
        info.channels@,
    )
}

/// The text of one selector of an `ACL GETUSER` reply; empty when the reply
/// could not be read as rules.
pub fn selector_item_to_text(info: Option<AclInfoRules>) -> (r: String)
    ensures
        r@ == selector_item_text(info),
{
    match info {
        None => {
            let s = String::new();
            s
        },
        Some(x) => {
            let AclInfoRules { flags, passwords: _, commands, keys, channels } = x;
            let mut rules = flags;
            let mut commands = commands;
            let mut keys = keys;
            let mut channels = channels;
            let ghost f = rules@;
            let ghost c = commands@;
            let ghost k = keys@;
            let ghost h = channels@;
            rules.append(&mut commands);
            rules.append(&mut keys);
            rules.append(&mut channels);
            proof {
                lemma_rules_view_concat(f, c);
                lemma_rules_view_concat(f + c, k);
                lemma_rules_view_concat(f + c + k, h);
                assert(rules@ == f + c + k + h);
                lemma_rules_view(rules@);
            }
            acl_rules_to_selector_text(rules.as_slice())
        },
    }
}

/// The text of one selector item: empty when it could not be read as rules.
pub open spec fn selector_item_text(info: Option<AclInfoRules>) -> Seq<char> {
    match info {
        None => Seq::empty(),
        Some(i) => selector_text(selector_info_rules(i), selector_info_rules(i).len() as int),
    }
}

/// The texts that are not empty, in order.
pub open spec fn nonempty_texts(ts: Seq<Seq<char>>) -> Seq<Seq<char>>
    decreases ts.len(),
{
    if ts.len() == 0 {
        Seq::empty()
    } else if ts.last().len() > 0 {
        nonempty_texts(ts.drop_last()).push(ts.last())
    } else {
        nonempty_texts(ts.drop_last())
    }
}

/// The texts of the selectors of an `ACL GETUSER` reply; empty texts are
/// left out.
pub fn selector_texts(items: Vec<Option<AclInfoRules>>) -> (r: Vec<String>)
    ensures
        r.deep_view() == nonempty_texts(Seq::new(items@.len(), |k: int| selector_item_text(items@[k]))),
{
    let ghost all = items@;
    let ghost texts = Seq::new(all.len(), |k: int| selector_item_text(all[k]));
    let mut items = items;
    let mut out: Vec<String> = Vec::new();
    let mut done: usize = 0;
    let n = items.len();
    assert(nonempty_texts(texts.take(0)) =~= Seq::<Seq<char>>::empty());
    assert(all.skip(0) =~= all);
    while done < n
        invariant
            done <= n,
            n == all.len(),
            items@ == all.skip(done as int),
            texts == Seq::new(all.len(), |k: int| selector_item_text(all[k])),
            out.deep_view() == nonempty_texts(texts.take(done as int)),
        decreases n - done,
    {
        let item = items.remove(0);
        proof {
            assert(item == all[done as int]);
            assert(items@ =~= all.skip(done + 1));
        }
        let t = selector_item_to_text(item);
        if t.as_str().unicode_len() > 0 {
            push_string(&mut out, t);
        }
        done += 1;
        proof {
            assert(texts.take(done as int).drop_last() =~= texts.take(done - 1));
            assert(texts.take(done as int).last() == texts[done - 1]);
        }
    }
    assert(texts.take(n as int) =~= texts);
    out
}

/// A text without one pair of surrounding double quotes.
pub open spec fn unquote(s: Seq<char>) -> Seq<char> {
    if s.len() >= 2 && s[0] == '"' && s.last() == '"' {
        s.subrange(1, s.len() - 1)
    } else {
        s
    }
}

/// The field name an `ACL GETUSER` key stands for: a bulk string (read as
/// UTF-8, trimmed, without surrounding quotes) or a simple string (trimmed).
pub open spec fn getuser_name(v: CliValue) -> Option<Seq<char>> {
    match v {
        CliValue::BulkString(b) => Some(unquote(trim(utf8_lossy(b@)))),
        CliValue::SimpleString(s) => Some(trim(s@)),
        _ => None,
    }
}

/// The value of the first pair whose key is named `key`.
pub open spec fn pair_lookup(pairs: Seq<(CliValue, CliValue)>, key: Seq<char>) -> Option<CliValue>
    decreases pairs.len(),
{
    if pairs.len() == 0 {
        None
    } else if getuser_name(pairs[0].0) == Some(key) {
        Some(pairs[0].1)
    } else {
        pair_lookup(pairs.drop_first(), key)
    }
}

/// The value after the first key named `key`, reading the items as
/// alternating keys and values.
pub open spec fn chunk_lookup(items: Seq<CliValue>, key: Seq<char>) -> Option<CliValue>
    decreases items.len(),
{
    if items.len() < 2 {
        None
    } else if getuser_name(items[0]) == Some(key) {
        Some(items[1])
    } else {
        chunk_lookup(items.skip(2), key)
    }
}

/// A field of an `ACL GETUSER` reply: a map, or an array or set of even
/// length read as alternating keys and values.
pub open spec fn getuser_field(v: CliValue, key: Seq<char>) -> Option<CliValue> {
    match v {
        CliValue::MapOf(pairs) => pair_lookup(pairs@, key),
        CliValue::Array(items) => if items@.len() % 2 == 0 {
            chunk_lookup(items@, key)
        } else {
            None
        },
        CliValue::SetOf(items) => if items@.len() % 2 == 0 {
            chunk_lookup(items@, key)
        } else {
            None
        },
        _ => None,
    }
}

/// The field name a key of an `ACL GETUSER` reply stands for.
pub fn getuser_key_name(value: &CliValue) -> (r: Option<String>)
    ensures
        match getuser_name(*value) {
            None => r is None,
            Some(n) => r matches Some(x) && x@ == n,
        },
{
    match value {
        CliValue::BulkString(b) => {
            let text = bytes_to_string_lossy(b.as_slice());
            let w = str_to_chars(text.as_str());
            let t = trim_chars(w.as_slice());
            let n = t.len();
            if n >= 2 && t[0] == '"' && t[n - 1] == '"' {
                proof {
                    assert(t@.last() == t@[n - 1]);
                }
                let inner = chars_slice(t.as_slice(), 1, n - 1);
                Some(chars_to_string(inner.as_slice()))
            } else {
                proof {
                    if n >= 2 {
                        assert(t@.last() == t@[n - 1]);
                    }
                }
                Some(chars_to_string(t.as_slice()))
            }
        },
        CliValue::SimpleString(x) => {
            let w = str_to_chars(x.as_str());
            let t = trim_chars(w.as_slice());
            Some(chars_to_string(t.as_slice()))
        },
        _ => None,
    }
}

fn name_is(value: &CliValue, key: &str) -> (r: bool)
    ensures
        r == (getuser_name(*value) == Some(key@)),
{
    match getuser_key_name(value) {
        None => false,
        Some(n) => {
            let w = str_to_chars(n.as_str());
            chars_eq_str(w.as_slice(), key)
        },
    }
}

fn lookup_pairs<'a>(pairs: &'a Vec<(CliValue, CliValue)>, key: &str) -> (r: Option<&'a CliValue>)
    ensures
        match pair_lookup(pairs@, key@) {
            None => r is None,
            Some(v) => r matches Some(x) && *x == v,
        },
{
    let mut i: usize = 0;
    assert(pairs@.skip(0) =~= pairs@);
    while i < pairs.len()
        invariant
            i <= pairs@.len(),
            pair_lookup(pairs@, key@) == pair_lookup(pairs@.skip(i as int), key@),
        decreases pairs@.len() - i,
    {
        proof {
            assert(pairs@.skip(i as int)[0] == pairs@[i as int]);
            assert(pairs@.skip(i as int).drop_first() =~= pairs@.skip(i + 1));
        }
        if name_is(&pairs[i].0, key) {
            return Some(&pairs[i].1);
        }
        i += 1;
    }
    None
}

fn lookup_chunks<'a>(items: &'a Vec<CliValue>, key: &str) -> (r: Option<&'a CliValue>)
    requires
        items@.len() % 2 == 0,
    ensures
        match chunk_lookup(items@, key@) {
            None => r is None,
            Some(v) => r matches Some(x) && *x == v,
        },
{
    let mut i: usize = 0;
    assert(items@.skip(0) =~= items@);
    while i + 1 < items.len()
        invariant
            i <= items@.len(),
            i % 2 == 0,
            items@.len() % 2 == 0,
            chunk_lookup(items@, key@) == chunk_lookup(items@.skip(i as int), key@),
        decreases items@.len() - i,
    {
        proof {
            assert(items@.skip(i as int)[0] == items@[i as int]);
            assert(items@.skip(i as int)[1] == items@[i + 1]);
            assert(items@.skip(i as int).skip(2) =~= items@.skip(i + 2));
        }
        if name_is(&items[i], key) {
            return Some(&items[i + 1]);
        }
        i += 2;
    }
    None
}

/// A field of an `ACL GETUSER` reply.
pub fn get_getuser_field<'a>(value: &'a CliValue, key: &str) -> (r: Option<&'a CliValue>)
    ensures
        match getuser_field(*value, key@) {
            None => r is None,
            Some(v) => r matches Some(x) && *x == v,
        },
{
    match value {
        CliValue::MapOf(pairs) => lookup_pairs(pairs, key),
        CliValue::Array(items) => {
            if items.len() % 2 == 0 {
                lookup_chunks(items, key)
            } else {
                None
            }
        },
        CliValue::SetOf(items) => {
            if items.len() % 2 == 0 {
                lookup_chunks(items, key)
            } else {
                None
            }
        },
        _ => None,
    }
}

} // verus!
