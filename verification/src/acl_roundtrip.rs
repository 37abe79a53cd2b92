//! Laws that tie the selector text the client writes to the selector it
//! reads back.
use vstd::prelude::*;
use crate::acl::{RuleSpec, setuser_text, selector_text, selector_rules, selector_inner, token_rules,
    selector_token_rule, rule_from_text, key_rule_from_text, channel_rule_from_text};
use crate::cli_format::{spaced, command_line, lemma_spaced_push};
use crate::cli_roundtrip::{CliWord, plain_word, word_texts, word_args, ascii_bytes,
    lemma_command_line_splits, lemma_encode_ascii, all_ascii};
use crate::text::{trim, trim_start, trim_end, is_whitespace, starts_with, ascii_lower, ascii_lower_seq,
    trim_start_char, text_of_bytes};

verus! {

broadcast use vstd::utf8::encode_utf8_decode_utf8, vstd::utf8::encode_utf8_valid_utf8;

/// A rule that a selector text gives back unchanged: the keyword rules,
/// and command, category, key and channel rules whose names are plain
/// ASCII words (no blanks, no quotes) that do not read as something else
/// (a command name starting with `@`, a pattern starting with its own
/// prefix, or a pattern spelled like a keyword).
pub open spec fn selector_safe(r: RuleSpec) -> bool {
    match r {
        RuleSpec::On | RuleSpec::Off | RuleSpec::AllCommands | RuleSpec::NoCommands | RuleSpec::AllKeys
        | RuleSpec::ResetKeys | RuleSpec::ResetChannels => true,
        RuleSpec::AddCategory(c) => plain_word(c),
        RuleSpec::RemoveCategory(c) => plain_word(c),
        RuleSpec::AddCommand(c) => plain_word(c) && c[0] != '@',
        RuleSpec::RemoveCommand(c) => plain_word(c) && c[0] != '@',
        RuleSpec::Pattern(p) => plain_word(p) && p[0] != '~' && ascii_lower_seq(p) != "allkeys"@
            && ascii_lower_seq(p) != "*"@ && ascii_lower_seq(p) != "resetkeys"@,
        RuleSpec::Channel(p) => plain_word(p) && p[0] != '&' && p != "*"@ && ascii_lower_seq(p)
            != "allchannels"@ && ascii_lower_seq(p) != "*"@ && ascii_lower_seq(p) != "resetchannels"@,
        _ => false,
    }
}

proof fn lemma_plain_trim(t: Seq<char>)
    requires
        plain_word(t),
    ensures
        trim(t) == t,
{
    assert(!is_whitespace(t[0]));
    assert(trim_start(t) == t);
    assert(!is_whitespace(t.last()));
    assert(trim_end(t) == t);
}

proof fn lemma_prefixed_plain(pre: Seq<char>, c: Seq<char>)
    requires
        plain_word(c),
        forall|i: int| 0 <= i < pre.len() ==> 0x21 <= (#[trigger] pre[i] as u32) <= 0x7e && pre[i] != '"'
            && pre[i] != '\'',
    ensures
        plain_word(pre + c),
{
    let w = pre + c;
    assert forall|i: int| 0 <= i < w.len() implies 0x21 <= (#[trigger] w[i] as u32) <= 0x7e && w[i] != '"'
        && w[i] != '\'' by {
        if i < pre.len() {
            assert(w[i] == pre[i]);
        } else {
            assert(w[i] == c[i - pre.len()]);
        }
    }
}

proof fn lemma_lower_first(t: Seq<char>)
    requires
        t.len() > 0,
    ensures
        ascii_lower_seq(t).len() == t.len(),
        ascii_lower_seq(t)[0] == ascii_lower(t[0]),
{
}

proof fn lemma_keyword_word(r: RuleSpec)
    requires
        r is On || r is Off || r is AllCommands || r is NoCommands || r is AllKeys || r is ResetKeys
            || r is ResetChannels,
    ensures
        plain_word(setuser_text(r)),
        selector_token_rule(setuser_text(r)) == r,
        setuser_text(r)[0] != '(',
{
    reveal_strlit("on");
    reveal_strlit("off");
    reveal_strlit("allcommands");
    reveal_strlit("nocommands");
    reveal_strlit("allkeys");
    reveal_strlit("resetkeys");
    reveal_strlit("resetchannels");
    reveal_strlit("allchannels");
    let w = setuser_text(r);
    assert(plain_word(w));
    lemma_plain_trim(w);
    assert(ascii_lower_seq(w) =~= w);
    assert("allcommands"@[4] != "allchannels"@[4]);
}

proof fn lemma_prefixed_rule(r: RuleSpec)
    requires
        selector_safe(r),
        !(r is On || r is Off || r is AllCommands || r is NoCommands || r is AllKeys || r is ResetKeys
            || r is ResetChannels),
    ensures
        plain_word(setuser_text(r)),
        selector_token_rule(setuser_text(r)) == r,
        setuser_text(r)[0] != '(',
{
    reveal_strlit("+");
    reveal_strlit("-");
    reveal_strlit("+@");
    reveal_strlit("-@");
    reveal_strlit("~");
    reveal_strlit("&");
    reveal_strlit("*");
    reveal_strlit("on");
    reveal_strlit("off");
    reveal_strlit("allcommands");
    reveal_strlit("nocommands");
    reveal_strlit("allkeys");
    reveal_strlit("resetkeys");
    reveal_strlit("resetchannels");
    reveal_strlit("allchannels");
    let w = setuser_text(r);
    match r {
        RuleSpec::AddCategory(c) => {
            lemma_prefixed_plain("+@"@, c);
            lemma_plain_trim(w);
            lemma_lower_first(w);
            assert(w.skip(2) =~= c);
            assert(starts_with(w, "+"@)) by { assert(w.take(1) =~= "+"@); }
            assert(starts_with(w, "+@"@)) by { assert(w.take(2) =~= "+@"@); }
        },
        RuleSpec::RemoveCategory(c) => {
            lemma_prefixed_plain("-@"@, c);
            lemma_plain_trim(w);
            lemma_lower_first(w);
            assert(w.skip(2) =~= c);
            assert(!starts_with(w, "+@"@)) by { assert(w.take(2)[0] != "+@"@[0]); }
            assert(starts_with(w, "-@"@)) by { assert(w.take(2) =~= "-@"@); }
            assert(!starts_with(w, "+"@)) by { assert(w.take(1)[0] != "+"@[0]); }
            assert(starts_with(w, "-"@)) by { assert(w.take(1) =~= "-"@); }
        },
        RuleSpec::AddCommand(c) => {
            lemma_prefixed_plain("+"@, c);
            lemma_plain_trim(w);
            lemma_lower_first(w);
            assert(w.skip(1) =~= c);
            assert(!starts_with(w, "+@"@)) by { assert(w.take(2)[1] != "+@"@[1]); }
            assert(!starts_with(w, "-@"@)) by { assert(w.take(2)[0] != "-@"@[0]); }
            assert(starts_with(w, "+"@)) by { assert(w.take(1) =~= "+"@); }
        },
        RuleSpec::RemoveCommand(c) => {
            lemma_prefixed_plain("-"@, c);
            lemma_plain_trim(w);
            lemma_lower_first(w);
            assert(w.skip(1) =~= c);
            assert(!starts_with(w, "+@"@)) by { assert(w.take(2)[0] != "+@"@[0]); }
            assert(!starts_with(w, "-@"@)) by { assert(w.take(2)[1] != "-@"@[1]); }
            assert(!starts_with(w, "+"@)) by { assert(w.take(1)[0] != "+"@[0]); }
            assert(starts_with(w, "-"@)) by { assert(w.take(1) =~= "-"@); }
        },
        RuleSpec::Pattern(p) => {
            lemma_prefixed_plain("~"@, p);
            lemma_plain_trim(w);
            lemma_lower_first(w);
            assert(!starts_with(w, "+"@)) by { assert(w.take(1)[0] != "+"@[0]); }
            assert(!starts_with(w, "-"@)) by { assert(w.take(1)[0] != "-"@[0]); }
            assert(starts_with(w, "~"@)) by { assert(w.take(1) =~= "~"@); }
            assert(w.drop_first() =~= p);
            assert(trim_start_char(p, '~') == p);
            assert(trim_start_char(w, '~') == p);
        },
        RuleSpec::Channel(p) => {
            lemma_prefixed_plain("&"@, p);
            assert(w == "&"@ + p);
            lemma_plain_trim(w);
            lemma_lower_first(w);
            assert(!starts_with(w, "+"@)) by { assert(w.take(1)[0] != "+"@[0]); }
            assert(!starts_with(w, "-"@)) by { assert(w.take(1)[0] != "-"@[0]); }
            assert(!starts_with(w, "~"@)) by { assert(w.take(1)[0] != "~"@[0]); }
            assert(starts_with(w, "&"@)) by { assert(w.take(1) =~= "&"@); }
            assert(w.drop_first() =~= p);
            assert(trim_start_char(p, '&') == p);
            assert(trim_start_char(w, '&') == p);
        },
        _ => {},
    }
}

proof fn lemma_safe_word(r: RuleSpec)
    requires
        selector_safe(r),
    ensures
        plain_word(setuser_text(r)),
        selector_token_rule(setuser_text(r)) == r,
        setuser_text(r)[0] != '(',
{
    if r is On || r is Off || r is AllCommands || r is NoCommands || r is AllKeys || r is ResetKeys
        || r is ResetChannels {
        lemma_keyword_word(r);
    } else {
        lemma_prefixed_rule(r);
    }
}

/// The selector text of the first `n` rules: the first rule's text, then
/// the others each after a space.
proof fn lemma_selector_text_line(rules: Seq<RuleSpec>, n: int)
    requires
        1 <= n <= rules.len(),
    ensures
        selector_text(rules, n) == command_line(
            setuser_text(rules[0]),
            Seq::new((n - 1) as nat, |i: int| setuser_text(rules[i + 1])),
        ),
    decreases n,
{
    reveal_strlit(" ");
    assert(" "@ =~= seq![' ']);
    let ws = Seq::new((n - 1) as nat, |i: int| setuser_text(rules[i + 1]));
    if n == 1 {
        assert(ws =~= Seq::<Seq<char>>::empty());
        assert(setuser_text(rules[0]) + spaced(ws) =~= setuser_text(rules[0]));
    } else {
        lemma_selector_text_line(rules, n - 1);
        let prev = Seq::new((n - 2) as nat, |i: int| setuser_text(rules[i + 1]));
        assert(ws =~= prev.push(setuser_text(rules[n - 1])));
        lemma_spaced_push(prev, setuser_text(rules[n - 1]));
        assert(selector_text(rules, n) == selector_text(rules, n - 1) + " "@ + setuser_text(rules[n - 1]));
        assert(selector_text(rules, n) =~= setuser_text(rules[0]) + spaced(ws));
    }
}

/// A selector written from rules that read back unchanged (see
/// `selector_safe`) is read back as exactly those rules.
pub proof fn law_selector_text_roundtrip(rules: Seq<RuleSpec>)
    requires
        rules.len() > 0,
        forall|i: int| 0 <= i < rules.len() ==> selector_safe(#[trigger] rules[i]),
    ensures
        selector_rules(selector_text(rules, rules.len() as int)) == Ok::<Seq<RuleSpec>, crate::acl::AclError>(rules),
{
    let n = rules.len() as int;
    let texts = Seq::new(rules.len(), |i: int| setuser_text(rules[i]));
    assert forall|i: int| 0 <= i < n implies plain_word(#[trigger] texts[i]) && selector_token_rule(texts[i])
        == rules[i] && texts[i][0] != '(' by {
        lemma_safe_word(rules[i]);
    }
    lemma_selector_text_line(rules, n);
    let rest = Seq::new((n - 1) as nat, |i: int| setuser_text(rules[i + 1]));
    let ws = Seq::new((n - 1) as nat, |i: int| CliWord::Plain(rest[i]));
    assert(word_texts(ws) =~= rest);
    let w0 = texts[0];
    let text = selector_text(rules, n);
    assert(text == command_line(w0, rest));
    assert forall|i: int| 0 <= i < ws.len() implies crate::cli_roundtrip::word_ok(#[trigger] ws[i]) by {
        assert(rest[i] == texts[i + 1]);
    }
    lemma_command_line_splits(w0, ws);
    // the text is trimmed and not parenthesised
    assert(text.len() > 0 && text[0] == w0[0]);
    assert(!is_whitespace(text[0]));
    assert(trim_start(text) == text);
    let lastw = texts[n - 1];
    assert(text.last() == lastw.last()) by {
        if n == 1 {
            assert(text == w0 + spaced(rest));
            assert(rest.len() == 0);
            assert(spaced(rest) =~= Seq::<char>::empty());
            assert(text =~= w0);
        } else {
            assert(rest =~= rest.drop_last().push(rest.last()));
            lemma_spaced_push(rest.drop_last(), rest.last());
            assert(text =~= w0 + spaced(rest.drop_last()) + seq![' '] + rest.last());
            assert(rest.last() == texts[n - 1]);
        }
    }
    assert(0x21 <= (lastw[lastw.len() - 1] as u32) <= 0x7e);
    assert(!is_whitespace(text.last()));
    assert(trim_end(text) == text);
    assert(trim(text) == text);
    assert(selector_inner(text) == text);
    let tokens = seq![ascii_bytes(w0)] + word_args(ws);
    assert(tokens.len() == n);
    assert forall|i: int| 0 <= i < n implies #[trigger] tokens[i] == ascii_bytes(texts[i]) by {
        if i > 0 {
            assert(tokens[i] == word_args(ws)[i - 1]);
            assert(rest[i - 1] == texts[i]);
        }
    }
    assert forall|i: int| 0 <= i < n implies #[trigger] text_of_bytes(tokens[i]) == texts[i] by {
        let t = texts[i];
        assert(plain_word(t));
        assert(all_ascii(t));
        lemma_encode_ascii(t);
    }
    assert(token_rules(tokens) =~= rules);
}

} // verus!
