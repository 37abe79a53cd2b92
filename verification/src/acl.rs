//! ACL rules: reading them from the text of the user form and of `ACL LIST`,
//! and writing them as `ACL SETUSER` arguments and display text.
use vstd::prelude::*;
use vstd::string::StringSliceAdditionalSpecFns;
use crate::text::{trim, trim_start_char, starts_with, ascii_lower_seq, str_to_chars, trim_chars,
    trim_start_matches_char, chars_eq_str, chars_start_with_str, string_from, chars_to_string,
    push_str, push_char, chars_slice, ascii_lower_chars, lemma_trim_idempotent, text_of_bytes,
    bytes_to_string_lossy};
use crate::cli_args::{parse_args, split_redis_args};

verus! {

broadcast use vstd::string::group_string_axioms;

/// An ACL rule of a Redis user.
#[derive(Debug)]
pub enum AclRule {
    On,
    Off,
    AddCommand(String),
    RemoveCommand(String),
    AddCategory(String),
    RemoveCategory(String),
    AllCommands,
    NoCommands,
    AddPass(String),
    RemovePass(String),
    AddHashedPass(String),
    RemoveHashedPass(String),
    NoPass,
    ResetPass,
    Pattern(String),
    AllKeys,
    ResetKeys,
    Channel(String),
    ResetChannels,
    /// Rules that apply together (Redis 7.2 selectors).
    Selector(Vec<AclRule>),
    Reset,
    /// Rule text that none of the other variants names.
    Other(String),
}

/// An ACL rule with its texts as character sequences.
pub enum RuleSpec {
    On,
    Off,
    AddCommand(Seq<char>),
    RemoveCommand(Seq<char>),
    AddCategory(Seq<char>),
    RemoveCategory(Seq<char>),
    AllCommands,
    NoCommands,
    AddPass(Seq<char>),
    RemovePass(Seq<char>),
    AddHashedPass(Seq<char>),
    RemoveHashedPass(Seq<char>),
    NoPass,
    ResetPass,
    Pattern(Seq<char>),
    AllKeys,
    ResetKeys,
    Channel(Seq<char>),
    ResetChannels,
    Selector(Seq<RuleSpec>),
    Reset,
    Other(Seq<char>),
}

pub open spec fn rule_view(r: AclRule) -> RuleSpec
    decreases r, 0int,
{
    match r {
        AclRule::On => RuleSpec::On,
        AclRule::Off => RuleSpec::Off,
        AclRule::AddCommand(s) => RuleSpec::AddCommand(s@),
        AclRule::RemoveCommand(s) => RuleSpec::RemoveCommand(s@),
        AclRule::AddCategory(s) => RuleSpec::AddCategory(s@),
        AclRule::RemoveCategory(s) => RuleSpec::RemoveCategory(s@),
        AclRule::AllCommands => RuleSpec::AllCommands,
        AclRule::NoCommands => RuleSpec::NoCommands,
        AclRule::AddPass(s) => RuleSpec::AddPass(s@),
        AclRule::RemovePass(s) => RuleSpec::RemovePass(s@),
        AclRule::AddHashedPass(s) => RuleSpec::AddHashedPass(s@),
        AclRule::RemoveHashedPass(s) => RuleSpec::RemoveHashedPass(s@),
        AclRule::NoPass => RuleSpec::NoPass,
        AclRule::ResetPass => RuleSpec::ResetPass,
        AclRule::Pattern(s) => RuleSpec::Pattern(s@),
        AclRule::AllKeys => RuleSpec::AllKeys,
        AclRule::ResetKeys => RuleSpec::ResetKeys,
        AclRule::Channel(s) => RuleSpec::Channel(s@),
        AclRule::ResetChannels => RuleSpec::ResetChannels,
        AclRule::Selector(v) => RuleSpec::Selector(rules_view(v@)),
        AclRule::Reset => RuleSpec::Reset,
        AclRule::Other(s) => RuleSpec::Other(s@),
    }
}

/// The views of a list of rules.
pub open spec fn rules_view(rules: Seq<AclRule>) -> Seq<RuleSpec>
    decreases rules, rules.len(),
{
    if rules.len() == 0 {
        Seq::empty()
    } else {
        rules_view(rules.drop_last()).push(rule_view(rules.last()))
    }
}

pub proof fn lemma_rules_view(rules: Seq<AclRule>)
    ensures
        rules_view(rules).len() == rules.len(),
        forall|i: int| 0 <= i < rules.len() ==> #[trigger] rules_view(rules)[i] == rule_view(rules[i]),
    decreases rules.len(),
{
    if rules.len() > 0 {
        lemma_rules_view(rules.drop_last());
    }
}

// ---------------------------------------------------------------------------
// Reading rules from text
// ---------------------------------------------------------------------------

/// A command or category rule: `+@cat`, `-@cat`, `+cmd`, `-cmd`; anything
/// else is kept as it is.
pub open spec fn rule_from_text(text: Seq<char>) -> RuleSpec {
    let v = trim(text);
    if starts_with(v, "+@"@) {
        RuleSpec::AddCategory(v.skip(2))
    } else if starts_with(v, "-@"@) {
        RuleSpec::RemoveCategory(v.skip(2))
    } else if starts_with(v, "+"@) {
        RuleSpec::AddCommand(v.skip(1))
    } else if starts_with(v, "-"@) {
        RuleSpec::RemoveCommand(v.skip(1))
    } else {
        RuleSpec::Other(v)
    }
}

/// A key rule: the leading `~` are dropped; `allkeys` and `*` (in any case)
/// allow all keys, `resetkeys` resets them, anything else is a pattern.
pub open spec fn key_rule_from_text(text: Seq<char>) -> RuleSpec {
    let v = trim_start_char(trim(text), '~');
    let l = ascii_lower_seq(v);
    if l == "allkeys"@ || l == "*"@ {
        RuleSpec::AllKeys
    } else if l == "resetkeys"@ {
        RuleSpec::ResetKeys
    } else {
        RuleSpec::Pattern(v)
    }
}

/// A channel rule: the leading `&` are dropped; `allchannels` and `*`
/// allow all channels, `resetchannels` resets them, anything else is a
/// pattern.
pub open spec fn channel_rule_from_text(text: Seq<char>) -> RuleSpec {
    let v = trim_start_char(trim(text), '&');
    let l = ascii_lower_seq(v);
    if l == "allchannels"@ || l == "*"@ {
        RuleSpec::Other("allchannels"@)
    } else if l == "resetchannels"@ {
        RuleSpec::ResetChannels
    } else {
        RuleSpec::Channel(v)
    }
}

/// One token of a selector.
pub open spec fn selector_token_rule(token: Seq<char>) -> RuleSpec {
    let v = trim(token);
    let l = ascii_lower_seq(v);
    if v.len() == 0 {
        RuleSpec::Other(Seq::empty())
    } else if l == "allkeys"@ {
        RuleSpec::AllKeys
    } else if l == "resetkeys"@ {
        RuleSpec::ResetKeys
    } else if l == "allchannels"@ {
        RuleSpec::Other("allchannels"@)
    } else if l == "resetchannels"@ {
        RuleSpec::ResetChannels
    } else if l == "allcommands"@ {
        RuleSpec::AllCommands
    } else if l == "nocommands"@ {
        RuleSpec::NoCommands
    } else if l == "on"@ {
        RuleSpec::On
    } else if l == "off"@ {
        RuleSpec::Off
    } else if starts_with(v, "+"@) || starts_with(v, "-"@) {
        rule_from_text(v)
    } else if starts_with(v, "~"@) {
        key_rule_from_text(v)
    } else if starts_with(v, "&"@) {
        channel_rule_from_text(v)
    } else {
        RuleSpec::Other(v)
    }
}

/// Reads a command or category rule.
pub fn acl_rule_from_text(text: &str) -> (r: AclRule)
    ensures
        rule_view(r) == rule_from_text(text@),
{
    let w = str_to_chars(text);
    let v = trim_chars(w.as_slice());
    proof {
        reveal_strlit("+@");
        reveal_strlit("-@");
        reveal_strlit("+");
        reveal_strlit("-");
    }
    if chars_start_with_str(v.as_slice(), "+@") {
        AclRule::AddCategory(string_from(v.as_slice(), 2))
    } else if chars_start_with_str(v.as_slice(), "-@") {
        AclRule::RemoveCategory(string_from(v.as_slice(), 2))
    } else if chars_start_with_str(v.as_slice(), "+") {
        AclRule::AddCommand(string_from(v.as_slice(), 1))
    } else if chars_start_with_str(v.as_slice(), "-") {
        AclRule::RemoveCommand(string_from(v.as_slice(), 1))
    } else {
        AclRule::Other(chars_to_string(v.as_slice()))
    }
}

/// Reads a key rule.
pub fn acl_key_rule_from_text(text: &str) -> (r: AclRule)
    ensures
        rule_view(r) == key_rule_from_text(text@),
{
    let w = str_to_chars(text);
    let t = trim_chars(w.as_slice());
    let v = trim_start_matches_char(t.as_slice(), '~');
    let l = ascii_lower_chars(v.as_slice());
    if chars_eq_str(l.as_slice(), "allkeys") || chars_eq_str(l.as_slice(), "*") {
        AclRule::AllKeys
    } else if chars_eq_str(l.as_slice(), "resetkeys") {
        AclRule::ResetKeys
    } else {
        AclRule::Pattern(chars_to_string(v.as_slice()))
    }
}

fn all_channels_rule() -> (r: AclRule)
    ensures
        rule_view(r) == RuleSpec::Other("allchannels"@),
{
    let mut s = String::new();
    push_str(&mut s, "allchannels");
    AclRule::Other(s)
}

/// Reads a channel rule.
pub fn acl_channel_rule_from_text(text: &str) -> (r: AclRule)
    ensures
        rule_view(r) == channel_rule_from_text(text@),
{
    let w = str_to_chars(text);
    let t = trim_chars(w.as_slice());
    let v = trim_start_matches_char(t.as_slice(), '&');
    let l = ascii_lower_chars(v.as_slice());
    if chars_eq_str(l.as_slice(), "allchannels") || chars_eq_str(l.as_slice(), "*") {
        all_channels_rule()
    } else if chars_eq_str(l.as_slice(), "resetchannels") {
        AclRule::ResetChannels
    } else {
        AclRule::Channel(chars_to_string(v.as_slice()))
    }
}

/// Reads one token of a selector.
pub fn acl_selector_token_to_rule(token: &str) -> (r: AclRule)
    ensures
        rule_view(r) == selector_token_rule(token@),
{
    let w = str_to_chars(token);
    let v = trim_chars(w.as_slice());
    if v.len() == 0 {
        return AclRule::Other(String::new());
    }
    let l = ascii_lower_chars(v.as_slice());
    let vs = chars_to_string(v.as_slice());
    if chars_eq_str(l.as_slice(), "allkeys") {
        AclRule::AllKeys
    } else if chars_eq_str(l.as_slice(), "resetkeys") {
        AclRule::ResetKeys
    } else if chars_eq_str(l.as_slice(), "allchannels") {
        all_channels_rule()
    } else if chars_eq_str(l.as_slice(), "resetchannels") {
        AclRule::ResetChannels
    } else if chars_eq_str(l.as_slice(), "allcommands") {
        AclRule::AllCommands
    } else if chars_eq_str(l.as_slice(), "nocommands") {
        AclRule::NoCommands
    } else if chars_eq_str(l.as_slice(), "on") {
        AclRule::On
    } else if chars_eq_str(l.as_slice(), "off") {
        AclRule::Off
    } else if chars_start_with_str(v.as_slice(), "+") || chars_start_with_str(v.as_slice(), "-") {
        proof {
            assert(trim(v@) == v@) by { lemma_trim_idempotent(w@); }
        }
        acl_rule_from_text(vs.as_str())
    } else if chars_start_with_str(v.as_slice(), "~") {
        proof {
            assert(trim(v@) == v@) by { lemma_trim_idempotent(w@); }
        }
        acl_key_rule_from_text(vs.as_str())
    } else if chars_start_with_str(v.as_slice(), "&") {
        proof {
            assert(trim(v@) == v@) by { lemma_trim_idempotent(w@); }
        }
        acl_channel_rule_from_text(vs.as_str())
    } else {
        AclRule::Other(vs)
    }
}


// ---------------------------------------------------------------------------
// Writing rules as text
// ---------------------------------------------------------------------------

/// A rule as it is written inside `ACL SETUSER` and inside a selector.
/// Password rules and `reset` have no such text here and read `unknown`.
pub open spec fn setuser_text(r: RuleSpec) -> Seq<char>
    decreases r, 0int,
{
    match r {
        RuleSpec::On => "on"@,
        RuleSpec::Off => "off"@,
        RuleSpec::AllCommands => "allcommands"@,
        RuleSpec::NoCommands => "nocommands"@,
        RuleSpec::AllKeys => "allkeys"@,
        RuleSpec::ResetKeys => "resetkeys"@,
        RuleSpec::ResetChannels => "resetchannels"@,
        RuleSpec::AddCommand(c) => "+"@ + c,
        RuleSpec::RemoveCommand(c) => "-"@ + c,
        RuleSpec::AddCategory(c) => "+@"@ + c,
        RuleSpec::RemoveCategory(c) => "-@"@ + c,
        RuleSpec::Pattern(p) => "~"@ + p,
        RuleSpec::Channel(p) => if p == "*"@ {
            "allchannels"@
        } else {
            "&"@ + p
        },
        RuleSpec::Other(raw) => raw,
        RuleSpec::Selector(inner) => "("@ + selector_text(inner, inner.len() as int) + ")"@,
        _ => "unknown"@,
    }
}

/// The texts of the first `n` rules joined by spaces.
pub open spec fn selector_text(rules: Seq<RuleSpec>, n: int) -> Seq<char>
    decreases rules, n,
{
    if n <= 0 || n > rules.len() {
        Seq::empty()
    } else if n == 1 {
        setuser_text(rules[0])
    } else {
        selector_text(rules, n - 1) + " "@ + setuser_text(rules[n - 1])
    }
}

/// One `ACL SETUSER` argument for a rule: `nopass`, `reset`, `resetpass`,
/// `#<hash>` for a hashed password, `(...)` for a selector, otherwise its
/// rule text.
pub open spec fn setuser_arg(r: RuleSpec) -> Seq<char> {
    match r {
        RuleSpec::NoPass => "nopass"@,
        RuleSpec::Reset => "reset"@,
        RuleSpec::ResetPass => "resetpass"@,
        RuleSpec::AddHashedPass(h) => "#"@ + h,
        _ => setuser_text(r),
    }
}

/// A rule as `ACL GETUSER` shows it.
pub open spec fn rule_display_text(r: RuleSpec) -> Seq<char>
    decreases r, 0int,
{
    match r {
        RuleSpec::On => "on"@,
        RuleSpec::Off => "off"@,
        RuleSpec::AllCommands => "allcommands"@,
        RuleSpec::NoCommands => "nocommands"@,
        RuleSpec::NoPass => "nopass"@,
        RuleSpec::AllKeys => "allkeys"@,
        RuleSpec::ResetKeys => "resetkeys"@,
        RuleSpec::ResetChannels => "resetchannels"@,
        RuleSpec::ResetPass => "resetpass"@,
        RuleSpec::Reset => "reset"@,
        RuleSpec::AddCommand(c) => "+"@ + c,
        RuleSpec::RemoveCommand(c) => "-"@ + c,
        RuleSpec::AddCategory(c) => "+@"@ + c,
        RuleSpec::RemoveCategory(c) => "-@"@ + c,
        RuleSpec::AddPass(p) => ">"@ + p,
        RuleSpec::RemovePass(p) => "<"@ + p,
        RuleSpec::AddHashedPass(h) => h,
        RuleSpec::RemoveHashedPass(h) => "!"@ + h,
        RuleSpec::Pattern(p) => p,
        RuleSpec::Channel(p) => p,
        RuleSpec::Selector(sel) => display_join(sel, sel.len() as int),
        RuleSpec::Other(raw) => raw,
    }
}

/// The display texts of the first `n` rules joined by spaces.
pub open spec fn display_join(rules: Seq<RuleSpec>, n: int) -> Seq<char>
    decreases rules, n,
{
    if n <= 0 || n > rules.len() {
        Seq::empty()
    } else if n == 1 {
        rule_display_text(rules[0])
    } else {
        display_join(rules, n - 1) + " "@ + rule_display_text(rules[n - 1])
    }
}

fn text_after(prefix: &str, rest: &String) -> (r: String)
    ensures
        r@ == prefix@ + rest@,
{
    let mut s = String::new();
    push_str(&mut s, prefix);
    push_str(&mut s, rest.as_str());
    assert(s@ =~= prefix@ + rest@);
    s
}

fn literal(t: &str) -> (r: String)
    ensures
        r@ == t@,
{
    let mut s = String::new();
    push_str(&mut s, t);
    assert(s@ =~= t@);
    s
}

fn acl_rule_to_setuser_text(rule: &AclRule) -> (r: String)
    ensures
        r@ == setuser_text(rule_view(*rule)),
    decreases rule, 0int,
{
    match rule {
        AclRule::On => literal("on"),
        AclRule::Off => literal("off"),
        AclRule::AllCommands => literal("allcommands"),
        AclRule::NoCommands => literal("nocommands"),
        AclRule::AllKeys => literal("allkeys"),
        AclRule::ResetKeys => literal("resetkeys"),
        AclRule::ResetChannels => literal("resetchannels"),
        AclRule::AddCommand(c) => text_after("+", c),
        AclRule::RemoveCommand(c) => text_after("-", c),
        AclRule::AddCategory(c) => text_after("+@", c),
        AclRule::RemoveCategory(c) => text_after("-@", c),
        AclRule::Pattern(p) => text_after("~", p),
        AclRule::Channel(p) => {
            let w = str_to_chars(p.as_str());
            if chars_eq_str(w.as_slice(), "*") {
                literal("allchannels")
            } else {
                text_after("&", p)
            }
        },
        AclRule::Other(raw) => literal(raw.as_str()),
        AclRule::Selector(inner) => {
            let mut s = String::new();
            push_str(&mut s, "(");
            let t = acl_rules_to_selector_text(inner.as_slice());
            proof {
                lemma_rules_view(inner@);
            }
            push_str(&mut s, t.as_str());
            push_str(&mut s, ")");
            assert(s@ =~= setuser_text(rule_view(*rule)));
            s
        },
        _ => literal("unknown"),
    }
}

/// The rule texts of a selector, separated by spaces.
pub fn acl_rules_to_selector_text(rules: &[AclRule]) -> (r: String)
    ensures
        r@ == selector_text(rules_view(rules@), rules@.len() as int),
    decreases rules@, rules@.len() + 1,
{
    proof {
        lemma_rules_view(rules@);
    }
    let mut out = String::new();
    let mut i: usize = 0;
    assert(out@ =~= selector_text(rules_view(rules@), 0));
    while i < rules.len()
        invariant
            i <= rules@.len(),
            rules_view(rules@).len() == rules@.len(),
            forall|k: int| 0 <= k < rules@.len() ==> #[trigger] rules_view(rules@)[k] == rule_view(rules@[k]),
            out@ == selector_text(rules_view(rules@), i as int),
        decreases rules@.len() - i,
    {
        if i > 0 {
            push_str(&mut out, " ");
        }
        proof {
            assert(decreases_to!(rules@ => rules@[i as int]));
        }
        let t = acl_rule_to_setuser_text(&rules[i]);
        out.append(t.as_str());
        i += 1;
        proof {
            if i == 1 {
                assert(out@ =~= setuser_text(rules_view(rules@)[0]));
            }
        }
        assert(out@ =~= selector_text(rules_view(rules@), i as int));
    }
    out
}

/// One `ACL SETUSER` argument for a rule.
pub fn acl_rule_to_setuser_arg(rule: &AclRule) -> (r: String)
    ensures
        r@ == setuser_arg(rule_view(*rule)),
{
    match rule {
        AclRule::NoPass => literal("nopass"),
        AclRule::Reset => literal("reset"),
        AclRule::ResetPass => literal("resetpass"),
        AclRule::AddHashedPass(h) => text_after("#", h),
        _ => acl_rule_to_setuser_text(rule),
    }
}

/// A rule as `ACL GETUSER` shows it.
pub fn acl_rule_to_string(rule: &AclRule) -> (r: String)
    ensures
        r@ == rule_display_text(rule_view(*rule)),
    decreases rule, 0int,
{
    match rule {
        AclRule::On => literal("on"),
        AclRule::Off => literal("off"),
        AclRule::AllCommands => literal("allcommands"),
        AclRule::NoCommands => literal("nocommands"),
        AclRule::NoPass => literal("nopass"),
        AclRule::AllKeys => literal("allkeys"),
        AclRule::ResetKeys => literal("resetkeys"),
        AclRule::ResetChannels => literal("resetchannels"),
        AclRule::ResetPass => literal("resetpass"),
        AclRule::Reset => literal("reset"),
        AclRule::AddCommand(c) => text_after("+", c),
        AclRule::RemoveCommand(c) => text_after("-", c),
        AclRule::AddCategory(c) => text_after("+@", c),
        AclRule::RemoveCategory(c) => text_after("-@", c),
        AclRule::AddPass(p) => text_after(">", p),
        AclRule::RemovePass(p) => text_after("<", p),
        AclRule::AddHashedPass(h) => literal(h.as_str()),
        AclRule::RemoveHashedPass(h) => text_after("!", h),
        AclRule::Pattern(p) => literal(p.as_str()),
        AclRule::Channel(p) => literal(p.as_str()),
        AclRule::Selector(sel) => {
            proof {
                lemma_rules_view(sel@);
            }
            acl_rules_display_join(sel.as_slice())
        },
        AclRule::Other(raw) => literal(raw.as_str()),
    }
}

fn acl_rules_display_join(rules: &[AclRule]) -> (r: String)
    ensures
        r@ == display_join(rules_view(rules@), rules@.len() as int),
    decreases rules@, rules@.len() + 1,
{
    proof {
        lemma_rules_view(rules@);
    }
    let mut out = String::new();
    let mut i: usize = 0;
    assert(out@ =~= display_join(rules_view(rules@), 0));
    while i < rules.len()
        invariant
            i <= rules@.len(),
            rules_view(rules@).len() == rules@.len(),
            forall|k: int| 0 <= k < rules@.len() ==> #[trigger] rules_view(rules@)[k] == rule_view(rules@[k]),
            out@ == display_join(rules_view(rules@), i as int),
        decreases rules@.len() - i,
    {
        if i > 0 {
            push_str(&mut out, " ");
        }
        proof {
            assert(decreases_to!(rules@ => rules@[i as int]));
        }
        let t = acl_rule_to_string(&rules[i]);
        out.append(t.as_str());
        i += 1;
        proof {
            if i == 1 {
                assert(out@ =~= rule_display_text(rules_view(rules@)[0]));
            }
        }
        assert(out@ =~= display_join(rules_view(rules@), i as int));
    }
    out
}


// ---------------------------------------------------------------------------
// Selectors and `ACL SETUSER`
// ---------------------------------------------------------------------------

/// Why ACL text could not be read.
#[derive(Debug, Clone, Copy, PartialEq, Eq, Structural)]
pub enum AclError {
    /// A selector holds no rule.
    EmptySelector,
    /// A selector's quotes are not balanced.
    UnbalancedQuotes,
    /// An `ACL LIST` line does not start with `user `.
    InvalidListLine,
    /// An `ACL LIST` line names no user.
    MissingUsername,
}

/// The rules of a selector text with its parentheses and the surrounding
/// whitespace removed.
pub open spec fn selector_inner(text: Seq<char>) -> Seq<char> {
    let t = trim(text);
    let inner = if t.len() >= 2 && t[0] == '(' && t.last() == ')' {
        t.subrange(1, t.len() - 1)
    } else {
        t
    };
    trim(inner)
}

/// The rules of each argument of a selector.
pub open spec fn token_rules(tokens: Seq<Seq<u8>>) -> Seq<RuleSpec> {
    Seq::new(tokens.len(), |i: int| selector_token_rule(text_of_bytes(tokens[i])))
}

/// The rules a selector text stands for: its inner text split as redis-cli
/// arguments, each argument read as one rule.
pub open spec fn selector_rules(text: Seq<char>) -> Result<Seq<RuleSpec>, AclError> {
    let inner = selector_inner(text);
    if inner.len() == 0 {
        Err(AclError::EmptySelector)
    } else {
        match parse_args(vstd::utf8::encode_utf8(inner)) {
            None => Err(AclError::UnbalancedQuotes),
            Some(tokens) => Ok(token_rules(tokens)),
        }
    }
}

/// Reads a selector, written with or without its parentheses.
pub fn acl_selector_from_text(text: &str) -> (r: Result<AclRule, AclError>)
    ensures
        match selector_rules(text@) {
            Ok(rules) => r matches Ok(rule) && rule_view(rule) == RuleSpec::Selector(rules),
            Err(e) => r == Err::<AclRule, AclError>(e),
        },
{
    let w = str_to_chars(text);
    let t = trim_chars(w.as_slice());
    let n = t.len();
    let inner0 = if n >= 2 && t[0] == '(' && t[n - 1] == ')' {
        chars_slice(t.as_slice(), 1, n - 1)
    } else {
        chars_slice(t.as_slice(), 0, n)
    };
    proof {
        assert(t@.subrange(0, n as int) =~= t@);
        if n >= 2 {
            assert(t@.last() == t@[n - 1]);
        }
    }
    let inner = trim_chars(inner0.as_slice());
    if inner.len() == 0 {
        return Err(AclError::EmptySelector);
    }
    let inner_text = chars_to_string(inner.as_slice());
    let tokens = match split_redis_args(inner_text.as_str()) {
        Ok(tokens) => tokens,
        Err(_) => {
            return Err(AclError::UnbalancedQuotes);
        },
    };
    let ghost tv = tokens.deep_view();
    let mut rules: Vec<AclRule> = Vec::new();
    let mut i: usize = 0;
    assert(rules_view(rules@) =~= token_rules(tv).take(0));
    while i < tokens.len()
        invariant
            i <= tokens@.len(),
            tv == tokens.deep_view(),
            rules_view(rules@) == token_rules(tv).take(i as int),
        decreases tokens@.len() - i,
    {
        proof {
            assert(tokens@[i as int].deep_view() =~= tokens@[i as int]@);
        }
        let text_i = bytes_to_string_lossy(tokens[i].as_slice());
        let rule = acl_selector_token_to_rule(text_i.as_str());
        let ghost old = rules@;
        rules.push(rule);
        proof {
            assert(rules@.drop_last() =~= old);
        }
        i += 1;
        assert(rules_view(rules@) =~= token_rules(tv).take(i as int));
    }
    assert(token_rules(tv).take(i as int) =~= token_rules(tv));
    Ok(AclRule::Selector(rules))
}

/// The fields of the user form that `ACL SETUSER` writes.
#[derive(Debug)]
pub struct AclSetuserParam {
    pub username: String,
    pub enabled: bool,
    pub password_hashes: Vec<String>,
    pub command_rules: Vec<String>,
    pub key_patterns: Vec<String>,
    pub channel_patterns: Vec<String>,
    /// Selector rule texts, one per selector (such as `-@all +set ~key2`).
    pub selectors: Vec<String>,
}

pub open spec fn hashed_pass_rules(hashes: Seq<Seq<char>>) -> Seq<RuleSpec> {
    Seq::new(hashes.len(), |i: int| RuleSpec::AddHashedPass(hashes[i]))
}

pub open spec fn command_rules_of(texts: Seq<Seq<char>>) -> Seq<RuleSpec> {
    Seq::new(texts.len(), |i: int| rule_from_text(texts[i]))
}

pub open spec fn key_rules_of(texts: Seq<Seq<char>>) -> Seq<RuleSpec> {
    Seq::new(texts.len(), |i: int| key_rule_from_text(texts[i]))
}

pub open spec fn channel_rules_of(texts: Seq<Seq<char>>) -> Seq<RuleSpec> {
    Seq::new(texts.len(), |i: int| channel_rule_from_text(texts[i]))
}

/// The selector rules of the form, in order; blank selectors are skipped and
/// the first selector that cannot be read gives the error.
pub open spec fn selectors_rules(sels: Seq<Seq<char>>) -> Result<Seq<RuleSpec>, AclError>
    decreases sels.len(),
{
    if sels.len() == 0 {
        Ok(Seq::empty())
    } else {
        match selectors_rules(sels.drop_last()) {
            Err(e) => Err(e),
            Ok(rs) => {
                let t = trim(sels.last());
                if t.len() == 0 {
                    Ok(rs)
                } else {
                    match selector_rules(t) {
                        Err(e) => Err(e),
                        Ok(x) => Ok(rs.push(RuleSpec::Selector(x))),
                    }
                }
            },
        }
    }
}

/// The password rules of the form: one per hash, or `nopass` when there are none.
pub open spec fn password_section(hashes: Seq<Seq<char>>) -> Seq<RuleSpec> {
    if hashes.len() == 0 {
        seq![RuleSpec::NoPass]
    } else {
        hashed_pass_rules(hashes)
    }
}

/// The command rules of the form, or `nocommands` when there are none.
pub open spec fn command_section(texts: Seq<Seq<char>>) -> Seq<RuleSpec> {
    if texts.len() == 0 {
        seq![RuleSpec::NoCommands]
    } else {
        command_rules_of(texts)
    }
}

/// The key rules of the form, or `allkeys` when there are none.
pub open spec fn key_section(texts: Seq<Seq<char>>) -> Seq<RuleSpec> {
    if texts.len() == 0 {
        seq![RuleSpec::AllKeys]
    } else {
        key_rules_of(texts)
    }
}

/// The channel rules of the form, or `resetchannels` when there are none.
pub open spec fn channel_section(texts: Seq<Seq<char>>) -> Seq<RuleSpec> {
    if texts.len() == 0 {
        seq![RuleSpec::ResetChannels]
    } else {
        channel_rules_of(texts)
    }
}

/// The rules that `ACL SETUSER` gets for the form: `reset`, `on` or `off`,
/// the password hashes (or `nopass` when there are none), the command rules
/// (or `nocommands`), the key patterns (or `allkeys`), the channel patterns
/// (or `resetchannels`), then the selectors.
pub open spec fn setuser_rules(
    username: Seq<char>,
    enabled: bool,
    hashes: Seq<Seq<char>>,
    commands: Seq<Seq<char>>,
    keys: Seq<Seq<char>>,
    channels: Seq<Seq<char>>,
    selectors: Seq<Seq<char>>,
) -> Result<Seq<RuleSpec>, AclError> {
    let head = seq![RuleSpec::Reset, if enabled { RuleSpec::On } else { RuleSpec::Off }]
        + password_section(hashes) + command_section(commands) + key_section(keys)
        + channel_section(channels);
    match selectors_rules(selectors) {
        Err(e) => Err(e),
        Ok(sr) => Ok(head + sr),
    }
}

pub open spec fn param_rules(param: AclSetuserParam) -> Result<Seq<RuleSpec>, AclError> {
    setuser_rules(
        param.username@,
        param.enabled,
        param.password_hashes.deep_view(),
        param.command_rules.deep_view(),
        param.key_patterns.deep_view(),
        param.channel_patterns.deep_view(),
        param.selectors.deep_view(),
    )
}

proof fn lemma_push_view(old: Seq<AclRule>, new: Seq<AclRule>, x: AclRule)
    requires
        new == old.push(x),
    ensures
        rules_view(new) == rules_view(old).push(rule_view(x)),
{
    assert(new.drop_last() =~= old);
}

fn push_rule(rules: &mut Vec<AclRule>, x: AclRule)
    ensures
        rules_view(final(rules)@) == rules_view(old(rules)@).push(rule_view(x)),
{
    let ghost before = rules@;
    let ghost xv = rule_view(x);
    rules.push(x);
    proof {
        lemma_push_view(before, rules@, x);
    }
}

fn push_password_rules(rules: &mut Vec<AclRule>, hashes: &Vec<String>)
    ensures
        rules_view(final(rules)@) == rules_view(old(rules)@) + password_section(hashes.deep_view()),
{
    let ghost hs = hashes.deep_view();
    let ghost base = rules_view(rules@);
    if hashes.len() == 0 {
        push_rule(rules, AclRule::NoPass);
        assert(rules_view(rules@) =~= base + password_section(hs));
    } else {
        let mut i: usize = 0;
        assert(base + hashed_pass_rules(hs).take(0) =~= base);
        while i < hashes.len()
            invariant
                i <= hashes@.len(),
                hs == hashes.deep_view(),
                rules_view(rules@) == base + hashed_pass_rules(hs).take(i as int),
            decreases hashes@.len() - i,
        {
            let h = hashes[i].clone();
            push_rule(rules, AclRule::AddHashedPass(h));
            i += 1;
            assert(rules_view(rules@) =~= base + hashed_pass_rules(hs).take(i as int));
        }
        assert(hashed_pass_rules(hs).take(i as int) =~= hashed_pass_rules(hs));
    }
}

fn push_command_rules(rules: &mut Vec<AclRule>, texts: &Vec<String>)
    ensures
        rules_view(final(rules)@) == rules_view(old(rules)@) + command_section(texts.deep_view()),
{
    let ghost cs = texts.deep_view();
    let ghost base = rules_view(rules@);
    if texts.len() == 0 {
        push_rule(rules, AclRule::NoCommands);
        assert(rules_view(rules@) =~= base + command_section(cs));
    } else {
        let mut i: usize = 0;
        assert(base + command_rules_of(cs).take(0) =~= base);
        while i < texts.len()
            invariant
                i <= texts@.len(),
                cs == texts.deep_view(),
                rules_view(rules@) == base + command_rules_of(cs).take(i as int),
            decreases texts@.len() - i,
        {
            let x = acl_rule_from_text(texts[i].as_str());
            push_rule(rules, x);
            i += 1;
            assert(rules_view(rules@) =~= base + command_rules_of(cs).take(i as int));
        }
        assert(command_rules_of(cs).take(i as int) =~= command_rules_of(cs));
    }
}

fn push_key_rules(rules: &mut Vec<AclRule>, texts: &Vec<String>)
    ensures
        rules_view(final(rules)@) == rules_view(old(rules)@) + key_section(texts.deep_view()),
{
    let ghost ks = texts.deep_view();
    let ghost base = rules_view(rules@);
    if texts.len() == 0 {
        push_rule(rules, AclRule::AllKeys);
        assert(rules_view(rules@) =~= base + key_section(ks));
    } else {
        let mut i: usize = 0;
        assert(base + key_rules_of(ks).take(0) =~= base);
        while i < texts.len()
            invariant
                i <= texts@.len(),
                ks == texts.deep_view(),
                rules_view(rules@) == base + key_rules_of(ks).take(i as int),
            decreases texts@.len() - i,
        {
            let x = acl_key_rule_from_text(texts[i].as_str());
            push_rule(rules, x);
            i += 1;
            assert(rules_view(rules@) =~= base + key_rules_of(ks).take(i as int));
        }
        assert(key_rules_of(ks).take(i as int) =~= key_rules_of(ks));
    }
}

fn push_channel_rules(rules: &mut Vec<AclRule>, texts: &Vec<String>)
    ensures
        rules_view(final(rules)@) == rules_view(old(rules)@) + channel_section(texts.deep_view()),
{
    let ghost chs = texts.deep_view();
    let ghost base = rules_view(rules@);
    if texts.len() == 0 {
        push_rule(rules, AclRule::ResetChannels);
        assert(rules_view(rules@) =~= base + channel_section(chs));
    } else {
        let mut i: usize = 0;
        assert(base + channel_rules_of(chs).take(0) =~= base);
        while i < texts.len()
            invariant
                i <= texts@.len(),
                chs == texts.deep_view(),
                rules_view(rules@) == base + channel_rules_of(chs).take(i as int),
            decreases texts@.len() - i,
        {
            let x = acl_channel_rule_from_text(texts[i].as_str());
            push_rule(rules, x);
            i += 1;
            assert(rules_view(rules@) =~= base + channel_rules_of(chs).take(i as int));
        }
        assert(channel_rules_of(chs).take(i as int) =~= channel_rules_of(chs));
    }
}

fn push_selector_rules(rules: &mut Vec<AclRule>, selectors: &Vec<String>) -> (r: Result<(), AclError>)
    ensures
        match selectors_rules(selectors.deep_view()) {
            Ok(sr) => r is Ok && rules_view(final(rules)@) == rules_view(old(rules)@) + sr,
            Err(e) => r == Err::<(), AclError>(e),
        },
{
    let ghost head = rules_view(rules@);
    let ghost ss = selectors.deep_view();
    let mut i: usize = 0;
    assert(ss.take(0) =~= Seq::<Seq<char>>::empty());
    assert(head + Seq::<RuleSpec>::empty() =~= head);
    while i < selectors.len()
        invariant
            i <= selectors@.len(),
            ss == selectors.deep_view(),
            selectors_rules(ss.take(i as int)) matches Ok(sr) && rules_view(rules@) == head + sr,
        decreases selectors@.len() - i,
    {
        let ghost prev = selectors_rules(ss.take(i as int));
        assert(ss.take(i + 1).drop_last() =~= ss.take(i as int));
        assert(ss.take(i + 1).last() == selectors@[i as int]@);
        let w = str_to_chars(selectors[i].as_str());
        let t = trim_chars(w.as_slice());
        if t.len() > 0 {
            let ts = chars_to_string(t.as_slice());
            proof {
                lemma_trim_idempotent(w@);
            }
            match acl_selector_from_text(ts.as_str()) {
                Ok(x) => {
                    let ghost sr = prev->Ok_0;
                    push_rule(rules, x);
                    assert(head + sr.push(rule_view(x)) =~= (head + sr).push(rule_view(x)));
                },
                Err(e) => {
                    proof {
                        lemma_selectors_error_stays(ss, i as int + 1);
                    }
                    return Err(e);
                },
            }
        }
        i += 1;
    }
    assert(ss.take(i as int) =~= ss);
    Ok(())
}

/// The rules that `ACL SETUSER` gets for the form.
pub fn acl_build_rules(param: &AclSetuserParam) -> (r: Result<Vec<AclRule>, AclError>)
    ensures
        match param_rules(*param) {
            Ok(rs) => r matches Ok(v) && rules_view(v@) == rs,
            Err(e) => r == Err::<Vec<AclRule>, AclError>(e),
        },
{
    let mut rules: Vec<AclRule> = Vec::new();
    push_rule(&mut rules, AclRule::Reset);
    push_rule(&mut rules, if param.enabled { AclRule::On } else { AclRule::Off });
    let ghost h0 = seq![RuleSpec::Reset, if param.enabled { RuleSpec::On } else { RuleSpec::Off }];
    assert(rules_view(rules@) =~= h0);
    push_password_rules(&mut rules, &param.password_hashes);
    push_command_rules(&mut rules, &param.command_rules);
    push_key_rules(&mut rules, &param.key_patterns);
    push_channel_rules(&mut rules, &param.channel_patterns);
    let ghost head = rules_view(rules@);
    match push_selector_rules(&mut rules, &param.selectors) {
        Ok(()) => {
            Ok(rules)
        },
        Err(e) => Err(e),
    }
}

proof fn lemma_selectors_error_stays(sels: Seq<Seq<char>>, n: int)
    requires
        0 <= n <= sels.len(),
        selectors_rules(sels.take(n)) is Err,
    ensures
        selectors_rules(sels) == selectors_rules(sels.take(n)),
    decreases sels.len() - n,
{
    if n < sels.len() {
        assert(sels.take(n + 1).drop_last() =~= sels.take(n));
        lemma_selectors_error_stays(sels, n + 1);
    } else {
        assert(sels.take(n) =~= sels);
    }
}

/// The arguments of `ACL` that create or update the user: `SETUSER`, the
/// user name, then one argument per rule.
pub fn build_acl_setuser_cmd(param: &AclSetuserParam) -> (r: Result<Vec<String>, AclError>)
    ensures
        match param_rules(*param) {
            Ok(rs) => r matches Ok(v) && v.deep_view() == seq!["SETUSER"@, param.username@]
                + Seq::new(rs.len(), |i: int| setuser_arg(rs[i])),
            Err(e) => r == Err::<Vec<String>, AclError>(e),
        },
{
    let rules = match acl_build_rules(param) {
        Ok(rules) => rules,
        Err(e) => {
            return Err(e);
        },
    };
    let ghost rs = rules_view(rules@);
    proof {
        lemma_rules_view(rules@);
    }
    let mut args: Vec<String> = Vec::new();
    args.push(literal("SETUSER"));
    args.push(param.username.clone());
    let ghost head = seq!["SETUSER"@, param.username@];
    let mut i: usize = 0;
    while i < rules.len()
        invariant
            i <= rules@.len(),
            rs == rules_view(rules@),
            rs.len() == rules@.len(),
            forall|k: int| 0 <= k < rules@.len() ==> #[trigger] rs[k] == rule_view(rules@[k]),
            args@.len() == 2 + i,
            args@[0]@ == "SETUSER"@,
            args@[1]@ == param.username@,
            forall|k: int| 0 <= k < i ==> #[trigger] args@[k + 2]@ == setuser_arg(rs[k]),
        decreases rules@.len() - i,
    {
        let a = acl_rule_to_setuser_arg(&rules[i]);
        let ghost before = args@;
        args.push(a);
        proof {
            assert forall|k: int| 0 <= k < i + 1 implies #[trigger] args@[k + 2]@ == setuser_arg(rs[k]) by {
                if k < i {
                    assert(args@[k + 2] == before[k + 2]);
                }
            }
        }
        i += 1;
    }
    proof {
        let want = head + Seq::new(i as nat, |k: int| setuser_arg(rs[k]));
        assert forall|k: int| 0 <= k < args@.len() implies #[trigger] args.deep_view()[k] == want[k] by {
            if k >= 2 {
                assert(args@[(k - 2) + 2]@ == setuser_arg(rs[k - 2]));
            }
        }
        assert(args.deep_view() =~= want);
    }
    Ok(args)
}

} // verus!
