//! A key, or one entry of it, written as the redis-cli commands that
//! recreate it ("copy as command" and the command export format).
use vstd::prelude::*;
use crate::cli_format::{command_line, quoted, quoted_words, quoted_pair_words, scored_member_words,
    word_set, word_expire, word_hmset, word_hset, word_rpush, word_sadd, word_zadd, word_xadd, word_json_set,
    format_set_command, format_expire_command, format_hmset_command, format_hset_command, format_rpush_command,
    format_sadd_command, format_zadd_command, format_xadd_command, format_json_set_command};
use crate::text::{push_string, push_str, push_char, decimal_int};

verus! {

/// The contents of a key, as read to copy it as commands.
#[derive(Debug)]
pub enum KeyContent {
    String(Vec<u8>),
    /// Field and value pairs.
    Hash(Vec<(Vec<u8>, Vec<u8>)>),
    /// Elements from head to tail.
    List(Vec<Vec<u8>>),
    SetOf(Vec<Vec<u8>>),
    /// Members with their scores, the score as the text it is written with.
    ZSet(Vec<(Vec<u8>, String)>),
    /// Entries in order, each an id and its field and value pairs.
    Stream(Vec<(Vec<u8>, Vec<(Vec<u8>, Vec<u8>)>)>),
    /// The JSON document; empty when there is none.
    Json(Vec<u8>),
}

/// The `XADD` line of one stream entry.
pub open spec fn xadd_line(key: Seq<u8>, id: Seq<u8>, fields: Seq<(Seq<u8>, Seq<u8>)>) -> Seq<char> {
    command_line(word_xadd(), seq![quoted(key), quoted(id)] + quoted_pair_words(fields))
}

/// The command lines that recreate a key: `SET` for a string, one `HMSET`,
/// `RPUSH`, `SADD` or `ZADD` for a non-empty hash, list, set or sorted set,
/// one `XADD` per stream entry, and `JSON.SET key $ doc` for a non-empty
/// JSON document.
pub open spec fn content_lines(key: Seq<u8>, c: KeyContent) -> Seq<Seq<char>> {
    match c {
        KeyContent::String(v) => seq![command_line(word_set(), seq![quoted(key), quoted(v@)])],
        KeyContent::Hash(p) => if p@.len() == 0 {
            Seq::empty()
        } else {
            seq![command_line(word_hmset(), seq![quoted(key)] + quoted_pair_words(p.deep_view()))]
        },
        KeyContent::List(items) => if items@.len() == 0 {
            Seq::empty()
        } else {
            seq![command_line(word_rpush(), seq![quoted(key)] + quoted_words(items.deep_view()))]
        },
        KeyContent::SetOf(items) => if items@.len() == 0 {
            Seq::empty()
        } else {
            seq![command_line(word_sadd(), seq![quoted(key)] + quoted_words(items.deep_view()))]
        },
        KeyContent::ZSet(p) => if p@.len() == 0 {
            Seq::empty()
        } else {
            seq![command_line(word_zadd(), seq![quoted(key)] + scored_member_words(p.deep_view()))]
        },
        KeyContent::Stream(es) => Seq::new(
            es@.len(),
            |i: int| xadd_line(key, es@[i].0@, es@[i].1.deep_view()),
        ),
        KeyContent::Json(b) => if b@.len() == 0 {
            Seq::empty()
        } else {
            seq![command_line(word_json_set(), seq![quoted(key), seq!['$'], quoted(b@)])]
        },
    }
}

/// Lines joined with `\n`.
pub open spec fn join_lines(lines: Seq<Seq<char>>) -> Seq<char>
    decreases lines.len(),
{
    if lines.len() == 0 {
        Seq::empty()
    } else if lines.len() == 1 {
        lines[0]
    } else {
        join_lines(lines.drop_last()) + seq!['\n'] + lines.last()
    }
}

fn one_line(s: String) -> (r: Vec<String>)
    ensures
        r.deep_view() == seq![s@],
{
    let mut v: Vec<String> = Vec::new();
    push_string(&mut v, s);
    assert(v.deep_view() =~= seq![s@]);
    v
}

fn optional_line(s: Option<String>) -> (r: Vec<String>)
    ensures
        s is None ==> r.deep_view() == Seq::<Seq<char>>::empty(),
        s matches Some(x) ==> r.deep_view() == seq![x@],
{
    match s {
        Some(x) => one_line(x),
        None => {
            let v: Vec<String> = Vec::new();
            assert(v.deep_view() =~= Seq::<Seq<char>>::empty());
            v
        },
    }
}

/// The command lines that recreate a key with these contents.
pub fn key_as_command_lines(key: &[u8], content: &KeyContent) -> (r: Vec<String>)
    ensures
        r.deep_view() == content_lines(key@, *content),
{
    match content {
        KeyContent::String(v) => one_line(format_set_command(key, v.as_slice())),
        KeyContent::Hash(p) => optional_line(format_hmset_command(key, p.as_slice())),
        KeyContent::List(items) => optional_line(format_rpush_command(key, items.as_slice())),
        KeyContent::SetOf(items) => optional_line(format_sadd_command(key, items.as_slice())),
        KeyContent::ZSet(p) => optional_line(format_zadd_command(key, p.as_slice())),
        KeyContent::Json(b) => {
            if b.len() == 0 {
                optional_line(None)
            } else {
                one_line(format_json_set_command(key, b.as_slice()))
            }
        },
        KeyContent::Stream(es) => {
            let mut out: Vec<String> = Vec::new();
            let mut i: usize = 0;
            while i < es.len()
                invariant
                    i <= es@.len(),
                    out.deep_view() == Seq::new(
                        i as nat,
                        |k: int| xadd_line(key@, es@[k].0@, es@[k].1.deep_view()),
                    ),
                decreases es@.len() - i,
            {
                let line = format_xadd_command(key, es[i].0.as_slice(), es[i].1.as_slice());
                let ghost before = out.deep_view();
                push_string(&mut out, line);
                i += 1;
                assert(out.deep_view() =~= Seq::new(
                    i as nat,
                    |k: int| xadd_line(key@, es@[k].0@, es@[k].1.deep_view()),
                ));
            }
            out
        },
    }
}

/// Lines joined with `\n`.
pub fn join_with_newlines(lines: &Vec<String>) -> (r: String)
    ensures
        r@ == join_lines(lines.deep_view()),
{
    let ghost lv = lines.deep_view();
    let mut s = String::new();
    let mut i: usize = 0;
    assert(lv.take(0) =~= Seq::<Seq<char>>::empty());
    while i < lines.len()
        invariant
            i <= lines@.len(),
            lv == lines.deep_view(),
            s@ == join_lines(lv.take(i as int)),
        decreases lines@.len() - i,
    {
        proof {
            assert(lv.take(i + 1).drop_last() =~= lv.take(i as int));
            assert(lv.take(i + 1).last() == lines@[i as int]@);
        }
        if i > 0 {
            push_char(&mut s, '\n');
        }
        push_str(&mut s, lines[i].as_str());
        i += 1;
        proof {
            if i == 1 {
                assert(lv.take(1)[0] == lv[0]);
            }
        }
        assert(s@ =~= join_lines(lv.take(i as int)));
    }
    assert(lv.take(i as int) =~= lv);
    s
}

/// The commands that recreate a key, one per line.
pub fn key_as_command_text(key: &[u8], content: &KeyContent) -> (r: String)
    ensures
        r@ == join_lines(content_lines(key@, *content)),
{
    let lines = key_as_command_lines(key, content);
    join_with_newlines(&lines)
}

/// One entry of a key, as read to copy it as a command.
#[derive(Debug)]
pub enum FieldContent {
    /// A hash field and its value.
    HashField(Vec<u8>, Vec<u8>),
    /// A list element.
    ListItem(Vec<u8>),
    /// A set member.
    SetMember(Vec<u8>),
    /// A sorted set member and its score as text.
    ZSetMember(Vec<u8>, String),
    /// A stream entry: its id and its field and value pairs.
    StreamEntry(Vec<u8>, Vec<(Vec<u8>, Vec<u8>)>),
}

/// The command that recreates one entry of a key: `HSET`, or `RPUSH`,
/// `SADD`, `ZADD` with the one element, or `XADD`.
pub open spec fn field_line(key: Seq<u8>, f: FieldContent) -> Seq<char> {
    match f {
        FieldContent::HashField(k, v) => command_line(word_hset(), seq![quoted(key), quoted(k@), quoted(v@)]),
        FieldContent::ListItem(v) => command_line(word_rpush(), seq![quoted(key), quoted(v@)]),
        FieldContent::SetMember(m) => command_line(word_sadd(), seq![quoted(key), quoted(m@)]),
        FieldContent::ZSetMember(m, score) => command_line(
            word_zadd(),
            seq![quoted(key), score@, quoted(m@)],
        ),
        FieldContent::StreamEntry(id, fields) => xadd_line(key, id@, fields.deep_view()),
    }
}

fn single_bytes(v: Vec<u8>) -> (r: Vec<Vec<u8>>)
    ensures
        r.deep_view() == seq![v@],
{
    let ghost vv = v@;
    let mut r: Vec<Vec<u8>> = Vec::new();
    r.push(v);
    proof {
        assert(r@[0]@ == vv);
        assert(r@[0].deep_view() =~= vv);
        assert(r.deep_view() =~= seq![vv]);
    }
    r
}

proof fn lemma_quoted_single(v: Seq<u8>)
    ensures
        quoted_words(seq![v]) == seq![quoted(v)],
{
    assert(seq![v].drop_last() =~= Seq::<Seq<u8>>::empty());
    assert(seq![v].last() == v);
    assert(quoted_words(Seq::<Seq<u8>>::empty()) == Seq::<Seq<char>>::empty());
    assert(Seq::<Seq<char>>::empty() + seq![quoted(v)] =~= seq![quoted(v)]);
}

/// The command that recreates one entry of a key.
pub fn field_as_command(key: &[u8], field: FieldContent) -> (r: String)
    ensures
        r@ == field_line(key@, field),
{
    let ghost f0 = field;
    match field {
        FieldContent::HashField(k, v) => format_hset_command(key, k.as_slice(), v.as_slice()),
        FieldContent::ListItem(v) => {
            let ghost vv = v@;
            let items = single_bytes(v);
            proof {
                lemma_quoted_single(vv);
            }
            let r = format_rpush_command(key, items.as_slice());
            assert(seq![quoted(key@)] + seq![quoted(vv)] =~= seq![quoted(key@), quoted(vv)]);
            r.unwrap()
        },
        FieldContent::SetMember(m) => {
            let ghost mv = m@;
            let items = single_bytes(m);
            proof {
                lemma_quoted_single(mv);
            }
            let r = format_sadd_command(key, items.as_slice());
            assert(seq![quoted(key@)] + seq![quoted(mv)] =~= seq![quoted(key@), quoted(mv)]);
            r.unwrap()
        },
        FieldContent::ZSetMember(m, score) => {
            let ghost mv = m@;
            let ghost sv = score@;
            let mut items: Vec<(Vec<u8>, String)> = Vec::new();
            items.push((m, score));
            proof {
                assert(items@[0].0@ == mv);
                assert(items@[0].0.deep_view() =~= mv);
                assert(items.deep_view()[0] == (mv, sv));
                assert(items.deep_view() =~= seq![(mv, sv)]);
                let one = seq![(mv, sv)];
                assert(one.drop_last() =~= Seq::<(Seq<u8>, Seq<char>)>::empty());
                assert(one.last() == (mv, sv));
                assert(scored_member_words(Seq::<(Seq<u8>, Seq<char>)>::empty()) == Seq::<Seq<char>>::empty());
                assert(scored_member_words(one) =~= seq![sv, quoted(mv)]);
            }
            let r = format_zadd_command(key, items.as_slice());
            assert(seq![quoted(key@)] + seq![sv, quoted(mv)] =~= seq![quoted(key@), sv, quoted(mv)]);
            r.unwrap()
        },
        FieldContent::StreamEntry(id, fields) => format_xadd_command(key, id.as_slice(), fields.as_slice()),
    }
}

/// The lines the command export writes for a key: its commands, then an
/// `EXPIRE` with its TTL when it has a positive one; nothing for a key
/// without commands.
pub open spec fn export_command_lines_of(key: Seq<u8>, c: KeyContent, ttl: Option<i64>) -> Seq<Seq<char>> {
    let lines = content_lines(key, c);
    if lines.len() == 0 {
        lines
    } else {
        match ttl {
            Some(t) => if t > 0 {
                lines.push(command_line(word_expire(), seq![quoted(key), decimal_int(t as int)]))
            } else {
                lines
            },
            None => lines,
        }
    }
}

/// The lines the command export writes for a key, given its TTL when the
/// export keeps TTLs.
pub fn export_command_lines(key: &[u8], content: &KeyContent, ttl: Option<i64>) -> (r: Vec<String>)
    ensures
        r.deep_view() == export_command_lines_of(key@, *content, ttl),
{
    let mut lines = key_as_command_lines(key, content);
    if lines.len() == 0 {
        return lines;
    }
    match ttl {
        Some(t) => {
            if t > 0 {
                push_string(&mut lines, format_expire_command(key, t));
            }
        },
        None => {},
    }
    lines
}

} // verus!
