//! The commands that copy or export a key split back, line by line, into
//! the arguments that recreate it.
use vstd::prelude::*;
use vstd::utf8::*;
use crate::cli_args::parse_args;
use crate::cli_format::{word_set, word_expire, word_hmset, word_rpush, word_sadd, word_zadd, word_xadd,
    word_json_set};
use crate::cli_roundtrip::{ascii_bytes, plain_word, pair_args, scored_member_args, law_set_command_splits,
    law_hmset_command_splits, law_items_command_splits, law_zadd_command_splits, law_xadd_command_splits,
    law_json_set_command_splits, law_expire_command_splits};
use crate::key_commands::{KeyContent, content_lines, export_command_lines_of};
use crate::text::decimal_int;

verus! {

/// The arguments of each command that recreates a key, line by line.
pub open spec fn content_args(key: Seq<u8>, c: KeyContent) -> Seq<Seq<Seq<u8>>> {
    match c {
        KeyContent::String(v) => seq![seq![ascii_bytes(word_set()), key, v@]],
        KeyContent::Hash(p) => if p@.len() == 0 {
            Seq::empty()
        } else {
            seq![seq![ascii_bytes(word_hmset()), key] + pair_args(p.deep_view())]
        },
        KeyContent::List(items) => if items@.len() == 0 {
            Seq::empty()
        } else {
            seq![seq![ascii_bytes(word_rpush()), key] + items.deep_view()]
        },
        KeyContent::SetOf(items) => if items@.len() == 0 {
            Seq::empty()
        } else {
            seq![seq![ascii_bytes(word_sadd()), key] + items.deep_view()]
        },
        KeyContent::ZSet(p) => if p@.len() == 0 {
            Seq::empty()
        } else {
            seq![seq![ascii_bytes(word_zadd()), key] + scored_member_args(p.deep_view())]
        },
        KeyContent::Stream(es) => Seq::new(
            es@.len(),
            |i: int| seq![ascii_bytes(word_xadd()), key, es@[i].0@] + pair_args(es@[i].1.deep_view()),
        ),
        KeyContent::Json(b) => if b@.len() == 0 {
            Seq::empty()
        } else {
            seq![seq![ascii_bytes(word_json_set()), key, seq![0x24u8], b@]]
        },
    }
}

/// The arguments of each line of the command export of a key: its commands,
/// then `EXPIRE key ttl` when it has commands and a positive TTL.
pub open spec fn export_command_args(key: Seq<u8>, c: KeyContent, ttl: Option<i64>) -> Seq<Seq<Seq<u8>>> {
    let args = content_args(key, c);
    if args.len() == 0 {
        args
    } else {
        match ttl {
            Some(t) => if t > 0 {
                args.push(seq![ascii_bytes(word_expire()), key, ascii_bytes(decimal_int(t as int))])
            } else {
                args
            },
            None => args,
        }
    }
}

/// Whether the scores of a sorted set are each written as one plain word
/// (as the decimal text of a number is).
pub open spec fn scores_plain(c: KeyContent) -> bool {
    match c {
        KeyContent::ZSet(p) => forall|i: int| 0 <= i < p.deep_view().len() ==> plain_word(#[trigger] p.deep_view()[i].1),
        _ => true,
    }
}

/// Every line that copies a key as commands splits back (as redis-cli
/// splits its input) into the command's name, the key and the key's
/// contents, when sorted-set scores are plain words.
pub proof fn law_key_commands_split(key: Seq<u8>, c: KeyContent)
    requires
        scores_plain(c),
    ensures
        content_lines(key, c).len() == content_args(key, c).len(),
        forall|i: int| 0 <= i < content_lines(key, c).len() ==> parse_args(encode_utf8(#[trigger] content_lines(key, c)[i]))
            == Some(content_args(key, c)[i]),
{
    match c {
        KeyContent::String(v) => {
            law_set_command_splits(key, v@);
        },
        KeyContent::Hash(p) => {
            law_hmset_command_splits(key, p.deep_view());
        },
        KeyContent::List(items) => {
            law_items_command_splits(word_rpush(), key, items.deep_view());
        },
        KeyContent::SetOf(items) => {
            law_items_command_splits(word_sadd(), key, items.deep_view());
        },
        KeyContent::ZSet(p) => {
            law_zadd_command_splits(key, p.deep_view());
        },
        KeyContent::Stream(es) => {
            assert forall|i: int| 0 <= i < content_lines(key, c).len() implies parse_args(
                encode_utf8(#[trigger] content_lines(key, c)[i]),
            ) == Some(content_args(key, c)[i]) by {
                law_xadd_command_splits(key, es@[i].0@, es@[i].1.deep_view());
            }
        },
        KeyContent::Json(b) => {
            law_json_set_command_splits(key, b@);
        },
    }
}

/// Every line of the command export of a key splits back into its
/// arguments, the `EXPIRE` line included, when sorted-set scores are plain
/// words.
pub proof fn law_export_commands_split(key: Seq<u8>, c: KeyContent, ttl: Option<i64>)
    requires
        scores_plain(c),
    ensures
        export_command_lines_of(key, c, ttl).len() == export_command_args(key, c, ttl).len(),
        forall|i: int| 0 <= i < export_command_lines_of(key, c, ttl).len() ==> parse_args(
            encode_utf8(#[trigger] export_command_lines_of(key, c, ttl)[i]),
        ) == Some(export_command_args(key, c, ttl)[i]),
{
    law_key_commands_split(key, c);
    match ttl {
        Some(t) => {
            law_expire_command_splits(key, t as int);
        },
        None => {},
    }
    let lines = export_command_lines_of(key, c, ttl);
    let args = export_command_args(key, c, ttl);
    assert forall|i: int| 0 <= i < lines.len() implies parse_args(encode_utf8(#[trigger] lines[i]))
        == Some(args[i]) by {
        if i < content_lines(key, c).len() {
            assert(lines[i] == content_lines(key, c)[i]);
            assert(args[i] == content_args(key, c)[i]);
        }
    }
}

} // verus!
