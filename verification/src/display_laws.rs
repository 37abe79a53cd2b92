//! Laws of the terminal rendering of map replies: how a map's raw and TTY
//! forms are made of the forms of its keys and values.
use vstd::prelude::*;
use crate::cli_display::{CliValue, raw_text, tty_text, is_multiline, child_prefix, index_width,
    cli_display_text};
use crate::model::CliOutputMode;

verus! {

/// In raw mode a one-pair map is its key's raw text, one space and its
/// value's raw text.
pub proof fn law_raw_map_single_pair(m: Vec<(CliValue, CliValue)>, k: CliValue, v: CliValue, cmd: Seq<char>, args: Seq<Seq<u8>>)
    requires
        m@ == seq![(k, v)],
    ensures
        raw_text(CliValue::MapOf(m)) == raw_text(k) + " "@ + raw_text(v),
        cli_display_text(CliValue::MapOf(m), Some(CliOutputMode::Raw), cmd, args) == raw_text(k) + " "@
            + raw_text(v),
{
    assert(m@[0] == (k, v));
    assert(m@.len() == 1);
    assert(raw_text(CliValue::MapOf(m)) == crate::cli_display::raw_map_join(m@, 1));
}

/// In raw mode, one more pair at the end of a non-empty map adds a line:
/// a newline, the pair's key, one space and its value.
pub proof fn law_raw_map_next_pair(
    m: Vec<(CliValue, CliValue)>,
    longer: Vec<(CliValue, CliValue)>,
    k: CliValue,
    v: CliValue,
    cmd: Seq<char>,
    args: Seq<Seq<u8>>,
)
    requires
        m@.len() > 0,
        longer@ == m@.push((k, v)),
    ensures
        raw_text(CliValue::MapOf(longer)) == raw_text(CliValue::MapOf(m)) + "\n"@ + raw_text(k) + " "@
            + raw_text(v),
        cli_display_text(CliValue::MapOf(longer), Some(CliOutputMode::Raw), cmd, args) == cli_display_text(
            CliValue::MapOf(m),
            Some(CliOutputMode::Raw),
            cmd,
            args,
        ) + "\n"@ + raw_text(k) + " "@ + raw_text(v),
{
    lemma_raw_map_join_prefix(m@, longer@, m@.len() as int);
    let n = longer@.len() as int;
    assert(longer@[n - 1] == (k, v));
    assert(n > 1);
    assert(raw_text(CliValue::MapOf(longer)) == crate::cli_display::raw_map_join(longer@, n));
    assert(raw_text(CliValue::MapOf(m)) == crate::cli_display::raw_map_join(m@, n - 1));
    assert(crate::cli_display::raw_map_join(longer@, n) == crate::cli_display::raw_map_join(longer@, n - 1) + "\n"@
        + raw_text(k) + " "@ + raw_text(v));
}

proof fn lemma_raw_map_join_prefix(a: Seq<(CliValue, CliValue)>, b: Seq<(CliValue, CliValue)>, n: int)
    requires
        0 <= n <= a.len(),
        a.len() <= b.len(),
        forall|i: int| 0 <= i < a.len() ==> a[i] == b[i],
    ensures
        crate::cli_display::raw_map_join(a, n) == crate::cli_display::raw_map_join(b, n),
    decreases n,
{
    if n > 1 {
        lemma_raw_map_join_prefix(a, b, n - 1);
    }
}

/// In the TTY form, the text of a map ends with its last pair's value:
/// after ` => ` comes, when that value spans several lines, a newline and
/// the nested prefix (so the value starts on a line of its own, aligned
/// with its other lines), and then the value's own TTY text at that
/// prefix; when it spans one line, the value's text follows ` => ` at once.
pub proof fn law_tty_map_last_value(m: Vec<(CliValue, CliValue)>, prefix: Seq<char>)
    requires
        m@.len() > 0,
    ensures
        ({
            let t = tty_text(CliValue::MapOf(m), prefix);
            let v = m@.last().1;
            let nested = child_prefix(prefix, index_width(m@.len()));
            let tail = " => "@ + (if is_multiline(v) {
                seq!['\n'] + nested
            } else {
                Seq::empty()
            }) + tty_text(v, nested);
            t.len() >= tail.len() && t.subrange(t.len() - tail.len(), t.len() as int) == tail
        }),
{
    let t = tty_text(CliValue::MapOf(m), prefix);
    let v = m@.last().1;
    let n = m@.len() as int;
    let nested = child_prefix(prefix, index_width(m@.len()));
    let tail = " => "@ + (if is_multiline(v) {
        seq!['\n'] + nested
    } else {
        Seq::empty()
    }) + tty_text(v, nested);
    let head = crate::cli_display::tty_map_entries(m@, n - 1, prefix) + crate::cli_display::index_line(
        if n - 1 == 0 {
            Seq::empty()
        } else {
            prefix
        },
        n as nat,
        '#',
        index_width(m@.len()),
    ) + crate::text::strip_newline(tty_text(m@[n - 1].0, nested));
    assert(m@[n - 1].1 == v);
    assert(t == crate::cli_display::tty_map_entries(m@, n, prefix));
    let a = crate::cli_display::tty_map_entries(m@, n - 1, prefix);
    let b = crate::cli_display::index_line(
        if n - 1 == 0 {
            Seq::empty()
        } else {
            prefix
        },
        n as nat,
        '#',
        index_width(m@.len()),
    );
    let c = crate::text::strip_newline(tty_text(m@[n - 1].0, nested));
    let d = if is_multiline(v) {
        seq!['\n'] + nested
    } else {
        Seq::empty()
    };
    let e = tty_text(v, nested);
    assert(crate::cli_display::tty_map_entries(m@, n, prefix) == a + b + c + " => "@ + d + e);
    assert(head == a + b + c);
    assert(tail == " => "@ + d + e);
    assert(a + b + c + " => "@ + d + e =~= (a + b + c) + (" => "@ + d + e));
    assert(t =~= head + tail);
    assert(t.subrange(t.len() - tail.len(), t.len() as int) =~= tail);
}

/// In the TTY form a one-pair map whose value spans several lines puts
/// that value on its own line: the text after ` => ` is a newline and the
/// nested prefix, then the value's TTY text.
pub proof fn law_tty_map_multiline_value_on_new_line(m: Vec<(CliValue, CliValue)>, k: CliValue, v: CliValue, prefix: Seq<char>)
    requires
        m@ == seq![(k, v)],
        is_multiline(v),
    ensures
        ({
            let t = tty_text(CliValue::MapOf(m), prefix);
            let nested = child_prefix(prefix, index_width(1));
            let tail = " => \n"@ + nested + tty_text(v, nested);
            t.len() >= tail.len() && t.subrange(t.len() - tail.len(), t.len() as int) == tail
        }),
{
    law_tty_map_last_value(m, prefix);
    let nested = child_prefix(prefix, index_width(1));
    assert(" => "@ + (seq!['\n'] + nested) + tty_text(v, nested) =~= " => \n"@ + nested + tty_text(v, nested)) by {
        reveal_strlit(" => ");
        reveal_strlit(" => \n");
    }
}

} // verus!
