//! How the value view pages through a key: the `LRANGE` and `XREVRANGE`
//! windows, what a page keeps and where the next one starts, the batch size
//! of field scans and when they stop, and the patterns of a subscription.
use vstd::prelude::*;
use crate::text::{words, split_whitespace, str_to_chars, push_str, push_string};

verus! {

/// The `LRANGE` bounds of a page of a list: from the cursor to
/// `cursor + count` inclusive (one element more than a page, which tells
/// whether more follow), or to the end (`-1`) when the whole list is read.
pub fn list_page_range(now_cursor: u64, count: u64, load_all: bool) -> (r: (isize, isize))
    requires
        now_cursor + count <= u64::MAX,
    ensures
        r.0 == now_cursor as isize,
        r.1 == if load_all {
            -1isize
        } else {
            (now_cursor + count) as isize
        },
{
    let end: isize = if load_all {
        -1
    } else {
        (now_cursor + count) as isize
    };
    (now_cursor as isize, end)
}

/// What a page of a list keeps: when more than `count` elements came and
/// the list is paged, the first `count` and the cursor moves by `count`;
/// otherwise all of them, and the list is done.
pub fn list_page_after(got: usize, count: u64, load_all: bool, now_cursor: u64) -> (r: (usize, bool, u64))
    requires
        now_cursor + count <= u64::MAX,
    ensures
        !load_all && got > count ==> r.0 == count && !r.1 && r.2 == now_cursor + count,
        !(!load_all && got > count) ==> r.0 == got && r.1 && r.2 == now_cursor,
{
    if !load_all && got as u64 > count {
        (count as usize, false, now_cursor + count)
    } else {
        (got, true, now_cursor)
    }
}

/// The arguments of the `XREVRANGE` of a stream page: the upper end, the
/// lower end and the `COUNT`, if any.
#[derive(Debug)]
pub struct StreamWindow {
    pub end: String,
    pub start: String,
    pub count: Option<u64>,
}

/// The window of a stream page, newest first: from the cursor (or the
/// configured maximum id, or `+`) down to the configured minimum id (or
/// `-`); the first page asks for one entry more than a page, which tells
/// whether more follow; reading the whole stream sends no `COUNT`.
pub fn stream_page_window(
    stream_cursor: &str,
    max_id: Option<&str>,
    min_id: Option<&str>,
    count: u64,
    load_all: bool,
) -> (r: StreamWindow)
    requires
        count < u64::MAX,
    ensures
        r.end@ == if stream_cursor@.len() == 0 {
            match max_id {
                Some(m) => if m@.len() > 0 {
                    m@
                } else {
                    "+"@
                },
                None => "+"@,
            }
        } else {
            stream_cursor@
        },
        r.start@ == match min_id {
            Some(m) => if m@.len() > 0 {
                m@
            } else {
                "-"@
            },
            None => "-"@,
        },
        r.count == if load_all {
            None
        } else if stream_cursor@.len() == 0 {
            Some((count + 1) as u64)
        } else {
            Some(count)
        },
{
    let first = str_to_chars(stream_cursor).len() == 0;
    let mut end = String::new();
    if first {
        match max_id {
            Some(m) => {
                if str_to_chars(m).len() > 0 {
                    push_str(&mut end, m);
                } else {
                    push_str(&mut end, "+");
                }
            },
            None => push_str(&mut end, "+"),
        }
    } else {
        push_str(&mut end, stream_cursor);
    }
    let mut start = String::new();
    match min_id {
        Some(m) => {
            if str_to_chars(m).len() > 0 {
                push_str(&mut start, m);
            } else {
                push_str(&mut start, "-");
            }
        },
        None => push_str(&mut start, "-"),
    }
    let n = if load_all {
        None
    } else if first {
        Some(count + 1)
    } else {
        Some(count)
    };
    assert(end@ =~= if stream_cursor@.len() == 0 {
        match max_id {
            Some(m) => if m@.len() > 0 {
                m@
            } else {
                "+"@
            },
            None => "+"@,
        }
    } else {
        stream_cursor@
    });
    StreamWindow { end, start, count: n }
}

/// What a stream page does with its entries: when more than `count` came
/// and the stream is paged, the last one is left out and its id is where
/// the next page starts (`true`, not finished); otherwise all are kept and
/// the stream is done.
pub fn stream_page_after(got: usize, count: u64, load_all: bool) -> (r: (bool, bool))
    ensures
        r.0 == (!load_all && got > count),
        r.1 == !(!load_all && got > count),
{
    let more = !load_all && got as u64 > count;
    (more, !more)
}

/// The `COUNT` of one batch of a field scan: 1000 when everything is
/// loaded, 20 when no page size is given, else the page size.
pub fn field_scan_batch_count(load_all: bool, count: u64) -> (r: u64)
    ensures
        r == if load_all {
            1000
        } else if count == 0 {
            20
        } else {
            count
        },
{
    if load_all {
        1000
    } else if count == 0 {
        20
    } else {
        count
    }
}

/// Whether a field scan stops after a batch, and whether it is finished:
/// it is finished when the cursor is back to 0; a paged scan also stops
/// once a page worth of fields has been read.
pub fn field_scan_after(next_cursor: u64, load_all: bool, ready: u64, count: u64) -> (r: (bool, bool))
    ensures
        r.1 == (next_cursor == 0),
        r.0 == (next_cursor == 0 || (!load_all && ready >= count)),
{
    if next_cursor == 0 {
        (true, true)
    } else if !load_all && ready >= count {
        (true, false)
    } else {
        (false, false)
    }
}

/// The patterns a subscription sends to `PSUBSCRIBE`: the words of the
/// subscription box and then the channel that stops the subscription; `*`
/// alone when the box holds no word.
pub open spec fn subscribe_patterns(channel: Option<Seq<char>>, stop_channel: Seq<char>) -> Seq<Seq<char>> {
    match channel {
        None => seq!["*"@],
        Some(c) => if c.len() == 0 || words(c).len() == 0 {
            seq!["*"@]
        } else {
            words(c).push(stop_channel)
        },
    }
}

fn star() -> (r: Vec<String>)
    ensures
        r.deep_view() == seq!["*"@],
{
    let mut s = String::new();
    push_str(&mut s, "*");
    assert(s@ =~= "*"@);
    let mut v: Vec<String> = Vec::new();
    push_string(&mut v, s);
    assert(v.deep_view() =~= seq!["*"@]);
    v
}

/// The patterns of a subscription, with the channel that is published to
/// when the subscription stops.
pub fn psubscribe_patterns(channel: Option<String>, stop_channel: &str) -> (r: Vec<String>)
    ensures
        r.deep_view() == subscribe_patterns(
            match channel {
                Some(c) => Some(c@),
                None => None,
            },
            stop_channel@,
        ),
{
    match channel {
        None => star(),
        Some(c) => {
            if str_to_chars(c.as_str()).len() == 0 {
                return star();
            }
            let mut parts = split_whitespace(c.as_str());
            if parts.len() == 0 {
                star()
            } else {
                let mut s = String::new();
                push_str(&mut s, stop_channel);
                assert(s@ =~= stop_channel@);
                push_string(&mut parts, s);
                parts
            }
        },
    }
}

} // verus!
