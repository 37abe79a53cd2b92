//! The entries of an `ACL LOG` reply: the denied commands, keys and
//! logins a server recorded.
use vstd::prelude::*;
use crate::cli_display::{CliValue, reply_text, reply_text_of};
use crate::text::{str_to_chars, chars_eq_str};

verus! {

/// An entry of `ACL LOG`. The age is kept as the text the server sent
/// (a decimal number), empty when the entry has none.
#[derive(Debug)]
pub struct AclLogEntry {
    pub count: u64,
    pub reason: String,
    pub context: String,
    pub object: String,
    pub username: String,
    pub age_seconds: String,
    pub client_info: String,
    pub entry_id: u64,
    pub timestamp_created: u64,
    pub timestamp_last_updated: u64,
}

/// Why an `ACL LOG` reply could not be read.
#[derive(Debug, Clone, Copy, PartialEq, Eq, Structural)]
pub enum AclLogError {
    /// The reply, or one of its entries, is not an array.
    NotAnArray,
}

/// An [`AclLogEntry`] with its texts as character sequences.
pub struct LogView {
    pub count: u64,
    pub reason: Seq<char>,
    pub context: Seq<char>,
    pub object: Seq<char>,
    pub username: Seq<char>,
    pub age_seconds: Seq<char>,
    pub client_info: Seq<char>,
    pub entry_id: u64,
    pub timestamp_created: u64,
    pub timestamp_last_updated: u64,
}

pub open spec fn log_view(e: AclLogEntry) -> LogView {
    LogView {
        count: e.count,
        reason: e.reason@,
        context: e.context@,
        object: e.object@,
        username: e.username@,
        age_seconds: e.age_seconds@,
        client_info: e.client_info@,
        entry_id: e.entry_id,
        timestamp_created: e.timestamp_created,
        timestamp_last_updated: e.timestamp_last_updated,
    }
}

/// The entry before any field is read: zero counts and empty texts.
pub open spec fn empty_log() -> LogView {
    LogView {
        count: 0,
        reason: Seq::empty(),
        context: Seq::empty(),
        object: Seq::empty(),
        username: Seq::empty(),
        age_seconds: Seq::empty(),
        client_info: Seq::empty(),
        entry_id: 0,
        timestamp_created: 0,
        timestamp_last_updated: 0,
    }
}

/// The entry after one field: integer fields take an integer value (as
/// `u64`), text fields the text of the value; other names are skipped.
pub open spec fn log_step(e: LogView, name: Seq<char>, v: CliValue) -> LogView {
    if name == "count"@ {
        match v {
            CliValue::Int(c) => LogView { count: c as u64, ..e },
            _ => e,
        }
    } else if name == "reason"@ {
        LogView { reason: reply_text(v), ..e }
    } else if name == "context"@ {
        LogView { context: reply_text(v), ..e }
    } else if name == "object"@ {
        LogView { object: reply_text(v), ..e }
    } else if name == "username"@ {
        LogView { username: reply_text(v), ..e }
    } else if name == "age-seconds"@ {
        LogView { age_seconds: reply_text(v), ..e }
    } else if name == "client-info"@ {
        LogView { client_info: reply_text(v), ..e }
    } else if name == "entry-id"@ {
        match v {
            CliValue::Int(c) => LogView { entry_id: c as u64, ..e },
            _ => e,
        }
    } else if name == "timestamp-created"@ {
        match v {
            CliValue::Int(c) => LogView { timestamp_created: c as u64, ..e },
            _ => e,
        }
    } else if name == "timestamp-last-updated"@ || name == "timestamp-last"@ {
        match v {
            CliValue::Int(c) => LogView { timestamp_last_updated: c as u64, ..e },
            _ => e,
        }
    } else {
        e
    }
}

/// The entry after the items read as alternating names and values; a last
/// name without a value is ignored.
pub open spec fn log_fold(items: Seq<CliValue>, e: LogView) -> LogView
    decreases items.len(),
{
    if items.len() < 2 {
        e
    } else {
        log_fold(items.skip(2), log_step(e, reply_text(items[0]), items[1]))
    }
}

/// The entry an `ACL LOG` item stands for, when it is an array.
pub open spec fn log_entry_of(v: CliValue) -> Option<LogView> {
    match v {
        CliValue::Array(items) => Some(log_fold(items@, empty_log())),
        _ => None,
    }
}

fn name_eq(w: &Vec<char>, name: &str) -> (r: bool)
    ensures
        r == (w@ == name@),
{
    chars_eq_str(w.as_slice(), name)
}

fn apply_field(e: &mut AclLogEntry, name: &CliValue, v: &CliValue)
    ensures
        log_view(*final(e)) == log_step(log_view(*old(e)), reply_text(*name), *v),
{
    let n = reply_text_of(name);
    let w = str_to_chars(n.as_str());
    proof {
        reveal_strlit("count");
        reveal_strlit("reason");
        reveal_strlit("context");
        reveal_strlit("object");
        reveal_strlit("username");
        reveal_strlit("age-seconds");
        reveal_strlit("client-info");
        reveal_strlit("entry-id");
        reveal_strlit("timestamp-created");
        reveal_strlit("timestamp-last-updated");
        reveal_strlit("timestamp-last");
    }
    if name_eq(&w, "count") {
        if let CliValue::Int(c) = v {
            e.count = *c as u64;
        }
    } else if name_eq(&w, "reason") {
        e.reason = reply_text_of(v);
    } else if name_eq(&w, "context") {
        e.context = reply_text_of(v);
    } else if name_eq(&w, "object") {
        e.object = reply_text_of(v);
    } else if name_eq(&w, "username") {
        e.username = reply_text_of(v);
    } else if name_eq(&w, "age-seconds") {
        e.age_seconds = reply_text_of(v);
    } else if name_eq(&w, "client-info") {
        e.client_info = reply_text_of(v);
    } else if name_eq(&w, "entry-id") {
        if let CliValue::Int(c) = v {
            e.entry_id = *c as u64;
        }
    } else if name_eq(&w, "timestamp-created") {
        if let CliValue::Int(c) = v {
            e.timestamp_created = *c as u64;
        }
    } else if name_eq(&w, "timestamp-last-updated") || name_eq(&w, "timestamp-last") {
        if let CliValue::Int(c) = v {
            e.timestamp_last_updated = *c as u64;
        }
    }
}

/// Reads one entry of an `ACL LOG` reply.
pub fn parse_acl_log_entry(value: &CliValue) -> (r: Result<AclLogEntry, AclLogError>)
    ensures
        match log_entry_of(*value) {
            None => r == Err::<AclLogEntry, AclLogError>(AclLogError::NotAnArray),
            Some(e) => r matches Ok(x) && log_view(x) == e,
        },
{
    let items = match value {
        CliValue::Array(items) => items,
        _ => {
            return Err(AclLogError::NotAnArray);
        },
    };
    let mut e = AclLogEntry {
        count: 0,
        reason: String::new(),
        context: String::new(),
        object: String::new(),
        username: String::new(),
        age_seconds: String::new(),
        client_info: String::new(),
        entry_id: 0,
        timestamp_created: 0,
        timestamp_last_updated: 0,
    };
    assert(log_view(e) == empty_log());
    assert(items@.skip(0) =~= items@);
    let mut i: usize = 0;
    while items.len() - i > 1
        invariant
            i <= items@.len(),
            log_fold(items@, empty_log()) == log_fold(items@.skip(i as int), log_view(e)),
        decreases items@.len() - i,
    {
        proof {
            assert(items@.skip(i as int)[0] == items@[i as int]);
            assert(items@.skip(i as int)[1] == items@[i + 1]);
            assert(items@.skip(i as int).skip(2) =~= items@.skip(i + 2));
        }
        apply_field(&mut e, &items[i], &items[i + 1]);
        i += 2;
    }
    Ok(e)
}

/// The entries an `ACL LOG` reply stands for: every item of the array read
/// as an entry, or an error when the reply or an item is not an array.
pub open spec fn log_entries_of(v: CliValue) -> Option<Seq<LogView>> {
    match v {
        CliValue::Array(items) => if (forall|k: int| 0 <= k < items@.len() ==> #[trigger] log_entry_of(items@[k]) is Some) {
            Some(Seq::new(items@.len(), |k: int| log_entry_of(items@[k])->0))
        } else {
            None
        },
        _ => None,
    }
}

/// Reads the entries of an `ACL LOG` reply, in order.
pub fn parse_acl_log(value: &CliValue) -> (r: Result<Vec<AclLogEntry>, AclLogError>)
    ensures
        match log_entries_of(*value) {
            None => r == Err::<Vec<AclLogEntry>, AclLogError>(AclLogError::NotAnArray),
            Some(es) => r matches Ok(v) && v@.len() == es.len() && forall|k: int|
                0 <= k < es.len() ==> #[trigger] log_view(v@[k]) == es[k],
        },
{
    let items = match value {
        CliValue::Array(items) => items,
        _ => {
            return Err(AclLogError::NotAnArray);
        },
    };
    let mut out: Vec<AclLogEntry> = Vec::new();
    let mut i: usize = 0;
    while i < items.len()
        invariant
            i <= items@.len(),
            out@.len() == i,
            *value matches CliValue::Array(it) && it@ == items@,
            forall|k: int| 0 <= k < i ==> log_entry_of(#[trigger] items@[k]) is Some,
            forall|k: int| 0 <= k < i ==> #[trigger] log_view(out@[k]) == log_entry_of(items@[k])->0,
        decreases items@.len() - i,
    {
        match parse_acl_log_entry(&items[i]) {
            Ok(e) => {
                out.push(e);
            },
            Err(x) => {
                assert(log_entry_of(items@[i as int]) is None);
                return Err(x);
            },
        }
        i += 1;
    }
    Ok(out)
}

} // verus!
