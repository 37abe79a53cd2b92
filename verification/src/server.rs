//! Decisions of the per-server views: the database list, the memory
//! analysis scan, and the TTL that a key copied by `DUMP`/`RESTORE` keeps.
use vstd::prelude::*;
use crate::text::{decimal_u16, parse_u16};
use crate::model::{RedisKey, key_bytes};

verus! {

/// A database of a server and its number of keys.
#[derive(Debug)]
pub struct RedisDB {
    pub db: u16,
    pub size: u64,
}

/// Why the database count could not be read.
#[derive(Debug, Clone, Copy, PartialEq, Eq, Structural)]
pub enum DbListError {
    /// `CONFIG GET databases` did not give a number.
    InvalidDatabaseCount,
}

/// The databases `0..count`, where `count` is the value of the `databases`
/// setting (`0` when it is missing), or the error when it is not a number.
pub open spec fn db_list_of(databases: Option<Seq<char>>) -> Result<nat, DbListError> {
    let text = match databases {
        Some(t) => t,
        None => "0"@,
    };
    match decimal_u16(text) {
        None => Err(DbListError::InvalidDatabaseCount),
        Some(n) => Ok(n as nat),
    }
}

/// Whether the list is databases `0` to `n - 1` in order, each of size 0.
pub open spec fn is_db_range(v: Seq<RedisDB>, n: nat) -> bool {
    v.len() == n && forall|i: int| 0 <= i < n ==> #[trigger] v[i].db == i && v[i].size == 0
}

/// The database list of a server from its `databases` setting: databases
/// `0` to `count - 1`, each with size 0.
pub fn db_list_from_config(databases: Option<&str>) -> (r: Result<Vec<RedisDB>, DbListError>)
    ensures
        match db_list_of(match databases {
            Some(t) => Some(t@),
            None => None,
        }) {
            Err(e) => r matches Err(x) && x == e,
            Ok(n) => r matches Ok(v) && is_db_range(v@, n),
        },
{
    proof {
        reveal_strlit("0");
    }
    let parsed = match databases {
        Some(t) => parse_u16(t),
        None => parse_u16("0"),
    };
    let count = match parsed {
        None => {
            return Err(DbListError::InvalidDatabaseCount);
        },
        Some(c) => c,
    };
    let mut v: Vec<RedisDB> = Vec::new();
    let mut i: u16 = 0;
    while i < count
        invariant
            i <= count,
            v@.len() == i,
            forall|k: int| 0 <= k < i ==> #[trigger] v@[k].db == k && v@[k].size == 0,
        decreases count - i,
    {
        v.push(RedisDB { db: i, size: 0 });
        i += 1;
    }
    assert(db_list_of(match databases {
        Some(t) => Some(t@),
        None => None,
    }) == Ok::<nat, DbListError>(count as nat));
    assert(is_db_range(v@, count as nat));
    Ok(v)
}

/// The settings of the memory analysis: a `SCAN` pattern and batch size,
/// the smallest size kept, how many keys to keep and to scan at most (0
/// for no limit), the pause between batches, and whether to read types.
#[derive(Debug)]
pub struct RedisMemoryParam {
    pub pattern: Option<String>,
    pub scan_count: u64,
    pub size_limit: u64,
    pub count_limit: u64,
    pub scan_total: u64,
    pub sleep_millis: u64,
    pub need_key_type: Option<bool>,
}

/// The keys of a batch whose `MEMORY USAGE` is known and at least
/// `size_limit`, with their sizes, in order.
pub open spec fn large_keys(keys: Seq<Seq<u8>>, sizes: Seq<Option<u64>>, size_limit: u64) -> Seq<(Seq<u8>, u64)>
    decreases sizes.len(),
{
    if sizes.len() == 0 {
        Seq::empty()
    } else {
        let acc = large_keys(keys, sizes.drop_last(), size_limit);
        match sizes.last() {
            Some(size) => if size >= size_limit {
                acc.push((keys[sizes.len() - 1], size))
            } else {
                acc
            },
            None => acc,
        }
    }
}

/// Every key the memory analysis keeps has at least the size limit.
pub proof fn law_large_keys_above_limit(keys: Seq<Seq<u8>>, sizes: Seq<Option<u64>>, size_limit: u64)
    ensures
        forall|i: int| 0 <= i < large_keys(keys, sizes, size_limit).len() ==> #[trigger] large_keys(
            keys,
            sizes,
            size_limit,
        )[i].1 >= size_limit,
        large_keys(keys, sizes, size_limit).len() <= sizes.len(),
    decreases sizes.len(),
{
    if sizes.len() > 0 {
        law_large_keys_above_limit(keys, sizes.drop_last(), size_limit);
        let acc = large_keys(keys, sizes.drop_last(), size_limit);
        let r = large_keys(keys, sizes, size_limit);
        assert forall|i: int| 0 <= i < r.len() implies #[trigger] r[i].1 >= size_limit by {
            if i < acc.len() {
                assert(r[i] == acc[i]);
            }
        }
    }
}

/// The keys of a batch that the memory analysis keeps.
pub fn keep_large_keys(keys: &Vec<Vec<u8>>, sizes: &Vec<Option<u64>>, size_limit: u64) -> (r: Vec<
    (Vec<u8>, u64),
>)
    requires
        sizes@.len() <= keys@.len(),
    ensures
        r.deep_view() == large_keys(keys.deep_view(), sizes@, size_limit),
{
    let mut out: Vec<(Vec<u8>, u64)> = Vec::new();
    let mut i: usize = 0;
    assert(sizes@.take(0) =~= Seq::<Option<u64>>::empty());
    while i < sizes.len()
        invariant
            i <= sizes@.len(),
            sizes@.len() <= keys@.len(),
            out.deep_view() == large_keys(keys.deep_view(), sizes@.take(i as int), size_limit),
        decreases sizes@.len() - i,
    {
        proof {
            assert(sizes@.take(i + 1).drop_last() =~= sizes@.take(i as int));
            assert(sizes@.take(i + 1).last() == sizes@[i as int]);
        }
        match sizes[i] {
            Some(size) => {
                if size >= size_limit {
                    let ghost before = out.deep_view();
                    let k = keys[i].clone();
                    proof {
                        assert(k@ == keys@[i as int]@);
                        assert(k.deep_view() =~= keys.deep_view()[i as int]);
                    }
                    out.push((k, size));
                    proof {
                        assert(out.deep_view() =~= before.push((keys.deep_view()[i as int], size)));
                    }
                }
            },
            None => {},
        }
        i += 1;
    }
    assert(sizes@.take(i as int) =~= sizes@);
    out
}

/// What the memory analysis does after a batch.
#[derive(Debug, Clone, Copy, PartialEq, Eq, Structural)]
pub enum MemoryScanStep {
    /// A limit is reached: stop at once.
    Stop,
    /// Pause, then stop: the node has no more keys.
    PauseThenStop,
    /// Pause, then scan the next batch.
    PauseThenContinue,
}

/// The step after a batch: stop when `count_limit` keys are kept or
/// `scan_total` keys are scanned (each limit counts when it is not 0); else
/// pause, and go on unless the cursor is back to 0.
pub open spec fn memory_scan_step_of(found: nat, count_limit: u64, scan_times: u64, scan_count: u64, scan_total: u64, cursor: u64) -> MemoryScanStep {
    if count_limit > 0 && found >= count_limit {
        MemoryScanStep::Stop
    } else if scan_total > 0 && scan_times * scan_count >= scan_total {
        MemoryScanStep::Stop
    } else if cursor == 0 {
        MemoryScanStep::PauseThenStop
    } else {
        MemoryScanStep::PauseThenContinue
    }
}

/// Decides the step after a batch of the memory analysis.
pub fn memory_scan_step(found: usize, param: &RedisMemoryParam, scan_times: u64, cursor: u64) -> (r: MemoryScanStep)
    requires
        scan_times * param.scan_count <= u64::MAX,
    ensures
        r == memory_scan_step_of(found as nat, param.count_limit, scan_times, param.scan_count, param.scan_total, cursor),
{
    if param.count_limit > 0 && found as u64 >= param.count_limit {
        MemoryScanStep::Stop
    } else if param.scan_total > 0 && scan_times * param.scan_count >= param.scan_total {
        MemoryScanStep::Stop
    } else if cursor == 0 {
        MemoryScanStep::PauseThenStop
    } else {
        MemoryScanStep::PauseThenContinue
    }
}

/// The TTL in milliseconds that `RESTORE` gets for a key whose `PTTL` is
/// given: the same when positive, else 0 (no expiry).
pub fn restore_ttl_of_pttl(pttl: i64) -> (r: i64)
    ensures
        r == if pttl > 0 {
            pttl
        } else {
            0
        },
{
    if pttl > 0 {
        pttl
    } else {
        0
    }
}

/// Whether two keys stand for the same bytes.
pub fn same_key(a: &RedisKey, b: &RedisKey) -> (r: bool)
    ensures
        r == (key_bytes(*a) == key_bytes(*b)),
{
    let x = a.to_bytes();
    let y = b.to_bytes();
    if x.len() != y.len() {
        return false;
    }
    let mut i: usize = 0;
    while i < x.len()
        invariant
            i <= x@.len(),
            x@.len() == y@.len(),
            x@ == key_bytes(*a),
            y@ == key_bytes(*b),
            forall|k: int| 0 <= k < i ==> x@[k] == y@[k],
        decreases x@.len() - i,
    {
        if x[i] != y[i] {
            return false;
        }
        i += 1;
    }
    assert(x@ =~= y@);
    true
}

} // verus!
