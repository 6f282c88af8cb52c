//! The soft memory limit of the indexing pipeline.
use crate::text::{parse_u64, unsigned_value};
use vstd::prelude::*;

verus! {

/// Bytes in one megabyte.
pub const BYTES_PER_MB: u64 = 1_048_576;

/// The limit that a `TRUSTY_MEMORY_LIMIT_MB` setting stands for: a positive
/// number of megabytes that fits 64 bits; anything else disables the limit.
pub open spec fn memory_limit_spec(raw: Option<Seq<char>>) -> Option<u64> {
    match raw {
        Some(s) => match unsigned_value(s) {
            Some(n) => if 0 < n <= u64::MAX {
                Some(n as u64)
            } else {
                None
            },
            None => None,
        },
        None => None,
    }
}

/// The characters of an optional setting.
pub open spec fn opt_str(o: Option<&str>) -> Option<Seq<char>> {
    match o {
        Some(s) => Some(s@),
        None => None,
    }
}

/// The soft limit on resident memory, in megabytes, from the value of
/// `TRUSTY_MEMORY_LIMIT_MB`. Zero and text that is no number disable it.
pub fn memory_limit_mb(raw: Option<&str>) -> (limit: Option<u64>)
    ensures
        limit == memory_limit_spec(opt_str(raw)),
{
    match raw {
        Some(s) => match parse_u64(s) {
            Some(n) => if n > 0 {
                Some(n)
            } else {
                None
            },
            None => None,
        },
        None => None,
    }
}

/// The resident set size in whole megabytes, where the number of bytes is known.
pub fn current_rss_mb(bytes: Option<u64>) -> (rss: Option<u64>)
    ensures
        rss == (match bytes {
            Some(b) => Some((b / BYTES_PER_MB) as u64),
            None => None,
        }),
{
    match bytes {
        Some(b) => Some(b / BYTES_PER_MB),
        None => None,
    }
}

/// Whether the resident set has reached the limit.
pub open spec fn over_limit(limit: Option<u64>, rss: Option<u64>) -> bool {
    limit is Some && rss is Some && rss->0 >= limit->0
}

/// Whether a limit is set and the resident set is known to have reached it.
pub fn over_memory_limit(limit: Option<u64>, rss: Option<u64>) -> (over: bool)
    ensures
        over == over_limit(limit, rss),
{
    match (limit, rss) {
        (Some(l), Some(r)) => r >= l,
        _ => false,
    }
}

} // verus!
