//! The memory watch of a running reindex.
use vstd::prelude::*;

verus! {

/// The larger of two readings.
pub open spec fn larger(a: u64, b: u64) -> u64 {
    if b > a {
        b
    } else {
        a
    }
}

/// What is known of the process's memory while a reindex runs.
#[derive(Debug, Clone, Copy, PartialEq, Eq)]
pub struct MemoryWatch {
    /// The soft limit in megabytes, if one is set.
    pub limit: Option<u64>,
    /// The largest resident set seen so far, in megabytes.
    pub peak_rss_mb: u64,
    /// Whether the limit was reached: no further batch may begin.
    pub abort: bool,
    /// Whether batches were left out because of the limit.
    pub hit: bool,
}

impl MemoryWatch {
    /// The watch at the start of a reindex, from a first reading.
    pub fn new(limit: Option<u64>, rss: Option<u64>) -> (w: MemoryWatch)
        ensures
            w.limit == limit,
            w.peak_rss_mb == (match rss {
                Some(r) => r,
                None => 0,
            }),
            !w.abort,
            !w.hit,
    {
        MemoryWatch {
            limit,
            peak_rss_mb: match rss {
                Some(r) => r,
                None => 0,
            },
            abort: false,
            hit: false,
        }
    }

    /// Takes note of a reading: raises the peak.
    pub fn observe(&mut self, rss: Option<u64>)
        ensures
            *final(self) == (MemoryWatch {
                peak_rss_mb: (match rss {
                    Some(r) => larger(old(self).peak_rss_mb, r),
                    None => old(self).peak_rss_mb,
                }),
                ..*old(self)
            }),
    {
        if let Some(r) = rss {
            if r > self.peak_rss_mb {
                self.peak_rss_mb = r;
            }
        }
    }

    /// A reading between batches: raises the peak and calls for an end once the
    /// limit is reached. An end once called for stays called for.
    pub fn poll(&mut self, rss: Option<u64>)
        ensures
            *final(self) == (MemoryWatch {
                peak_rss_mb: (match rss {
                    Some(r) => larger(old(self).peak_rss_mb, r),
                    None => old(self).peak_rss_mb,
                }),
                abort: old(self).abort || crate::engine::memguard::over_limit(old(self).limit, rss),
                ..*old(self)
            }),
    {
        self.observe(rss);
        if crate::engine::memguard::over_memory_limit(self.limit, rss) {
            self.abort = true;
        }
    }

    /// The reading after a batch was committed: where a limit is set, raises the
    /// peak, and ends the reindex once the limit is reached.
    pub fn after_commit(&mut self, rss: Option<u64>)
        ensures
            old(self).limit is None ==> *final(self) == *old(self),
            old(self).limit is Some ==> *final(self) == (MemoryWatch {
                peak_rss_mb: (match rss {
                    Some(r) => larger(old(self).peak_rss_mb, r),
                    None => old(self).peak_rss_mb,
                }),
                abort: old(self).abort || crate::engine::memguard::over_limit(old(self).limit, rss),
                hit: old(self).hit || crate::engine::memguard::over_limit(old(self).limit, rss),
                ..*old(self)
            }),
    {
        if self.limit.is_none() {
            return ;
        }
        self.observe(rss);
        if crate::engine::memguard::over_memory_limit(self.limit, rss) {
            self.abort = true;
            self.hit = true;
        }
    }
}

} // verus!
