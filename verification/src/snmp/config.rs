//! SNMP host settings that drive how requests are batched.

use vstd::prelude::*;

verus! {

/// Default for `HostConfig::bulk_host`.
pub fn default_true() -> (r: bool)
    ensures
        r,
{
    true
}

/// Default for `HostConfig::workers`.
pub fn default_workers() -> (r: u16)
    ensures
        r == 1,
{
    1
}

/// Options for bulk (GETBULK) requests.
pub struct BulkConfig {
    /// Maximum number of OIDs in one request.
    pub max_width: usize,
    /// Repetitions to use for walks of unknown length.
    pub def_length: usize,
    pub min_length: usize,
    pub max_length: usize,
    /// Maximum number of variables expected in one response.
    pub max_size: usize,
    /// Maximum difference of expected length between walks combined in one request.
    pub max_len_diff: usize,
}

impl Default for BulkConfig {
    fn default() -> (r: Self)
        ensures
            r.max_width == 50,
            r.def_length == 10,
            r.min_length == 5,
            r.max_length == 100,
            r.max_size == 1000,
            r.max_len_diff == 5,
    {
        BulkConfig {
            max_width: 50,
            def_length: 10,
            min_length: 5,
            max_length: 100,
            max_size: 1000,
            max_len_diff: 5,
        }
    }
}

/// The number of repetitions for a bulk request of `walk_width` walks: the
/// expected length (or `def_length`), raised to `min_length`, then capped by
/// the room left (`available_size / walk_width`) and by `max_length`; no
/// repetitions without walks.
pub open spec fn spec_max_repetitions(
    c: BulkConfig,
    max_expected: Option<usize>,
    available_size: int,
    walk_width: int,
) -> int {
    if walk_width <= 0 {
        0
    } else {
        let e: int = match max_expected {
            Some(e) => e as int,
            None => c.def_length as int,
        };
        let a = if e > c.min_length { e } else { c.min_length as int };
        let cap = available_size / walk_width;
        let b = if a < cap { a } else { cap };
        if b < c.max_length { b } else { c.max_length as int }
    }
}

impl BulkConfig {
    /// Repetitions to request for `walk_width` walks (see `spec_max_repetitions`).
    pub fn max_repetitions(&self, max_expected: Option<usize>, available_size: usize, walk_width: usize) -> (r: usize)
        ensures
            r == spec_max_repetitions(*self, max_expected, available_size as int, walk_width as int),
            r <= self.max_length,
            walk_width > 0 ==> r * walk_width <= available_size,
    {
        if walk_width == 0 {
            return 0;
        }
        let e = match max_expected {
            Some(e) => e,
            None => self.def_length,
        };
        let a = if e > self.min_length { e } else { self.min_length };
        let cap = available_size / walk_width;
        let b = if a < cap { a } else { cap };
        let r = if b < self.max_length { b } else { self.max_length };
        proof {
            assert(r <= cap);
            assert(cap * walk_width <= available_size) by (nonlinear_arith)
                requires cap == available_size / walk_width, walk_width > 0;
            assert(r * walk_width <= cap * walk_width) by (nonlinear_arith)
                requires r <= cap;
        }
        r
    }
}

/// Work-arounds for device misbehaviour.
pub struct Quirks {
    /// Continue walk even when OIDs are not increasing.
    pub ignore_oids_not_increasing: bool,
    /// The device answers requests for OIDs past the end of a table with an
    /// invalid packet: bulk requests are sent until an error is received,
    /// then non-bulk requests take over, and only one table is requested at
    /// a time.
    pub invalid_packets_at_end: bool,
    /// Initiate a new session before each query.
    pub refresh_session: bool,
    /// Number of milliseconds to wait between requests.
    pub request_delay: Option<u64>,
}

impl Default for Quirks {
    fn default() -> (r: Self)
        ensures
            !r.ignore_oids_not_increasing,
            !r.invalid_packets_at_end,
            !r.refresh_session,
            r.request_delay is None,
    {
        Quirks {
            ignore_oids_not_increasing: false,
            invalid_packets_at_end: false,
            refresh_session: false,
            request_delay: None,
        }
    }
}

} // verus!
