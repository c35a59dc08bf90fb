//! The dictionary abstraction the composer queries. The core never loads
//! dictionary data itself; any span-addressable store can implement this.

use vstd::prelude::*;
use crate::model::Candidate;

verus! {

/// A span-addressable candidate store. `segment` is the current
/// segmentation; a query concerns the token span `[start, end)`. The
/// composer overwrites `segment_start`/`segment_end` on whatever comes
/// back, so implementations need not fill them.
pub trait Dictionary: Send + Sync {
    /// Returns up to `limit` candidates for the exact span `[start, end)`
    /// (a limit of zero is treated as one).
    fn lookup_span(&self, segment: &Vec<String>, start: usize, end: usize, limit: usize) -> (r:
        Vec<Candidate>)
        ensures
            r@.len() <= if limit == 0 {
                1int
            } else {
                limit as int
            },
    ;

    /// Queries the whole segmentation.
    fn lookup(&self, segment: &Vec<String>, limit: usize) -> (r: Vec<Candidate>)
        ensures
            r@.len() <= if limit == 0 {
                1int
            } else {
                limit as int
            },
    {
        self.lookup_span(segment, 0, segment.len(), limit)
    }
}

} // verus!
