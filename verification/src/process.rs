//! Reading what the process-kill tool reported.
use vstd::prelude::*;
use crate::text::{count_matches, count_occurrences};

verus! {

/// The marker the process-kill tool prints once for each process it terminated.
pub open spec fn success_marker() -> Seq<u8> {
    seq![83u8, 85u8, 67u8, 67u8, 69u8, 83u8, 83u8]
}

/// The number of processes the process-kill tool reports as terminated: the
/// non-overlapping occurrences of `SUCCESS` in its standard output, as a 32-bit count.
pub fn count_killed(stdout: &[u8]) -> (n: u32)
    ensures
        n == count_matches(stdout@, success_marker()) as u32,
{
    // "SUCCESS"
    let marker: Vec<u8> = vec![83u8, 85u8, 67u8, 67u8, 69u8, 83u8, 83u8];
    assert(marker@ =~= success_marker());
    let count = count_occurrences(stdout, marker.as_slice());
    count as u32
}

} // verus!
