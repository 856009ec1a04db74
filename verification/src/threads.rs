//! The number of worker threads.

use vstd::prelude::*;

verus! {

/// The number of threads to use given the parallelism the machine reports:
/// that number, or one when it reports none.
pub fn threads_from_parallelism(available: Option<usize>) -> (n: usize)
    ensures
        n == match available {
            Some(k) => if k > 0 {
                k
            } else {
                1
            },
            None => 1,
        },
{
    match available {
        Some(k) => if k == 0 {
            1
        } else {
            k
        },
        None => 1,
    }
}

} // verus!
