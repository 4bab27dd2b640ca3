//! How many threads serve the reads from cloud stores.
use vstd::prelude::*;

use crate::decimal::parse_up_to;

#[allow(unused_imports)]
use crate::decimal::parse_unsigned;

verus! {

/// The number of threads where none is configured.
pub const DEFAULT_WORKER_THREADS: usize = 4;

/// The number of threads: the positive number that the configured text stands
/// for, or the default.
pub fn worker_threads(configured: Option<&str>) -> (r: usize)
    ensures
        r == match configured {
            Some(text) => match parse_unsigned(text@, usize::MAX as nat) {
                Some(n) => if n > 0 {
                    n as usize
                } else {
                    DEFAULT_WORKER_THREADS
                },
                None => DEFAULT_WORKER_THREADS,
            },
            None => DEFAULT_WORKER_THREADS,
        },
        r > 0,
        configured is None ==> r == 4,
{
    match configured {
        Some(text) => match parse_up_to(text, usize::MAX as u64) {
            Some(n) => if n > 0 {
                n as usize
            } else {
                DEFAULT_WORKER_THREADS
            },
            None => DEFAULT_WORKER_THREADS,
        },
        None => DEFAULT_WORKER_THREADS,
    }
}

} // verus!
