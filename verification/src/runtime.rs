//! How many worker threads the program runs on.
use vstd::prelude::*;
use vstd::string::*;

use crate::text::{
    anything_else_is_no_integer, chars_of, decimal, every_way_to_write_an_integer, integer_value,
    parse_int, zeros,
};

verus! {

/// The environment variable that sets the number of worker threads.
pub const GOMAXPROCS: &'static str = "GOMAXPROCS";

/// The name of the worker threads.
pub const WORKER_NAME: &'static str = "kcptun-worker";

/// The number of threads that a value of [`GOMAXPROCS`] asks for: a positive decimal integer that
/// fits in 32 bits, with its sign.
pub open spec fn threads_asked(s: Seq<char>) -> Option<int> {
    match integer_value(s) {
        Some(n) => if 0 < n <= i32::MAX {
            Some(n)
        } else {
            None
        },
        None => None,
    }
}

/// Reads a value of [`GOMAXPROCS`]. Only decimal digits count: no prefix, no underscore and no
/// space.
pub fn parse_gomaxprocs(s: &str) -> (r: Option<usize>)
    ensures
        r is Some <==> threads_asked(s@) is Some,
        r is Some ==> r->0 == threads_asked(s@)->0,
{
    match parse_int(chars_of(s).as_slice()) {
        Some(n) => if 0 < n && n <= 2147483647 {
            Some(n as usize)
        } else {
            None
        },
        None => None,
    }
}

/// The number of worker threads for a value of [`GOMAXPROCS`] (`None` when it is unset) on a
/// machine with `cpus` processors: as many as asked for, or else one for each processor.
pub fn worker_threads_for(gomaxprocs: Option<&str>, cpus: usize) -> (n: usize)
    ensures
        n == (match gomaxprocs {
            Some(s) => match threads_asked(s@) {
                Some(k) => k,
                None => cpus as int,
            },
            None => cpus as int,
        }),
        cpus > 0 ==> n > 0,
{
    match gomaxprocs {
        Some(s) => match parse_gomaxprocs(s) {
            Some(n) => n,
            None => cpus,
        },
        None => cpus,
    }
}

/// The number of worker threads that the runtime is built with: at least one.
pub fn built_workers(worker_threads: usize) -> (n: usize)
    ensures
        n == (if worker_threads == 0 { 1 } else { worker_threads }),
{
    if worker_threads == 0 {
        1
    } else {
        worker_threads
    }
}

/// A number of threads that is written in decimal is the number that the program runs on, from 1 to
/// 2147483647; zero and a larger one leave one thread for each processor, and so does a value with
/// anything else in it.
pub proof fn as_many_threads_as_asked_for(s: &str, n: nat, cpus: usize, r: usize)
    requires
        call_ensures(worker_threads_for, (Some(s), cpus), r),
    ensures
        s@ == decimal(n) ==> r == (if 1 <= n <= 2147483647 {
            n as int
        } else {
            cpus as int
        }),
        forall|i: int|
            1 <= i < s@.len() && (#[trigger] s@[i] < '0' || s@[i] > '9') ==> r == cpus,
{
    every_way_to_write_an_integer(n, 0);
    assert(zeros(0) + decimal(n) =~= decimal(n));
    assert forall|i: int|
        1 <= i < s@.len() && (#[trigger] s@[i] < '0' || s@[i] > '9') implies r == cpus by {
        anything_else_is_no_integer(s@, i);
    }
}

} // verus!
