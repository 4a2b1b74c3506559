//! Sizing the pool of fingerprint tasks from the number of worker threads.

use vstd::arithmetic::div_mod::{lemma_basic_div, lemma_fundamental_div_mod, lemma_small_mod};
use vstd::prelude::*;

verus! {

/// The number of fingerprint tasks in flight that the pool aims at. Each
/// task holds a file's bytes, so this caps the memory in use.
pub const MAX_IN_FLIGHT: usize = 64;

/// `x / y`, rounded up.
pub open spec fn ceil_div(x: int, y: int) -> int
    recommends
        x >= 0,
        y > 0,
{
    if x % y == 0 {
        x / y
    } else {
        x / y + 1
    }
}

/// Calls `num_integer::Integer::div_ceil` on two `usize`.
///
/// Trusted: for a divisor other than zero the result is the quotient,
/// raised by one where the division leaves a remainder. A zero divisor
/// makes the outside function panic and is left out.
#[verifier::external_body]
fn div_ceil(x: usize, y: usize) -> (q: usize)
    requires
        y != 0,
    ensures
        q == ceil_div(x as int, y as int),
{
    num_integer::Integer::div_ceil(&x, &y)
}

/// The number of files each of `thread_count` workers may have in flight:
/// its share of `MAX_IN_FLIGHT`, rounded up, and at least one.
pub open spec fn files_per_worker_of(thread_count: int) -> int
    recommends
        thread_count > 0,
{
    let share = ceil_div(MAX_IN_FLIGHT as int, thread_count);
    if share < 1 {
        1
    } else {
        share
    }
}

/// The number of fingerprint tasks in flight over all workers.
pub open spec fn fingerprint_window_of(thread_count: int) -> int
    recommends
        thread_count > 0,
{
    files_per_worker_of(thread_count) * thread_count
}

/// The window gives every worker at least one file and overshoots
/// `MAX_IN_FLIGHT` by less than one file per worker.
pub proof fn lemma_window_bounds(thread_count: int)
    requires
        thread_count > 0,
    ensures
        1 <= files_per_worker_of(thread_count) <= MAX_IN_FLIGHT,
        thread_count > MAX_IN_FLIGHT ==> files_per_worker_of(thread_count) == 1,
        thread_count <= fingerprint_window_of(thread_count),
        MAX_IN_FLIGHT <= fingerprint_window_of(thread_count) < MAX_IN_FLIGHT + thread_count,
{
    let n = MAX_IN_FLIGHT as int;
    let q = n / thread_count;
    let r = n % thread_count;
    lemma_fundamental_div_mod(n, thread_count);
    assert(n == thread_count * q + r);
    assert(0 <= r < thread_count);
    if thread_count > n {
        lemma_basic_div(n, thread_count);
        lemma_small_mod(n as nat, thread_count as nat);
        assert(files_per_worker_of(thread_count) == 1);
        assert(1 * thread_count == thread_count);
    } else {
        assert(q >= 1 && q <= n) by (nonlinear_arith)
            requires
                n == thread_count * q + r,
                0 <= r < thread_count,
                0 < thread_count <= n,
        ;
        if r == 0 {
            assert(files_per_worker_of(thread_count) == q);
            assert(q * thread_count == n) by (nonlinear_arith)
                requires
                    n == thread_count * q + r,
                    r == 0,
            ;
        } else {
            assert(files_per_worker_of(thread_count) == q + 1);
            assert((q + 1) * thread_count == n - r + thread_count) by (nonlinear_arith)
                requires
                    n == thread_count * q + r,
            ;
            assert(q + 1 <= n) by (nonlinear_arith)
                requires
                    n == thread_count * q + r,
                    0 < r < thread_count,
                    q >= 1,
            ;
        }
    }
}

/// The number of files each worker may have in flight.
pub fn files_per_worker(thread_count: usize) -> (max_files: usize)
    requires
        thread_count > 0,
    ensures
        max_files == files_per_worker_of(thread_count as int),
{
    let share = div_ceil(MAX_IN_FLIGHT, thread_count);
    if share < 1 {
        1
    } else {
        share
    }
}

/// The number of fingerprint tasks to keep in flight over all workers.
pub fn fingerprint_window(thread_count: usize) -> (window: usize)
    requires
        thread_count > 0,
    ensures
        window == fingerprint_window_of(thread_count as int),
        thread_count <= window,
        MAX_IN_FLIGHT <= window < MAX_IN_FLIGHT + thread_count,
{
    let max_files = files_per_worker(thread_count);
    proof {
        lemma_window_bounds(thread_count as int);
        if thread_count > MAX_IN_FLIGHT {
            assert(max_files * thread_count == thread_count) by (nonlinear_arith)
                requires
                    max_files == 1,
            ;
        } else {
            assert(max_files * thread_count <= 64 * 64) by (nonlinear_arith)
                requires
                    1 <= max_files <= 64,
                    0 < thread_count <= 64,
            ;
        }
    }
    max_files * thread_count
}

} // verus!
