//! The worker threads that parallel computation runs on, from the `rayon` crate.
//!
//! Everything that this library takes on trust stands in this file.

use rayon::iter::{IntoParallelRefIterator, ParallelIterator};
use vstd::prelude::*;
use vstd::string::StringExecFns;

use crate::text::{law_decimal_reads_back, push_decimal};

verus! {

/// `rayon::ThreadPool`, carried through unread.
#[verifier::external_type_specification]
#[verifier::external_body]
pub struct ExThreadPool(rayon::ThreadPool);

/// `rayon::ThreadPoolBuildError`, carried through unread.
#[verifier::external_type_specification]
#[verifier::external_body]
pub struct ExThreadPoolBuildError(rayon::ThreadPoolBuildError);

/// The number of worker threads in a pool, which `rayon::ThreadPool::current_num_threads` tells; it
/// stays the same as long as the pool lives.
pub uninterp spec fn pool_threads(pool: rayon::ThreadPool) -> nat;

/// The name that the worker thread with the given index in a pool was started under.
pub uninterp spec fn pool_thread_name(pool: rayon::ThreadPool, index: nat) -> Seq<char>;

/// Whether a pool has a thread of its own that takes up the work it is handed, so that waiting for
/// that work comes to an end.
///
/// A builder of `rayon` can make a pool of which this is not true: one whose only thread is the
/// thread that built it, or whose threads were never run.
pub uninterp spec fn pool_takes_up_work(pool: rayon::ThreadPool) -> bool;

/// The most threads that `rayon` puts into one pool, which depends on the width of `usize`.
pub open spec fn max_pool_threads() -> nat {
    if usize::BITS == 64 {
        0xffff
    } else {
        0xff
    }
}

/// The number of threads in a pool that was asked to have `workers`.
pub open spec fn threads_started(workers: usize) -> nat {
    if workers <= max_pool_threads() {
        workers as nat
    } else {
        max_pool_threads()
    }
}

/// The text `ec-compute-` and the index of the thread.
pub open spec fn worker_name_text(index: nat) -> Seq<char> {
    "ec-compute-"@ + crate::text::decimal(index)
}

/// Whether `pool` has the threads that `workers` asks for, each under its own name.
pub open spec fn started_for(pool: rayon::ThreadPool, workers: usize) -> bool {
    &&& pool_threads(pool) == threads_started(workers)
    &&& forall|i: nat|
        i < threads_started(workers) ==> #[trigger] pool_thread_name(pool, i) == worker_name_text(i)
}

/// The name of the worker thread with the given index.
pub fn worker_name(index: usize) -> (name: String)
    ensures
        name@ == worker_name_text(index as nat),
{
    let mut name = String::from_str("ec-compute-");
    push_decimal(&mut name, index);
    name
}

/// Starts a pool with `rayon::ThreadPoolBuilder`: `num_threads`, `thread_name`, `build`.
///
/// Trusted: a pool that comes back has as many threads as were asked for, up to the most that
/// `rayon` supports, thread `i` of them bears the name `worker_name(i)`, and they are threads of
/// their own, started to take up work as long as the pool lives. Whether a pool comes
/// back is up to the operating system, which may refuse to start a thread, so nothing is said of
/// that, nor of the error.
///
/// Zero workers are left out: `rayon` would then choose the number by itself.
#[verifier::external_body]
pub(crate) fn start_threads(workers: usize) -> (built: Result<
    rayon::ThreadPool,
    rayon::ThreadPoolBuildError,
>)
    requires
        workers > 0,
    ensures
        built matches Ok(pool) ==> pool_threads(pool) == threads_started(workers),
        built matches Ok(pool) ==> forall|i: nat|
            i < threads_started(workers) ==> #[trigger] pool_thread_name(pool, i)
                == worker_name_text(i),
        built matches Ok(pool) ==> pool_takes_up_work(pool),
{
    rayon::ThreadPoolBuilder::new().num_threads(workers).thread_name(|i| worker_name(i)).build()
}

/// `rayon::ThreadPool::install`, which runs `op` on a thread of the pool and waits for it.
///
/// Trusted: `op` is called, and the result is what that call returned. Which thread runs it has no
/// place in a statement about the result, and is not stated.
///
/// A pool whose threads take up no work is left out: the call would wait for good.
pub assume_specification<OP, R>[ rayon::ThreadPool::install::<OP, R> ](
    pool: &rayon::ThreadPool,
    op: OP,
) -> (r: R) where OP: FnOnce() -> R + Send, R: Send
    requires
        pool_takes_up_work(*pool),
        op.requires(()),
    ensures
        op.ensures((), r),
;

/// `par_iter`, `map` and `collect` of `rayon`, from a slice to a vector, on the pool that the
/// calling thread belongs to.
///
/// Trusted: `map_one` is called on every item, and its result is put where the item stood. The
/// calls may run at the same time and in any order.
///
/// It is meant to be called inside `install`: a thread that belongs to no pool would get the
/// global pool of `rayon`.
#[verifier::external_body]
pub(crate) fn par_map<X: Sync, T: Send, F: Fn(&X) -> T + Sync>(items: &[X], map_one: &F) -> (out:
    Vec<T>)
    requires
        forall|i: int|
            0 <= i < items@.len() ==> call_requires(*map_one, (&#[trigger] items@[i],)),
    ensures
        out@.len() == items@.len(),
        forall|i: int|
            0 <= i < items@.len() ==> call_ensures(*map_one, (&items@[i],), #[trigger] out@[i]),
{
    items.par_iter().map(map_one).collect()
}

/// The name of a worker thread is `ec-compute-` and then digits, without a needless zero in front,
/// which give the index of the thread when they are read from left to right.
pub proof fn law_worker_name_reads_back(index: nat)
    ensures
        worker_name_text(index).take("ec-compute-"@.len() as int) == "ec-compute-"@,
        ({
            let digits = worker_name_text(index).skip("ec-compute-"@.len() as int);
            &&& digits.len() > 0
            &&& forall|i: int|
                0 <= i < digits.len() ==> '0' as int <= (#[trigger] digits[i]) as int <= '9' as int
            &&& digits.len() > 1 ==> digits[0] != '0'
            &&& digits.fold_left(0int, |v: int, c: char| 10 * v + (c as int - '0' as int)) == index
        }),
{
    let prefix = "ec-compute-"@;
    let text = worker_name_text(index);
    law_decimal_reads_back(index);
    assert(text.take(prefix.len() as int) =~= prefix);
    assert(text.skip(prefix.len() as int) =~= crate::text::decimal(index));
}

/// No two worker threads have the same name.
pub proof fn law_worker_names_differ(i: nat, j: nat)
    ensures
        worker_name_text(i) == worker_name_text(j) <==> i == j,
{
    law_worker_name_reads_back(i);
    law_worker_name_reads_back(j);
}

/// A pool that was started for `workers` has that many threads, as long as `rayon` supports so
/// many, and never more; no two of them have the same name, and each name ends in the digits of the
/// index of its thread.
pub proof fn law_started_threads_are_counted_and_named(pool: rayon::ThreadPool, workers: usize)
    requires
        started_for(pool, workers),
    ensures
        workers <= 0xff ==> pool_threads(pool) == workers,
        usize::BITS == 64 && workers <= 0xffff ==> pool_threads(pool) == workers,
        usize::BITS == 64 && workers > 0xffff ==> pool_threads(pool) == 0xffff,
        usize::BITS != 64 && workers > 0xff ==> pool_threads(pool) == 0xff,
        forall|i: nat, j: nat|
            i < j < pool_threads(pool) ==> #[trigger] pool_thread_name(pool, i)
                != #[trigger] pool_thread_name(pool, j),
        forall|i: nat|
            i < pool_threads(pool) ==> (#[trigger] pool_thread_name(pool, i)).take(
                "ec-compute-"@.len() as int,
            ) == "ec-compute-"@,
        forall|i: nat|
            i < pool_threads(pool) ==> (#[trigger] pool_thread_name(pool, i)).skip(
                "ec-compute-"@.len() as int,
            ).fold_left(0int, |v: int, c: char| 10 * v + (c as int - '0' as int)) == i,
{
    assert forall|i: nat, j: nat| i < j < pool_threads(pool) implies #[trigger] pool_thread_name(
        pool,
        i,
    ) != #[trigger] pool_thread_name(pool, j) by {
        law_worker_names_differ(i, j);
    }
    assert forall|i: nat| i < pool_threads(pool) implies (#[trigger] pool_thread_name(
        pool,
        i,
    )).take("ec-compute-"@.len() as int) == "ec-compute-"@ by {
        law_worker_name_reads_back(i);
    }
    assert forall|i: nat| i < pool_threads(pool) implies (#[trigger] pool_thread_name(
        pool,
        i,
    )).skip("ec-compute-"@.len() as int).fold_left(
        0int,
        |v: int, c: char| 10 * v + (c as int - '0' as int),
    ) == i by {
        law_worker_name_reads_back(i);
    }
}

} // verus!
