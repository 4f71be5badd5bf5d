//! Mapping a function over many items, serially or on worker threads, with the same result.

use vstd::prelude::*;
use vstd::string::StringExecFns;

use super::task::{deferred, Task};
use super::thread_pool::{
    law_started_threads_are_counted_and_named, par_map, pool_takes_up_work, start_threads,
};
use crate::text::{law_decimal_reads_back, push_decimal};

verus! {

/// How many worker threads to compute with, and from how many items on to use them.
#[derive(Debug, Clone, Copy, PartialEq, Eq, Structural)]
pub struct ComputeConfig {
    /// The number of worker threads; with one or none, no thread is started.
    pub workers: usize,
    /// The number of items below which the calling thread does the work itself.
    pub serial_threshold: usize,
}

impl ComputeConfig {
    /// One worker, which is the calling thread, and a threshold of 1024 items.
    pub open spec fn default_config() -> ComputeConfig {
        ComputeConfig { workers: 1, serial_threshold: 1024 }
    }

    /// Whether `len` items call for the worker threads.
    pub open spec fn uses_workers(self, len: nat) -> bool {
        self.workers > 1 && len >= self.serial_threshold
    }
}

impl Default for ComputeConfig {
    fn default() -> (config: Self)
        ensures
            config == ComputeConfig::default_config(),
            config.workers == 1,
            config.serial_threshold == 1024,
    {
        ComputeConfig { workers: 1, serial_threshold: 1024 }
    }
}

/// Why a pool could not be had.
#[derive(Debug)]
pub enum ComputePoolError {
    /// The worker threads could not be started.
    ThreadPoolBuild(rayon::ThreadPoolBuildError),
}

/// Computes on worker threads where its configuration asks for that, and on the calling thread
/// otherwise.
///
/// Its view is the configuration.
pub struct ComputePool {
    pool: Option<rayon::ThreadPool>,
    config: ComputeConfig,
}

impl View for ComputePool {
    type V = ComputeConfig;

    closed spec fn view(&self) -> ComputeConfig {
        self.config
    }
}

/// Whether `out` holds, for every item and in the order of the items, a result of calling `f` on
/// that item.
pub open spec fn maps_to<X, T, F: Fn(&X) -> T>(f: F, items: Seq<X>, out: Seq<T>) -> bool {
    &&& out.len() == items.len()
    &&& forall|i: int| 0 <= i < items.len() ==> call_ensures(f, (&items[i],), #[trigger] out[i])
}

/// Whether calling `f` twice on `item` gives the same result.
pub open spec fn single_valued_at<X, T, F: Fn(&X) -> T>(f: F, item: X) -> bool {
    forall|a: T, b: T| #[trigger]
        call_ensures(f, (&item,), a) && #[trigger] call_ensures(f, (&item,), b) ==> a == b
}

/// Whether calling `f` twice on the same item gives the same result, for each of `items`.
pub open spec fn single_valued<X, T, F: Fn(&X) -> T>(f: F, items: Seq<X>) -> bool {
    forall|i: int| 0 <= i < items.len() ==> single_valued_at(f, #[trigger] items[i])
}

/// Whether `built` is what came of starting a pool of `workers` worker threads.
pub closed spec fn came_of_starting(
    workers: usize,
    built: Result<rayon::ThreadPool, rayon::ThreadPoolBuildError>,
) -> bool {
    call_ensures(start_threads, (workers,), built)
}

/// Whether `out` is what came of letting the threads of a pool share `items`, each calling
/// `map_one` on those that fall to it.
pub closed spec fn shared_out<X: Sync, T: Send, F: Fn(&X) -> T + Sync>(
    items: &[X],
    map_one: &F,
    out: Vec<T>,
) -> bool {
    call_ensures(par_map, (items, map_one), out)
}

/// Calls `map_one` on every item and returns the results in the order of the items; the threads of
/// the pool that the calling thread belongs to share the items.
pub fn map_shared<X: Sync, T: Send, F: Fn(&X) -> T + Sync>(items: &[X], map_one: &F) -> (out: Vec<
    T,
>)
    requires
        forall|i: int|
            0 <= i < items@.len() ==> call_requires(*map_one, (&#[trigger] items@[i],)),
    ensures
        maps_to(*map_one, items@, out@),
        out@.len() == items@.len(),
        forall|i: int|
            0 <= i < items@.len() ==> call_ensures(*map_one, (&items@[i],), #[trigger] out@[i]),
        shared_out(items, map_one, out),
{
    par_map(items, map_one)
}

/// Calls `map_one` on every item and returns the results in the order of the items; the calling
/// thread works off one item after the other.
pub fn map_in_turn<X, T, F: Fn(&X) -> T>(items: &[X], map_one: &F) -> (out: Vec<T>)
    requires
        forall|i: int|
            0 <= i < items@.len() ==> call_requires(*map_one, (&#[trigger] items@[i],)),
    ensures
        maps_to(*map_one, items@, out@),
        out@.len() == items@.len(),
        forall|i: int|
            0 <= i < items@.len() ==> call_ensures(*map_one, (&items@[i],), #[trigger] out@[i]),
{
    let mut out: Vec<T> = Vec::new();
    let mut i: usize = 0;
    while i < items.len()
        invariant
            i <= items@.len(),
            forall|j: int|
                0 <= j < items@.len() ==> call_requires(*map_one, (&#[trigger] items@[j],)),
            maps_to(*map_one, items@.take(i as int), out@),
        decreases items@.len() - i,
    {
        out.push(map_one(&items[i]));
        i += 1;
    }
    assert(items@.take(i as int) =~= items@);
    out
}

/// What [`ComputePool::describe`] writes for a pool with the given configuration.
pub open spec fn description(config: ComputeConfig) -> Seq<char> {
    "ComputePool { config: ComputeConfig { workers: "@ + crate::text::decimal(config.workers as nat)
        + ", serial_threshold: "@ + crate::text::decimal(config.serial_threshold as nat) + " } }"@
}

impl ComputePool {
    /// Worker threads are there exactly where the configuration asks for more than one worker, and
    /// they take up work.
    #[verifier::type_invariant]
    closed spec fn threads_match_config(self) -> bool {
        &&& self.pool is Some <==> self.config.workers > 1
        &&& self.pool matches Some(threads) ==> pool_takes_up_work(threads)
    }

    /// The worker threads, if there are any.
    pub closed spec fn threads(self) -> Option<rayon::ThreadPool> {
        self.pool
    }

    /// Whether this pool computes under `config`, with the worker threads that it asks for.
    pub open spec fn set_up_for(self, config: ComputeConfig) -> bool {
        &&& self@ == config
        &&& match self.threads() {
            Some(threads) => config.workers > 1 && super::thread_pool::started_for(
                threads,
                config.workers,
            ),
            None => config.workers <= 1,
        }
    }

    /// Starts the worker threads that `config` asks for.
    ///
    /// With at most one worker there is nothing to start, and nothing that can fail.
    pub fn new(config: ComputeConfig) -> (r: Result<Self, ComputePoolError>)
        ensures
            config.workers <= 1 ==> r is Ok,
            r matches Ok(pool) ==> pool.set_up_for(config),
            r matches Ok(pool) ==> pool@ == config && (pool.threads() is Some <==> config.workers
                > 1),
            config.workers > 1 ==> exists|built: Result<_, _>|
                {
                    &&& #[trigger] came_of_starting(config.workers, built)
                    &&& match built {
                        Ok(threads) => r matches Ok(pool) && pool.threads() == Some(threads),
                        Err(cause) => r == Err::<Self, _>(ComputePoolError::ThreadPoolBuild(cause)),
                    }
                },
    {
        if config.workers > 1 {
            let built = start_threads(config.workers);
            assert(came_of_starting(config.workers, built));
            Self::from_build(config, built)
        } else {
            Ok(ComputePool { pool: None, config })
        }
    }

    /// The pool that computes under `config`, given what came of starting its worker threads.
    ///
    /// The threads have to take up work, because [`map`](Self::map) waits for them to do so. Their
    /// number may differ from the one in `config`, and changes no result.
    pub fn from_build(
        config: ComputeConfig,
        built: Result<rayon::ThreadPool, rayon::ThreadPoolBuildError>,
    ) -> (r: Result<Self, ComputePoolError>)
        requires
            config.workers > 1,
            built matches Ok(threads) ==> pool_takes_up_work(threads),
        ensures
            match built {
                Ok(threads) => r matches Ok(pool) && pool@ == config && pool.threads() == Some(
                    threads,
                ),
                Err(cause) => r == Err::<Self, _>(ComputePoolError::ThreadPoolBuild(cause)),
            },
    {
        match built {
            Ok(threads) => Ok(ComputePool { pool: Some(threads), config }),
            Err(cause) => Err(ComputePoolError::ThreadPoolBuild(cause)),
        }
    }

    /// The configuration that the pool was made with.
    pub fn config(&self) -> (config: &ComputeConfig)
        ensures
            *config == self@,
    {
        &self.config
    }

    /// Whether [`map`](Self::map) hands `len` items to the worker threads: there are some, and the
    /// items are not fewer than the threshold.
    pub fn uses_workers(&self, len: usize) -> (r: bool)
        ensures
            r == self@.uses_workers(len as nat),
            r <==> self@.workers > 1 && len >= self@.serial_threshold,
            r ==> self.threads() is Some,
    {
        proof {
            use_type_invariant(self);
        }
        self.pool.is_some() && len >= self.config.serial_threshold
    }

    /// Calls `map_one` on every item and returns the results in the order of the items.
    ///
    /// Few items, or a pool without worker threads, are worked off one after the other by the
    /// calling thread; otherwise the worker threads share them. What comes back is the same.
    pub fn map<X, T>(&self, items: &[X], map_one: impl Fn(&X) -> T + Sync) -> (out: Vec<T>) where
        X: Sync,
        T: Send,

        requires
            forall|i: int|
                0 <= i < items@.len() ==> call_requires(map_one, (&#[trigger] items@[i],)),
        ensures
            maps_to(map_one, items@, out@),
            out@.len() == items@.len(),
            forall|i: int|
                0 <= i < items@.len() ==> call_ensures(map_one, (&items@[i],), #[trigger] out@[i]),
            self@.workers > 1 && items@.len() >= self@.serial_threshold ==> {
                &&& shared_out(items, &map_one, out)
                &&& self.threads() is Some
                &&& exists|task|
                    {
                        &&& call_ensures(deferred, (map_shared, items, &map_one), task)
                        &&& #[trigger] call_ensures(
                            rayon::ThreadPool::install,
                            (&self.threads()->0, task.op()),
                            out,
                        )
                    }
            },
            !(self@.workers > 1 && items@.len() >= self@.serial_threshold) ==> call_ensures(
                map_in_turn,
                (items, &map_one),
                out,
            ),
    {
        proof {
            use_type_invariant(self);
        }
        match &self.pool {
            Some(threads) if self.uses_workers(items.len()) => self.map_on_workers(
                threads,
                items,
                &map_one,
            ),
            _ => self.map_serially(items, &map_one),
        }
    }

    /// Lets the worker threads share the items; only for as many items as call for them.
    fn map_on_workers<X: Sync, T: Send, F: Fn(&X) -> T + Sync>(
        &self,
        threads: &rayon::ThreadPool,
        items: &[X],
        map_one: &F,
    ) -> (out: Vec<T>)
        requires
            self@.uses_workers(items@.len()),
            self.threads() == Some(*threads),
            forall|i: int|
                0 <= i < items@.len() ==> call_requires(*map_one, (&#[trigger] items@[i],)),
        ensures
            maps_to(*map_one, items@, out@),
            shared_out(items, map_one, out),
            exists|task|
                {
                    &&& call_ensures(deferred, (map_shared, items, map_one), task)
                    &&& #[trigger] call_ensures(
                        rayon::ThreadPool::install,
                        (threads, task.op()),
                        out,
                    )
                },
    {
        proof {
            use_type_invariant(self);
        }
        let task = deferred(map_shared, items, map_one);
        threads.install(task.into_op())
    }

    /// Calls `map_one` on the items one after the other, on the calling thread; only for as many
    /// items as do not call for the worker threads.
    fn map_serially<X, T, F: Fn(&X) -> T>(&self, items: &[X], map_one: &F) -> (out: Vec<T>)
        requires
            !self@.uses_workers(items@.len()),
            forall|i: int|
                0 <= i < items@.len() ==> call_requires(*map_one, (&#[trigger] items@[i],)),
        ensures
            maps_to(*map_one, items@, out@),
            call_ensures(map_in_turn, (items, map_one), out),
    {
        map_in_turn(items, map_one)
    }

    /// The text `ComputePool { config: .. }`, with the configuration spelled out and without the
    /// worker threads.
    pub fn describe(&self) -> (text: String)
        ensures
            text@ == description(self@),
    {
        let mut text = String::from_str("ComputePool { config: ComputeConfig { workers: ");
        push_decimal(&mut text, self.config.workers);
        text.append(", serial_threshold: ");
        push_decimal(&mut text, self.config.serial_threshold);
        text.append(" } }");
        text
    }
}

impl Default for ComputePool {
    fn default() -> (pool: Self)
        ensures
            pool.set_up_for(ComputeConfig::default_config()),
            pool@.workers == 1,
            pool@.serial_threshold == 1024,
            pool.threads() is None,
    {
        let config = ComputeConfig::default();
        ComputePool { pool: None, config }
    }
}

/// The results of [`ComputePool::map`] do not depend on the pool: whatever the numbers of workers
/// and the thresholds of two pools are, a function whose result depends on its argument alone is
/// mapped over the same items to the same results.
pub proof fn law_map_is_worker_invariant<X, T, F: Fn(&X) -> T>(
    f: F,
    items: Seq<X>,
    out1: Seq<T>,
    out2: Seq<T>,
)
    requires
        single_valued(f, items),
        maps_to(f, items, out1),
        maps_to(f, items, out2),
    ensures
        out1 == out2,
{
    assert forall|i: int| 0 <= i < items.len() implies out1[i] == out2[i] by {
        assert(single_valued_at(f, items[i]));
        assert(call_ensures(f, (&items[i],), out1[i]));
        assert(call_ensures(f, (&items[i],), out2[i]));
    }
    assert(out1 =~= out2);
}

/// A function that computes `g` is mapped over the items to the values of `g`, item by item.
pub proof fn law_map_applies_the_function<X, T, F: Fn(&X) -> T>(
    f: F,
    g: spec_fn(X) -> T,
    items: Seq<X>,
    out: Seq<T>,
)
    requires
        forall|i: int, t: T|
            0 <= i < items.len() && #[trigger] call_ensures(f, (&items[i],), t) ==> t == g(
                items[i],
            ),
        maps_to(f, items, out),
    ensures
        out == items.map_values(g),
{
    assert forall|i: int| 0 <= i < items.len() implies out[i] == g(items[i]) by {
        assert(call_ensures(f, (&items[i],), out[i]));
    }
    assert(out =~= items.map_values(g));
}

/// The work may be split anywhere: mapping `left + right` is mapping `left`, mapping `right`, and
/// joining the results.
pub proof fn law_map_splits<X, T, F: Fn(&X) -> T>(
    f: F,
    left: Seq<X>,
    right: Seq<X>,
    out_left: Seq<T>,
    out_right: Seq<T>,
)
    requires
        out_left.len() == left.len(),
    ensures
        maps_to(f, left + right, out_left + out_right) <==> maps_to(f, left, out_left) && maps_to(
            f,
            right,
            out_right,
        ),
{
    let items = left + right;
    let out = out_left + out_right;
    if maps_to(f, items, out) {
        assert forall|i: int| 0 <= i < left.len() implies call_ensures(
            f,
            (&left[i],),
            #[trigger] out_left[i],
        ) by {
            assert(out[i] == out_left[i]);
        }
        assert forall|i: int| 0 <= i < right.len() implies call_ensures(
            f,
            (&right[i],),
            #[trigger] out_right[i],
        ) by {
            assert(out[left.len() + i] == out_right[i]);
        }
    }
}

/// Under the default configuration no number of items calls for worker threads.
pub proof fn law_default_is_serial(len: nat)
    ensures
        !ComputeConfig::default_config().uses_workers(len),
{
}

/// Fewer items than the threshold do not call for worker threads, whatever the number of workers
/// is.
pub proof fn law_below_threshold_is_serial(config: ComputeConfig, len: nat)
    requires
        len < config.serial_threshold,
    ensures
        !config.uses_workers(len),
{
}

/// The worker threads are used from the threshold on, and only where there is more than one worker:
/// for one worker or none the answer is no for every number of items, and for more it turns to yes
/// at the threshold and stays so.
pub proof fn law_workers_are_used_from_the_threshold_on(
    config: ComputeConfig,
    len: nat,
    more: nat,
)
    ensures
        config.workers > 1 && len >= config.serial_threshold ==> config.uses_workers(len),
        config.workers <= 1 ==> !config.uses_workers(len),
        len < config.serial_threshold ==> !config.uses_workers(len),
        len <= more && config.uses_workers(len) ==> config.uses_workers(more),
{
}

/// What [`ComputePool::uses_workers`] answers is what [`ComputePool::map`] does: on `true` the task
/// of sharing the items is installed on the worker threads of the pool, and the result is what came
/// of it; on `false` the calling thread works off the items in turn. The answer is `true` exactly
/// for more than one worker and no fewer items than the threshold.
pub proof fn law_map_runs_where_uses_workers_says<X: Sync, T: Send, F: Fn(&X) -> T + Sync>(
    pool: &ComputePool,
    items: &[X],
    len: usize,
    f: F,
    answer: bool,
    out: Vec<T>,
)
    requires
        len == items@.len(),
        call_ensures(ComputePool::uses_workers, (pool, len), answer),
        call_ensures(ComputePool::map, (pool, items, f), out),
    ensures
        answer <==> pool@.workers > 1 && items@.len() >= pool@.serial_threshold,
        answer ==> pool.threads() is Some && exists|task|
            {
                &&& call_ensures(deferred, (map_shared, items, &f), task)
                &&& #[trigger] call_ensures(
                    rayon::ThreadPool::install,
                    (&pool.threads()->0, task.op()),
                    out,
                )
            },
        !answer ==> call_ensures(map_in_turn, (items, &f), out),
{
}

/// Where the threads of a pool share items, `rayon` deals the items out.
pub(crate) proof fn law_shared_items_are_dealt_out_by_rayon<
    X: Sync,
    T: Send,
    F: Fn(&X) -> T + Sync,
>(pool: &ComputePool, items: &[X], f: F, out: Vec<T>)
    requires
        pool@.workers > 1,
        items@.len() >= pool@.serial_threshold,
        call_ensures(ComputePool::map, (pool, items, f), out),
    ensures
        call_ensures(par_map, (items, &f), out),
{
}

/// Where a pool is asked to have more than one worker, `rayon` is asked for exactly that many
/// threads, and decides whether there is a pool.
pub(crate) proof fn law_worker_threads_are_started_by_rayon(
    config: ComputeConfig,
    r: Result<ComputePool, ComputePoolError>,
) -> (built: Result<rayon::ThreadPool, rayon::ThreadPoolBuildError>)
    requires
        config.workers > 1,
        call_ensures(ComputePool::new, (config,), r),
    ensures
        call_ensures(start_threads, (config.workers,), built),
        built is Ok <==> r is Ok,
        r matches Ok(pool) ==> pool.threads() == Some(built->Ok_0),
        r matches Err(e) ==> e == ComputePoolError::ThreadPoolBuild(built->Err_0),
{
    choose|built: Result<rayon::ThreadPool, rayon::ThreadPoolBuildError>|
        {
            &&& #[trigger] came_of_starting(config.workers, built)
            &&& match built {
                Ok(threads) => r matches Ok(pool) && pool.threads() == Some(threads),
                Err(cause) => r == Err::<ComputePool, _>(ComputePoolError::ThreadPoolBuild(cause)),
            }
        }
}

/// A pool that is set up for a configuration has that configuration, and worker threads exactly
/// where that asks for more than one: as many as it asks for, as long as `rayon` supports so many,
/// each with a name of its own.
pub proof fn law_pool_has_the_threads_that_it_is_set_up_for(
    pool: ComputePool,
    config: ComputeConfig,
)
    requires
        pool.set_up_for(config),
    ensures
        pool@.workers == config.workers,
        pool@.serial_threshold == config.serial_threshold,
        pool.threads() is Some <==> config.workers > 1,
        pool.threads() matches Some(threads) ==> {
            &&& config.workers <= 0xff ==> super::thread_pool::pool_threads(threads)
                == config.workers
            &&& usize::BITS == 64 && config.workers <= 0xffff
                ==> super::thread_pool::pool_threads(threads) == config.workers
            &&& forall|i: nat, j: nat|
                i < j < super::thread_pool::pool_threads(threads)
                    ==> #[trigger] super::thread_pool::pool_thread_name(threads, i)
                    != #[trigger] super::thread_pool::pool_thread_name(threads, j)
        },
{
    if let Some(threads) = pool.threads() {
        law_started_threads_are_counted_and_named(threads, config.workers);
    }
}

/// The configuration that a pool is found to have is the one that it was made with.
pub proof fn law_config_is_what_the_pool_was_made_with(
    config: ComputeConfig,
    pool: ComputePool,
    found: &ComputeConfig,
)
    requires
        call_ensures(ComputePool::new, (config,), Ok::<_, ComputePoolError>(pool)),
        call_ensures(ComputePool::config, (&pool,), found),
    ensures
        found.workers == config.workers,
        found.serial_threshold == config.serial_threshold,
{
}

/// A pool under the default configuration has no worker threads, and one worker and a threshold of
/// 1024 items in its configuration.
pub proof fn law_default_configuration(pool: ComputePool)
    requires
        pool.set_up_for(ComputeConfig::default_config()),
    ensures
        pool@.workers == 1,
        pool@.serial_threshold == 1024,
        pool.threads() is None,
{
}

/// A description holds the two numbers of the configuration: between the words stand digits,
/// without a needless zero in front, which give the number of workers and the threshold when they
/// are read from left to right.
pub proof fn law_description_reads_back(config: ComputeConfig) -> (digits: (Seq<char>, Seq<char>))
    ensures
        description(config) == "ComputePool { config: ComputeConfig { workers: "@ + digits.0
            + ", serial_threshold: "@ + digits.1 + " } }"@,
        digits.0.fold_left(0int, |v: int, c: char| 10 * v + (c as int - '0' as int))
            == config.workers,
        digits.1.fold_left(0int, |v: int, c: char| 10 * v + (c as int - '0' as int))
            == config.serial_threshold,
        digits.0.len() > 0,
        digits.1.len() > 0,
        digits.0.len() > 1 ==> digits.0[0] != '0',
        digits.1.len() > 1 ==> digits.1[0] != '0',
        forall|i: int|
            0 <= i < digits.0.len() ==> '0' as int <= (#[trigger] digits.0[i]) as int <= '9' as int,
        forall|i: int|
            0 <= i < digits.1.len() ==> '0' as int <= (#[trigger] digits.1[i]) as int <= '9' as int,
{
    law_decimal_reads_back(config.workers as nat);
    law_decimal_reads_back(config.serial_threshold as nat);
    (
        crate::text::decimal(config.workers as nat),
        crate::text::decimal(config.serial_threshold as nat),
    )
}

/// Different configurations have different descriptions.
pub proof fn law_descriptions_tell_configurations_apart(a: ComputeConfig, b: ComputeConfig)
    ensures
        description(a) == description(b) <==> a == b,
{
    let (wa, ta) = law_description_reads_back(a);
    let (wb, tb) = law_description_reads_back(b);
    let head = "ComputePool { config: ComputeConfig { workers: "@;
    let middle = ", serial_threshold: "@;
    let tail = " } }"@;
    if description(a) == description(b) {
        reveal_strlit(", serial_threshold: ");
        let text = description(a);
        if wa.len() < wb.len() {
            assert(text[(head.len() + wa.len()) as int] == middle[0]);
            assert(text[(head.len() + wa.len()) as int] == wb[wa.len() as int]);
        }
        if wb.len() < wa.len() {
            assert(text[(head.len() + wb.len()) as int] == middle[0]);
            assert(text[(head.len() + wb.len()) as int] == wa[wb.len() as int]);
        }
        assert forall|i: int| 0 <= i < wa.len() implies wa[i] == wb[i] by {
            assert(text[head.len() + i] == wa[i]);
            assert(text[head.len() + i] == wb[i]);
        }
        assert(wa =~= wb);
        let from = head.len() + wa.len() + middle.len();
        assert(text.len() == from + ta.len() + tail.len());
        assert(text.len() == from + tb.len() + tail.len());
        assert forall|i: int| 0 <= i < ta.len() implies ta[i] == tb[i] by {
            assert(text[from + i] == ta[i]);
            assert(text[from + i] == tb[i]);
        }
        assert(ta =~= tb);
    }
}

} // verus!
