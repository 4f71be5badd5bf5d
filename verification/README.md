# exchange-core-rs

The parallel-compute core of a deterministic exchange engine, verified with Verus.

A command that concerns many users is processed in two steps: it scans the users, and then applies
what the scan found. A scan may be spread over worker threads, and the engine is replicated, so the
result of a scan must not depend on how many threads a node runs. That is what this library proves:
results come in the order of the items, a scan goes by ascending uid, and two pools with different
configurations compute the same.

| Module | What it holds |
|--------|---------------|
| `processors::parallel` | `ComputeConfig`, `ComputePool` and its `map`, and what holds of mapping |
| `processors::thread_pool` | the worker threads, from the `rayon` crate: all that is taken on trust |
| `processors::twostep_command_processor` | `TwoStepContext`, `TwoStepCommandProcessor` and its `map_users`, and what holds of scans |
| `processors::user_profile_service` | the users, the order of their uids, selecting among them |
| `processors::risk_engine`, `processors::symbol_specification_provider` | the other parts of a context |
| `common` | the data that commands are about |
| `text` | decimal text |

Starting worker threads can fail, so `ComputePool::new` returns a `Result`; with at most one worker
it always succeeds. `app/` holds a version that panics, and the `Debug` output of a pool.
