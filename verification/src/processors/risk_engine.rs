//! The risk engine, as far as it computes over many users.

use vstd::prelude::*;

use super::parallel::{ComputeConfig, ComputePool, ComputePoolError};

verus! {

/// The engine that checks and settles commands; it owns the pool that their scans run on.
pub struct RiskEngine {
    compute_pool: ComputePool,
}

impl RiskEngine {
    /// The pool that scans run on.
    pub closed spec fn pool(self) -> ComputePool {
        self.compute_pool
    }

    /// An engine that computes serially.
    pub fn new() -> (risk: Self)
        ensures
            risk.pool().set_up_for(ComputeConfig::default_config()),
            risk.pool()@.workers == 1,
            risk.pool()@.serial_threshold == 1024,
            risk.pool().threads() is None,
    {
        RiskEngine { compute_pool: ComputePool::default() }
    }

    /// The pool that scans run on.
    pub fn compute_pool(&self) -> (pool: &ComputePool)
        ensures
            *pool == self.pool(),
    {
        &self.compute_pool
    }

    /// Computes under `config` from now on; where its worker threads cannot be started, the engine
    /// stays as it is.
    pub fn set_compute_config(&mut self, config: ComputeConfig) -> (r: Result<(), ComputePoolError>)
        ensures
            config.workers <= 1 ==> r is Ok,
            match r {
                Ok(()) => final(self).pool().set_up_for(config),
                Err(_) => *final(self) == *old(self),
            },
            exists|made: Result<ComputePool, ComputePoolError>|
                {
                    &&& #[trigger] call_ensures(ComputePool::new, (config,), made)
                    &&& match made {
                        Ok(pool) => r is Ok && final(self).pool() == pool,
                        Err(e) => r == Err::<(), _>(e),
                    }
                },
    {
        match ComputePool::new(config) {
            Ok(pool) => {
                self.compute_pool = pool;
                Ok(())
            },
            Err(e) => Err(e),
        }
    }
}

/// An engine that was set up for a configuration is found to compute under that configuration, with
/// worker threads exactly where it asks for more than one.
pub proof fn law_engine_computes_under_the_last_configuration(
    risk: RiskEngine,
    config: ComputeConfig,
    pool: &ComputePool,
    found: &ComputeConfig,
)
    requires
        risk.pool().set_up_for(config),
        call_ensures(RiskEngine::compute_pool, (&risk,), pool),
        call_ensures(ComputePool::config, (pool,), found),
    ensures
        found.workers == config.workers,
        found.serial_threshold == config.serial_threshold,
        pool.threads() is Some <==> config.workers > 1,
{
}

} // verus!
