//! The processors that commands pass through, and the services that they share.

pub mod mapping;
pub mod parallel;
pub mod risk_engine;
pub mod symbol_specification_provider;
pub mod task;
pub mod thread_pool;
pub mod twostep_command_processor;
pub mod user_profile_service;
