//! The data that commands are about.

pub mod command_result_code;
pub mod core_symbol_specification;
pub mod order_command;
pub mod user_profile;
