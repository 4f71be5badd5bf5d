//! The commands that processors work on.

use vstd::prelude::*;

use super::command_result_code::CommandResultCode;

verus! {

/// A command on its way through the pipeline.
#[derive(Debug, Clone, Copy, PartialEq, Eq, Structural)]
pub struct OrderCommand {
    pub order_id: i64,
    pub uid: i64,
    pub symbol: i32,
    pub price: i64,
    pub size: i64,
    pub timestamp: i64,
    pub result_code: Option<CommandResultCode>,
}

} // verus!
