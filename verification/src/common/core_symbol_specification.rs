//! What is known of a symbol.

use vstd::prelude::*;

verus! {

/// A tradable symbol and the two currencies that it trades.
#[derive(Debug, Clone, Copy, PartialEq, Eq, Structural)]
pub struct CoreSymbolSpecification {
    pub symbol_id: i32,
    pub base_currency: i32,
    pub quote_currency: i32,
}

} // verus!
