//! The symbols that can be traded.

use std::collections::BTreeMap;

use vstd::prelude::*;

use crate::common::core_symbol_specification::CoreSymbolSpecification;

verus! {

/// The symbols that can be traded, by id.
pub struct SymbolSpecificationProvider {
    pub symbols: BTreeMap<i32, CoreSymbolSpecification>,
}

impl SymbolSpecificationProvider {
    /// A provider without symbols.
    pub fn new() -> (ssp: Self)
        ensures
            ssp.symbols@ == Map::<i32, CoreSymbolSpecification>::empty(),
    {
        SymbolSpecificationProvider { symbols: BTreeMap::new() }
    }
}

} // verus!
