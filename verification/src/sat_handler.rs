//! The system status indicator.
use vstd::prelude::*;

verus! {

broadcast use vstd::string::group_string_axioms;

/// The handler of the system status indicator.
pub struct SatHandler;

impl SatHandler {
    pub fn new() -> Self {
        SatHandler
    }

    /// The status shown: the system is in order.
    pub fn get_status(&self) -> (r: String)
        ensures
            r@ == "Система в норме"@,
    {
        "Система в норме".to_string()
    }
}

} // verus!
