//! The one record that leaves the engine: a primary surface form and an
//! optional secondary one.

use vstd::prelude::*;

verus! {

/// A single suggestion in a response.
#[derive(Debug, Clone)]
pub struct Output {
    pub primary: String,
    pub secondary: Option<String>,
}

impl Output {
    /// Create a new suggestion record.
    pub fn new(primary: String, secondary: Option<String>) -> (r: Output)
        ensures
            r.primary == primary,
            r.secondary == secondary,
    {
        Output { primary, secondary }
    }
}

} // verus!
