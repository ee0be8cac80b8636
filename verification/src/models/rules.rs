//! Rules as they come from the settings source.

use vstd::prelude::*;

verus! {

/// One configured rule. Staleness rules name a maximum age in seconds.
#[derive(Debug)]
pub enum Rule {
    StalenessRule { name: String, seconds_till_stale: u32 },
}

} // verus!
