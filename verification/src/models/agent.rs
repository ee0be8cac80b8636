//! The persisted record of a game agent.

use vstd::prelude::*;

verus! {

/// One agent as the store holds it.
#[derive(Debug)]
pub struct Agent {
    pub token: String,
    pub account_id: String,
    pub symbol: String,
    pub headquarters: String,
    pub credits: i64,
    pub registered_timestamp: i64,
    pub last_updated_timestamp: i64,
}

} // verus!
