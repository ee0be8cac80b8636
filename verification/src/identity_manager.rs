//! An agent's stored credentials. Fetching and persisting them in the
//! credential store is plumbing outside the library; the record itself and
//! what its accessors return are pinned here.

use vstd::prelude::*;

use crate::clock::now_string;

verus! {

/// One agent's identity: its symbol and API token, with the time the record
/// was created.
#[derive(Debug)]
pub struct AgentIdentity {
    symbol: String,
    token: String,
    created_timestamp: String,
}

impl AgentIdentity {
    pub closed spec fn symbol_spec(&self) -> Seq<char> {
        self.symbol@
    }

    pub closed spec fn token_spec(&self) -> Seq<char> {
        self.token@
    }

    /// A fresh identity record; the creation timestamp is read from the
    /// clock, so only symbol and token are pinned.
    pub fn new(symbol: String, token: String) -> (r: Self)
        ensures
            r.symbol_spec() == symbol@,
            r.token_spec() == token@,
    {
        AgentIdentity { symbol, token, created_timestamp: now_string() }
    }

    pub fn get_symbol(&self) -> (r: String)
        ensures
            r@ == self.symbol_spec(),
    {
        self.symbol.clone()
    }

    pub fn get_token(&self) -> (r: String)
        ensures
            r@ == self.token_spec(),
    {
        self.token.clone()
    }
}

} // verus!
