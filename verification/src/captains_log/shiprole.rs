//! The role a controlled ship currently fills.

use vstd::prelude::*;
use vstd::string::StringExecFns;

verus! {

/// The current role of the ship.
#[derive(Clone, Copy, Debug, Eq, PartialEq, Hash, Structural)]
pub enum ShipRole {
    Unassigned,
    Miner,
    Trader,
    Fighter,
    Explorer,
    MarketScout,
}

impl ShipRole {
    pub open spec fn spec_str(self) -> Seq<char> {
        match self {
            ShipRole::Unassigned => "UNASSIGNED"@,
            ShipRole::Miner => "MINER"@,
            ShipRole::Trader => "TRADER"@,
            ShipRole::Fighter => "FIGHTER"@,
            ShipRole::Explorer => "EXPLORER"@,
            ShipRole::MarketScout => "MARKET_SCOUT"@,
        }
    }

    pub fn to_string(&self) -> (r: String)
        ensures
            r@ == self.spec_str(),
    {
        match self {
            ShipRole::Unassigned => String::from_str("UNASSIGNED"),
            ShipRole::Miner => String::from_str("MINER"),
            ShipRole::Trader => String::from_str("TRADER"),
            ShipRole::Fighter => String::from_str("FIGHTER"),
            ShipRole::Explorer => String::from_str("EXPLORER"),
            ShipRole::MarketScout => String::from_str("MARKET_SCOUT"),
        }
    }
}

impl Default for ShipRole {
    fn default() -> (r: Self)
        ensures
            r == ShipRole::Unassigned,
    {
        ShipRole::Unassigned
    }
}

} // verus!
