//! The navigation status a controlled ship is in, and how a reported game
//! navigation status maps onto it.

use vstd::prelude::*;
use vstd::string::StringExecFns;

verus! {

/// The navigation status the game reports for a ship.
#[derive(Clone, Copy, Debug, Eq, PartialEq, Hash, Structural)]
pub enum ShipNavStatus {
    InTransit,
    InOrbit,
    Docked,
}

/// The current status of the ship.
#[derive(Clone, Copy, Debug, Eq, PartialEq, Hash, Structural)]
pub enum ShipState {
    Unknown,
    InTransit,
    InOrbit,
    Docked,
    Extracting,
}

/// The ship state that a reported navigation status maps to.
pub open spec fn ship_state_of(status: ShipNavStatus) -> ShipState {
    match status {
        ShipNavStatus::InTransit => ShipState::InTransit,
        ShipNavStatus::InOrbit => ShipState::InOrbit,
        ShipNavStatus::Docked => ShipState::Docked,
    }
}

pub fn determine_ship_state(status: ShipNavStatus) -> (r: ShipState)
    ensures
        r == ship_state_of(status),
{
    let mut state = ShipState::default();
    match status {
        ShipNavStatus::InTransit => {
            state = ShipState::InTransit;
        },
        ShipNavStatus::InOrbit => {
            state = ShipState::InOrbit;
        },
        ShipNavStatus::Docked => {
            state = ShipState::Docked;
        },
    }
    state
}

impl ShipState {
    pub open spec fn spec_str(self) -> Seq<char> {
        match self {
            ShipState::Unknown => "UNKNOWN"@,
            ShipState::InTransit => "IN_TRANSIT"@,
            ShipState::InOrbit => "IN_ORBIT"@,
            ShipState::Docked => "DOCKED"@,
            ShipState::Extracting => "EXTRACTING"@,
        }
    }

    pub fn to_string(&self) -> (r: String)
        ensures
            r@ == self.spec_str(),
    {
        match self {
            ShipState::Unknown => String::from_str("UNKNOWN"),
            ShipState::InTransit => String::from_str("IN_TRANSIT"),
            ShipState::InOrbit => String::from_str("IN_ORBIT"),
            ShipState::Docked => String::from_str("DOCKED"),
            ShipState::Extracting => String::from_str("EXTRACTING"),
        }
    }
}

impl Default for ShipState {
    fn default() -> (r: Self)
        ensures
            r == ShipState::Unknown,
    {
        ShipState::Unknown
    }
}

} // verus!
