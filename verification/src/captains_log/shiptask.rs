//! The tasks a controlled ship can be assigned.

use vstd::prelude::*;
use vstd::string::StringExecFns;

verus! {

/// What a ship is currently meant to do.
#[derive(Clone, Copy, Debug, Eq, PartialEq, Hash, Structural)]
pub enum TaskID {
    Idle,
    Navigate,
    Buy,
    Sell,
    Survey,
    Scan,
    Extract,
    Deploy,
    BuyShip,
}

impl TaskID {
    /// The label each task renders as; several tasks share the label of the
    /// ship posture they demand.
    pub open spec fn spec_str(self) -> Seq<char> {
        match self {
            TaskID::Idle => "IDLE"@,
            TaskID::Navigate => "IN_TRANSIT"@,
            TaskID::Buy => "IN_ORBIT"@,
            TaskID::Sell => "DOCKED"@,
            TaskID::Survey => "DOCKED"@,
            TaskID::Scan => "DOCKED"@,
            TaskID::Extract => "DOCKED"@,
            TaskID::Deploy => "DOCKED"@,
            TaskID::BuyShip => "DOCKED"@,
        }
    }

    pub fn to_string(&self) -> (r: String)
        ensures
            r@ == self.spec_str(),
    {
        match self {
            TaskID::Idle => String::from_str("IDLE"),
            TaskID::Navigate => String::from_str("IN_TRANSIT"),
            TaskID::Buy => String::from_str("IN_ORBIT"),
            TaskID::Sell => String::from_str("DOCKED"),
            TaskID::Survey => String::from_str("DOCKED"),
            TaskID::Scan => String::from_str("DOCKED"),
            TaskID::Extract => String::from_str("DOCKED"),
            TaskID::Deploy => String::from_str("DOCKED"),
            TaskID::BuyShip => String::from_str("DOCKED"),
        }
    }
}

impl Default for TaskID {
    fn default() -> (r: Self)
        ensures
            r == TaskID::Idle,
    {
        TaskID::Idle
    }
}

/// One queued assignment for a ship.
#[derive(Clone, Copy, Debug, PartialEq, Eq, Structural)]
pub struct ShipTask {
    pub task_id: TaskID,
}

} // verus!
