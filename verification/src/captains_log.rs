//! The captain's log: in-memory state of the controlled fleet and the
//! ledger, keyed by ship symbol.

use vstd::prelude::*;

pub mod ledger;
pub mod shiprole;
pub mod shipstate;
pub mod shiptask;

use crate::captains_log::shipstate::{determine_ship_state, ship_state_of, ShipNavStatus};

verus! {

/// What the log reads of a game ship: its symbol and navigation status.
#[derive(Debug)]
pub struct Ship {
    pub symbol: String,
    pub nav_status: ShipNavStatus,
}

/// One ship under our control: the latest game record beside the role,
/// state, task queue and cooldown we manage for it.
#[derive(Debug)]
pub struct ControlledShip {
    pub ship: Ship,
    pub role: shiprole::ShipRole,
    pub state: shipstate::ShipState,
    pub task_queue: Vec<shiptask::ShipTask>,
    pub cooldown_timestamp: i64,
}

impl ControlledShip {
    pub fn change_role(&mut self, new_role: shiprole::ShipRole)
        ensures
            final(self).role == new_role,
            final(self).ship == old(self).ship,
            final(self).state == old(self).state,
            final(self).task_queue == old(self).task_queue,
            final(self).cooldown_timestamp == old(self).cooldown_timestamp,
    {
        self.role = new_role;
    }
}

/// Copy a ship-task queue.
fn copy_tasks(v: &Vec<shiptask::ShipTask>) -> (r: Vec<shiptask::ShipTask>)
    ensures
        r@ =~= v@,
{
    let n = v.len();
    let mut r: Vec<shiptask::ShipTask> = Vec::new();
    let mut i: usize = 0;
    while i < n
        invariant
            n == v.len(),
            i <= n,
            r@ =~= v@.subrange(0, i as int),
        decreases n - i,
    {
        r.push(v[i]);
        proof {
            assert(r@ =~= v@.subrange(0, i as int + 1));
        }
        i += 1;
    }
    proof {
        assert(v@.subrange(0, n as int) =~= v@);
    }
    r
}

/// The whole log: the ledger and the controlled ships, one entry per ship
/// symbol.
pub struct CaptainsLog {
    pub ledger: ledger::Ledger,
    pub ships: Vec<ControlledShip>,
}

impl CaptainsLog {
    /// No two entries describe the same ship, and the ledger is
    /// well-formed.
    pub open spec fn wf(&self) -> bool {
        &&& forall|i: int, j: int|
            0 <= i < j < self.ships@.len() ==> (#[trigger] self.ships@[i]).ship.symbol@ != (
            #[trigger] self.ships@[j]).ship.symbol@
        &&& self.ledger.wf()
    }

    pub fn new() -> (r: Self)
        ensures
            r.wf(),
            r.ships@.len() == 0,
    {
        CaptainsLog { ledger: ledger::Ledger::default(), ships: Vec::new() }
    }

    /// Record a ship: a known ship keeps its role and task queue while its
    /// game record, state and cooldown are replaced; an unknown ship enters
    /// with defaults. Every other entry is untouched.
    pub fn upsert_ship(&mut self, ship: Ship)
        requires
            old(self).wf(),
        ensures
            final(self).wf(),
            final(self).ledger == old(self).ledger,
            (exists|j: int|
                0 <= j < old(self).ships@.len() && (#[trigger] old(self).ships@[j]).ship.symbol@
                    == ship.symbol@) ==> {
                let j = choose|j: int|
                    0 <= j < old(self).ships@.len() && (#[trigger] old(
                        self,
                    ).ships@[j]).ship.symbol@ == ship.symbol@;
                &&& final(self).ships@.len() == old(self).ships@.len()
                &&& final(self).ships@[j].ship == ship
                &&& final(self).ships@[j].role == old(self).ships@[j].role
                &&& final(self).ships@[j].state == ship_state_of(ship.nav_status)
                &&& final(self).ships@[j].task_queue@ == old(self).ships@[j].task_queue@
                &&& final(self).ships@[j].cooldown_timestamp == 0
                &&& forall|k: int|
                    0 <= k < old(self).ships@.len() && k != j ==> final(self).ships@[k] == old(
                        self,
                    ).ships@[k]
            },
            (forall|j: int|
                0 <= j < old(self).ships@.len() ==> (#[trigger] old(self).ships@[j]).ship.symbol@
                    != ship.symbol@) ==> {
                &&& final(self).ships@.len() == old(self).ships@.len() + 1
                &&& forall|k: int|
                    0 <= k < old(self).ships@.len() ==> final(self).ships@[k] == old(
                        self,
                    ).ships@[k]
                &&& final(self).ships@.last().ship == ship
                &&& final(self).ships@.last().role == shiprole::ShipRole::Unassigned
                &&& final(self).ships@.last().state == ship_state_of(ship.nav_status)
                &&& final(self).ships@.last().task_queue@ == Seq::<shiptask::ShipTask>::empty()
                &&& final(self).ships@.last().cooldown_timestamp == 0
            },
    {
        let n = self.ships.len();
        let mut i: usize = 0;
        while i < n
            invariant
                n == self.ships.len(),
                self.ships@ == old(self).ships@,
                self.ledger == old(self).ledger,
                i <= n,
                old(self).wf(),
                forall|j: int|
                    0 <= j < i ==> (#[trigger] self.ships@[j]).ship.symbol@ != ship.symbol@,
            decreases n - i,
        {
            if self.ships[i].ship.symbol == ship.symbol {
                let role = self.ships[i].role;
                let task_queue = copy_tasks(&self.ships[i].task_queue);
                let state = determine_ship_state(ship.nav_status);
                let replacement = ControlledShip {
                    ship,
                    role,
                    state,
                    task_queue,
                    cooldown_timestamp: 0,
                };
                proof {
                    assert forall|j: int|
                        0 <= j < old(self).ships@.len() && (#[trigger] old(
                            self,
                        ).ships@[j]).ship.symbol@ == replacement.ship.symbol@ implies j
                        == i as int by {
                        if j < i {
                        } else if j > i {
                        }
                    }
                }
                self.ships.set(i, replacement);
                return ;
            }
            i += 1;
        }
        let state = determine_ship_state(ship.nav_status);
        let fresh = ControlledShip {
            ship,
            role: shiprole::ShipRole::default(),
            state,
            task_queue: Vec::new(),
            cooldown_timestamp: 0,
        };
        self.ships.push(fresh);
        proof {
            assert(forall|k: int|
                0 <= k < old(self).ships@.len() ==> self.ships@[k] == old(self).ships@[k]);
        }
    }

    /// Record a whole fleet, one ship at a time, in order.
    pub fn upsert_fleet(&mut self, fleet: Vec<Ship>)
        requires
            old(self).wf(),
        ensures
            final(self).wf(),
            final(self).ledger == old(self).ledger,
    {
        let n = fleet.len();
        let mut fleet = fleet;
        let mut i: usize = 0;
        while i < n
            invariant
                n == fleet.len(),
                i <= n,
                self.wf(),
                self.ledger == old(self).ledger,
            decreases n - i,
        {
            let ship = Ship {
                symbol: fleet[i].symbol.clone(),
                nav_status: fleet[i].nav_status,
            };
            self.upsert_ship(ship);
            i += 1;
        }
    }

    /// Record contracts in the ledger, keyed by contract id, in order.
    pub fn upsert_ledger_contracts(&mut self, contracts: Vec<ledger::Contract>)
        requires
            old(self).wf(),
        ensures
            final(self).wf(),
            final(self).ships@ == old(self).ships@,
    {
        let n = contracts.len();
        let mut contracts = contracts;
        let mut i: usize = 0;
        while i < n
            invariant
                i <= n,
                contracts@.len() == n,
                self.wf(),
                self.ships@ == old(self).ships@,
            decreases n - i,
        {
            let id = contracts[i].id.clone();
            self.ledger.upsert_contract(ledger::Contract { id });
            i += 1;
        }
    }

    /// Change the recorded role of the ship with this symbol; the caller
    /// guarantees the ship is known.
    pub fn update_ship_role(&mut self, symbol: &String, new_role: shiprole::ShipRole)
        requires
            old(self).wf(),
            exists|j: int|
                0 <= j < old(self).ships@.len() && (#[trigger] old(self).ships@[j]).ship.symbol@
                    == symbol@,
        ensures
            final(self).wf(),
            final(self).ledger == old(self).ledger,
            final(self).ships@.len() == old(self).ships@.len(),
            exists|j: int|
                {
                    &&& 0 <= j < old(self).ships@.len()
                    &&& (#[trigger] old(self).ships@[j]).ship.symbol@ == symbol@
                    &&& final(self).ships@[j].role == new_role
                    &&& final(self).ships@[j].ship == old(self).ships@[j].ship
                    &&& final(self).ships@[j].state == old(self).ships@[j].state
                    &&& final(self).ships@[j].task_queue == old(self).ships@[j].task_queue
                    &&& final(self).ships@[j].cooldown_timestamp == old(
                        self,
                    ).ships@[j].cooldown_timestamp
                    &&& forall|k: int|
                        0 <= k < old(self).ships@.len() && k != j ==> final(self).ships@[k] == old(
                            self,
                        ).ships@[k]
                },
    {
        let n = self.ships.len();
        let mut i: usize = 0;
        while i < n
            invariant
                n == self.ships.len(),
                self.ships@ == old(self).ships@,
                self.ledger == old(self).ledger,
                i <= n,
                old(self).wf(),
                exists|j: int|
                    0 <= j < old(self).ships@.len() && (#[trigger] old(
                        self,
                    ).ships@[j]).ship.symbol@ == symbol@,
                forall|j: int| 0 <= j < i ==> (#[trigger] self.ships@[j]).ship.symbol@ != symbol@,
            decreases n - i,
        {
            if self.ships[i].ship.symbol == *symbol {
                let mut entry = self.ships.remove(i);
                entry.change_role(new_role);
                let ghost entry_snap = entry;
                self.ships.insert(i, entry);
                proof {
                    assert(self.ships@ =~= old(self).ships@.update(i as int, entry_snap));
                }
                return ;
            }
            i += 1;
        }
        proof {
            let j = choose|j: int|
                0 <= j < old(self).ships@.len() && (#[trigger] old(self).ships@[j]).ship.symbol@
                    == symbol@;
            assert(false);
        }
    }
}

} // verus!
