//! The astronomicon retains what has been learned of the galaxy: the known
//! systems and every waypoint ever visited.

use vstd::prelude::*;

verus! {

/// Galaxy knowledge: the systems record and the visited waypoints, each a
/// name paired with what was recorded there.
#[derive(Debug)]
pub struct Astronomicon {
    pub systems: String,
    pub waypoints: Vec<(String, String)>,
}

impl Default for Astronomicon {
    fn default() -> (r: Self)
        ensures
            r.systems@ == Seq::<char>::empty(),
            r.waypoints.deep_view() =~= Seq::<(Seq<char>, Seq<char>)>::empty(),
    {
        Astronomicon { systems: String::new(), waypoints: Vec::new() }
    }
}

impl Astronomicon {
    pub fn new() -> (r: Self)
        ensures
            r.systems@ == Seq::<char>::empty(),
            r.waypoints.deep_view() =~= Seq::<(Seq<char>, Seq<char>)>::empty(),
    {
        Astronomicon::default()
    }
}

} // verus!
