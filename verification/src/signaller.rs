//! A signaller queues identifiers of requests sent by cadets for
//! synchronous processing. Listening on channels is plumbing outside the
//! library; the queue itself is pinned here.

use vstd::prelude::*;

verus! {

/// The pending request identifiers, in arrival order.
#[derive(Debug)]
pub struct Signaller {
    pub queue: Vec<String>,
}

impl Default for Signaller {
    fn default() -> (r: Self)
        ensures
            r.queue.deep_view() =~= Seq::<Seq<char>>::empty(),
    {
        Signaller { queue: Vec::new() }
    }
}

impl Signaller {
    pub fn new() -> (r: Self)
        ensures
            r.queue.deep_view() =~= Seq::<Seq<char>>::empty(),
    {
        Signaller::default()
    }

    /// Append one request identifier; everything already queued keeps its
    /// place.
    pub fn send(&mut self, uuid: String)
        ensures
            final(self).queue.deep_view() =~= old(self).queue.deep_view().push(uuid@),
    {
        self.queue.push(uuid);
    }
}

} // verus!
