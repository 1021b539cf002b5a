//! The two ends of a connection, before anything is known of what runs over it.
use vstd::prelude::*;

verus! {

/// One end of a connection: where messages come from, and where they are sent.
#[derive(Debug)]
pub struct Peer<S, R> {
    pub incoming: R,
    pub outgoing: S,
}

impl<S, R> Peer<S, R> {
    /// Makes the two ends of a connection out of two channels, one for each direction. Each
    /// channel is given as its sending and its receiving end.
    pub fn create_pair(a: (S, R), b: (S, R)) -> (r: (Self, Self))
        ensures
            r.0 == (Peer { incoming: a.1, outgoing: b.0 }),
            r.1 == (Peer { incoming: b.1, outgoing: a.0 }),
    {
        let (a_send, a_recv) = a;
        let (b_send, b_recv) = b;
        let a = Self { incoming: a_recv, outgoing: b_send };
        let b = Self { incoming: b_recv, outgoing: a_send };
        (a, b)
    }
}

} // verus!
