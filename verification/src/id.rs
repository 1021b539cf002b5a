//! Numbers for the things of a game that its players share.
use vstd::prelude::*;

verus! {

/// Marks something with network state.
#[derive(Debug, Copy, Clone, PartialEq, Eq, Hash, Structural)]
pub struct NetworkId(pub u32);

/// A provider of new, globally unique network ids.
///
/// It belongs into the saved states, so that it gives out the same ids again after a
/// rollback.
#[derive(Debug)]
pub struct NetworkIdProvider(u32);

impl View for NetworkIdProvider {
    type V = u32;

    /// How many ids were given out.
    closed spec fn view(&self) -> u32 {
        self.0
    }
}

impl Clone for NetworkIdProvider {
    fn clone(&self) -> (r: Self)
        ensures
            r == *self,
    {
        NetworkIdProvider(self.0)
    }
}

impl NetworkIdProvider {
    /// A provider that has given out nothing.
    pub fn new() -> (r: Self)
        ensures
            r@ == 0,
    {
        Self(0)
    }

    /// Tells whether there are ids left.
    pub fn has_next(&self) -> (r: bool)
        ensures
            r == (self@ < u32::MAX),
    {
        self.0 < u32::MAX
    }

    /// Creates a new, unique network id.
    pub fn new_id(&mut self) -> (r: NetworkId)
        requires
            old(self)@ < u32::MAX,
        ensures
            r == nth_id(old(self)@, 0),
            final(self)@ == old(self)@ + 1,
    {
        let id = NetworkId(self.0);
        self.0 = self.0 + 1;
        id
    }
}

/// The id that is given out after `n` more, where some were given out before.
pub open spec fn nth_id(given: u32, n: nat) -> NetworkId {
    NetworkId((given + n) as u32)
}

/// No id is given out twice.
pub proof fn law_ids_are_unique(given: u32, n: nat, m: nat)
    requires
        n < m,
        given + m < u32::MAX,
    ensures
        nth_id(given, n) != nth_id(given, m),
{
}

/// A provider that is taken back to where it was gives out the same ids again, one by one.
pub proof fn law_ids_are_repeatable(given: u32, n: nat)
    requires
        given + n + 1 < u32::MAX,
    ensures
        nth_id(given, n + 1) == nth_id((given + 1) as u32, n),
{
}

/// The ids of a new provider count up from zero.
pub proof fn law_ids_count_up(given: u32, n: nat)
    requires
        given + n < u32::MAX,
    ensures
        nth_id(0, n).0 == n,
        nth_id(given, n).0 == given + n,
{
}

} // verus!
