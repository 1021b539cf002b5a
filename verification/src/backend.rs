//! Session back ends.
use vstd::prelude::*;

verus! {

/// A back end that checks that the simulation is deterministic.
pub struct SyncTestBackend;

} // verus!
