//! Track locations and net assignments, resolved against a metal stack.

use vstd::prelude::*;

use crate::coords::DbUnits;

verus! {

/// A location on signal track `track` of metal layer `layer`, at distance `dist` along the track.
#[derive(Debug, Clone, Copy, PartialEq, Eq, Structural)]
pub struct ValidTrackLoc {
    pub layer: usize,
    pub track: usize,
    pub dist: DbUnits,
}

/// The assignment of a net to the crossing of two tracks on adjacent layers.
#[derive(Debug)]
pub struct ValidAssign {
    pub net: String,
    pub top: ValidTrackLoc,
    pub bot: ValidTrackLoc,
}

impl Clone for ValidAssign {
    fn clone(&self) -> (a: ValidAssign)
        ensures
            a == *self,
    {
        ValidAssign { net: self.net.clone(), top: self.top, bot: self.bot }
    }
}

} // verus!
