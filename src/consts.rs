use vstd::prelude::*;

verus! {

/// Edge of the cubical domain, in length units.
pub const CANVAS_SIZE: u32 = 1000;

/// Initial growth speed, in length units per second.
pub const INITIAL_SPEED: u32 = 1;

/// Initial target duration, in seconds.
pub const INITIAL_TIME: u32 = 900;

/// Initial number of neighbours at which a particle is removed in hungry mode.
pub const INITIAL_NEIGHBOUR_LIMIT: usize = 5;

/// How many positions the placement engine draws before it gives up.
pub const PLACEMENT_ATTEMPTS: u32 = 10000;

} // verus!
