//! Growing, mutually excluding disks and spheres seeded at random over discrete
//! time: placement under a non-overlap rule, growth and aging, pairwise collision
//! resolution (with an optional neighbour-counting "hungry" policy) and metrics
//! sampled once per simulated second.
//!
//! All quantities are integers: coordinates and radii in length units of the
//! domain, time as a count of ticks.
pub mod circle;
pub mod consts;
pub mod drawer;
pub mod resolve;

pub use circle::{Circle, Dimensions, InvalidDimension, Measure};
pub use drawer::CircleDrawer;
