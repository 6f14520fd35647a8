//! Simulation of tracking arcs for orbit determination, with the states and
//! the trajectory that it runs on.
//!
//! - `time`: instants and spans as plain integers, and what the library
//!   assumes of `hifitime`, which computes with them.
//! - `errors`: the errors of the library and their messages.
//! - `md::trajectory`: states in the order of their instants, and the state
//!   of a trajectory at any instant in between.
//! - `cosmic`: the orbit and the spacecraft, over scalars of the caller's
//!   choice.
//! - `od`: tracking devices and the random number generator that they draw
//!   their noise from.
//! - `od::simulator`: the tracking configuration of a device, the rules by
//!   which devices are polled, and the simulator that polls them along a
//!   trajectory.
//!
//! Every function states in its contract what it returns. What the library
//! assumes of the crates that it calls is said where it calls them, in the
//! functions marked `external_body`.

pub mod cosmic;
pub mod errors;
pub mod md;
pub mod od;
pub mod time;
