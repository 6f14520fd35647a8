//! Mission design: trajectories of time-tagged states.

pub mod trajectory;
