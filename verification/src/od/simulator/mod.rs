//! Simulation of a tracking arc: when each device may track, and the arc
//! that comes of polling the devices along a trajectory.

pub mod arc;
pub mod registry;
pub mod sampling;
pub mod schedule;

use crate::time::{Duration, Epoch};
use vstd::prelude::*;

verus! {

/// From when, or until when, a device may track.
#[derive(Clone, Copy, Debug, PartialEq, Eq, Structural)]
pub enum Availability {
    /// From or until this instant, included.
    Epoch(Epoch),
    /// Whenever the device sees the spacecraft.
    Visible,
}

/// How a device shares its time between tracking and resting.
#[derive(Clone, Copy, Debug, PartialEq, Eq, Structural)]
pub enum Schedule {
    /// The device tracks whenever it may.
    Continuous,
    /// The device tracks in passes. A pass lasts for `on` at most: once it
    /// has lasted longer, or once the device has lost the spacecraft, the
    /// pass is closed, and the device rests for more than `off` before it
    /// tracks again.
    Intermittent { on: Duration, off: Duration },
}

/// Which devices are polled at an instant at which several may track.
#[derive(Clone, Copy, Debug, PartialEq, Eq, Structural)]
pub enum Handoff {
    /// The devices are polled in the order in which they were configured,
    /// and the first that measures is the only one of that instant.
    FirstConfigured,
    /// Every device that may track is polled.
    Overlap,
}

/// The tracking configuration of one device.
#[derive(Clone, Copy, Debug, PartialEq, Eq, Structural)]
pub struct TrkConfig {
    /// From when the device may track.
    pub start: Availability,
    /// Until when the device may track.
    pub end: Availability,
    /// How the device shares its time.
    pub schedule: Schedule,
    /// The least span between two measurements of the device.
    pub sampling: Duration,
}

impl Availability {
    /// The instant, if there is one, is well formed.
    pub open spec fn wf(self) -> bool {
        match self {
            Availability::Epoch(e) => e.wf(),
            Availability::Visible => true,
        }
    }

    /// Whether the instant, if there is one, is well formed.
    pub fn is_wf(&self) -> (r: bool)
        ensures
            r == self.wf(),
    {
        match self {
            Availability::Epoch(e) => e.is_wf(),
            Availability::Visible => true,
        }
    }
}

impl Schedule {
    /// The spans, if there are any, are normalised.
    pub open spec fn wf(self) -> bool {
        match self {
            Schedule::Continuous => true,
            Schedule::Intermittent { on, off } => on.wf() && off.wf(),
        }
    }

    /// Whether the spans, if there are any, are normalised.
    pub fn is_wf(&self) -> (r: bool)
        ensures
            r == self.wf(),
    {
        match self {
            Schedule::Continuous => true,
            Schedule::Intermittent { on, off } => on.is_wf() && off.is_wf(),
        }
    }
}

impl TrkConfig {
    /// All instants and spans of the configuration are well formed.
    pub open spec fn wf(self) -> bool {
        self.start.wf() && self.end.wf() && self.schedule.wf() && self.sampling.wf()
    }

    /// Whether all instants and spans of the configuration are well formed.
    pub fn is_wf(&self) -> (r: bool)
        ensures
            r == self.wf(),
    {
        self.start.is_wf() && self.end.is_wf() && self.schedule.is_wf() && self.sampling.is_wf()
    }

    /// A configuration contradicts itself when it asks for samples no time
    /// apart, for tracking passes of no length, or for rests of negative
    /// length.
    pub open spec fn contradictory(self) -> bool {
        ||| self.sampling.total() <= 0
        ||| match self.schedule {
            Schedule::Continuous => false,
            Schedule::Intermittent { on, off } => on.total() <= 0 || off.total() < 0,
        }
    }

    /// Whether the configuration contradicts itself.
    pub fn is_contradictory(&self) -> (r: bool)
        requires
            self.wf(),
        ensures
            r == self.contradictory(),
    {
        let zero = Duration { centuries: 0, nanoseconds: 0 };
        proof {
            crate::time::lemma_order_is_total_order(self.sampling, zero);
        }
        if !zero.lt(&self.sampling) {
            return true;
        }
        match self.schedule {
            Schedule::Continuous => false,
            Schedule::Intermittent { on, off } => {
                proof {
                    crate::time::lemma_order_is_total_order(on, zero);
                    crate::time::lemma_order_is_total_order(off, zero);
                }
                !zero.lt(&on) || off.lt(&zero)
            },
        }
    }
}

} // verus!
