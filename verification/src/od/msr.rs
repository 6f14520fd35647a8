//! What a tracking arc holds.

use crate::time::Epoch;
use vstd::prelude::*;

verus! {

/// The measurements of a tracking arc in the order in which they were taken,
/// each with the name of its device and its instant, and a description of
/// the devices that took them.
pub struct TrackingArc<Msr> {
    /// A serialised description of the devices.
    pub device_cfg: String,
    /// Device name, measurement and instant of each entry.
    pub measurements: Vec<(String, Msr, Epoch)>,
}

} // verus!
