//! The errors that the library reports.

use crate::time::{
    duration_display, duration_to_string, epoch_display, epoch_to_string, Duration, Epoch,
};
use vstd::prelude::*;
use vstd::string::*;

verus! {

/// What can go wrong with a trajectory.
#[derive(Clone, PartialEq, Eq, Debug)]
pub enum TrajError {
    EventNotFound { start: Epoch, end: Epoch, event: String },
    NoInterpolationData(Epoch),
    CreationError(String),
    OutOfSpline { req_epoch: Epoch, req_dur: Duration, spline_dur: Duration },
}

/// What can be wrong with a configuration.
#[derive(Clone, PartialEq, Eq, Debug)]
pub enum ConfigError {
    InvalidConfig(String),
}

/// The error of any operation of the library.
#[derive(Clone, PartialEq, Eq, Debug)]
pub enum NyxError {
    StateParameterUnavailable,
    /// A mass or a coefficient was to be set to a value that is not a number
    /// at or above zero.
    InvalidValue,
    Trajectory(TrajError),
    ConfigError(ConfigError),
    CustomError(String),
}

/// The text that `std` prints for a string when it is asked to show it as a
/// programmer would write it: in double quotes, with its special characters
/// escaped.
pub uninterp spec fn debug_text(text: Seq<char>) -> Seq<char>;

/// Prints a string with the `Debug` formatter of `std`. Assumed: the text
/// depends on the string alone.
#[verifier::external_body]
pub(crate) fn debug_string(text: &String) -> (quoted: String)
    ensures
        quoted@ == debug_text(text@),
{
    format!("{:?}", text)
}

/// The printed form of an instant.
pub open spec fn epoch_text(e: Epoch) -> Seq<char> {
    epoch_display(e.duration_since_j1900_tai.centuries, e.duration_since_j1900_tai.nanoseconds)
}

/// The printed form of a span.
pub open spec fn duration_text(d: Duration) -> Seq<char> {
    duration_display(d.centuries, d.nanoseconds)
}

impl TrajError {
    /// The one-line message of the error.
    pub open spec fn message(self) -> Seq<char> {
        match self {
            TrajError::EventNotFound { start, end, event } => "Event "@ + event@
                + " not found between "@ + epoch_text(start) + " and "@ + epoch_text(end),
            TrajError::NoInterpolationData(e) => "No interpolation data at "@ + epoch_text(e),
            TrajError::CreationError(reason) => "Failed to create trajectory: "@ + reason@,
            TrajError::OutOfSpline { req_epoch, req_dur, spline_dur } =>
                "Probable bug: Requested epoch "@ + epoch_text(req_epoch)
                + ", corresponding to an offset of "@ + duration_text(req_dur)
                + " in a spline of duration "@ + duration_text(spline_dur),
        }
    }

    /// Writes the one-line message of the error.
    pub fn to_string(&self) -> (text: String)
        ensures
            text@ == self.message(),
    {
        match self {
            TrajError::EventNotFound { start, end, event } => {
                let mut text = String::from_str("Event ");
                text.append(event.as_str());
                text.append(" not found between ");
                text.append(epoch_to_string(*start).as_str());
                text.append(" and ");
                text.append(epoch_to_string(*end).as_str());
                text
            },
            TrajError::NoInterpolationData(e) => {
                let mut text = String::from_str("No interpolation data at ");
                text.append(epoch_to_string(*e).as_str());
                text
            },
            TrajError::CreationError(reason) => {
                let mut text = String::from_str("Failed to create trajectory: ");
                text.append(reason.as_str());
                text
            },
            TrajError::OutOfSpline { req_epoch, req_dur, spline_dur } => {
                let mut text = String::from_str("Probable bug: Requested epoch ");
                text.append(epoch_to_string(*req_epoch).as_str());
                text.append(", corresponding to an offset of ");
                text.append(duration_to_string(*req_dur).as_str());
                text.append(" in a spline of duration ");
                text.append(duration_to_string(*spline_dur).as_str());
                text
            },
        }
    }
}

} // verus!
