use nyx_space::errors::{ConfigError, NyxError, TrajError};
use nyx_space::time::{Duration, Epoch};

fn epoch_of(epoch: hifitime::Epoch) -> Epoch {
    let (centuries, nanoseconds) = epoch.to_tai_parts();
    Epoch { duration_since_j1900_tai: Duration { centuries, nanoseconds } }
}

fn duration_of(duration: hifitime::Duration) -> Duration {
    let (centuries, nanoseconds) = duration.to_parts();
    Duration { centuries, nanoseconds }
}

#[test]
fn an_event_that_was_not_found() {
    let start = hifitime::Epoch::from_gregorian_utc(2023, 2, 22, 19, 18, 17, 160_000_000);
    let end = hifitime::Epoch::from_gregorian_utc_at_midnight(2023, 3, 1);
    let e = TrajError::EventNotFound {
        start: epoch_of(start),
        end: epoch_of(end),
        event: "apoapsis".to_string(),
    };
    assert_eq!(
        e.to_string(),
        "Event apoapsis not found between 2023-02-22T19:18:17.160000000 UTC and 2023-03-01T00:00:00 UTC"
    );
    assert_eq!(e.to_string(), format!("Event apoapsis not found between {start} and {end}"));
}

#[test]
fn no_interpolation_data() {
    let at = hifitime::Epoch::from_gregorian_tai_at_noon(2020, 1, 1);
    let e = TrajError::NoInterpolationData(epoch_of(at));
    assert_eq!(e.to_string(), "No interpolation data at 2020-01-01T11:59:23 UTC");
}

#[test]
fn a_trajectory_that_could_not_be_created() {
    let e = TrajError::CreationError("no states".to_string());
    assert_eq!(e.to_string(), "Failed to create trajectory: no states");
}

#[test]
fn an_instant_out_of_its_spline() {
    let at = hifitime::Epoch::from_gregorian_utc_at_midnight(2021, 6, 1);
    let offset = hifitime::Duration::from_parts(0, 90_000_000_000);
    let whole = hifitime::Duration::from_parts(0, 3_600_000_000_123);
    let e = TrajError::OutOfSpline {
        req_epoch: epoch_of(at),
        req_dur: duration_of(offset),
        spline_dur: duration_of(whole),
    };
    assert_eq!(
        e.to_string(),
        "Probable bug: Requested epoch 2021-06-01T00:00:00 UTC, corresponding to an offset of 1 min 30 s in a spline of duration 1 h 123 ns"
    );
}

#[test]
fn a_negative_span_is_printed_with_its_sign() {
    let e = TrajError::OutOfSpline {
        req_epoch: epoch_of(hifitime::Epoch::from_gregorian_utc_at_midnight(2021, 6, 1)),
        req_dur: duration_of(-hifitime::Duration::from_parts(0, 1_000_000_000)),
        spline_dur: Duration { centuries: 0, nanoseconds: 0 },
    };
    assert_eq!(
        e.to_string(),
        "Probable bug: Requested epoch 2021-06-01T00:00:00 UTC, corresponding to an offset of -1 s in a spline of duration 0 ns"
    );
}

#[test]
fn errors_compare_by_what_they_hold() {
    let a = NyxError::ConfigError(ConfigError::InvalidConfig("x".to_string()));
    let b = NyxError::ConfigError(ConfigError::InvalidConfig("x".to_string()));
    assert_eq!(a, b);
    assert_ne!(a, NyxError::CustomError("x".to_string()));
    assert_ne!(
        NyxError::Trajectory(TrajError::CreationError("x".to_string())),
        NyxError::StateParameterUnavailable
    );
}
