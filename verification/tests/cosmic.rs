use nyx_space::cosmic::{Orbit, Scalar, Spacecraft};
use nyx_space::errors::{NyxError, TrajError};
use nyx_space::md::trajectory::{InterpState, State, StateParameter, Traj};
use nyx_space::time::{Duration, Epoch};

const NS_PER_S: u64 = 1_000_000_000;

fn at_sec(s: u64) -> Epoch {
    Epoch { duration_since_j1900_tai: Duration { centuries: 1, nanoseconds: s * NS_PER_S } }
}

// Double precision numbers. The Hermite polynomial stands in for the real
// one: it is the line through the first and the last sample.
#[derive(Clone, Copy, Debug, PartialEq)]
struct F(f64);

impl Scalar for F {
    fn zero() -> Self {
        F(0.0)
    }

    fn is_non_negative(self) -> bool {
        self.0 >= 0.0
    }

    fn central_acceleration(gm: F, x: F, y: F, z: F, along: F) -> F {
        let r = (x.0 * x.0 + y.0 * y.0 + z.0 * z.0).sqrt();
        F(-gm.0 * along.0 / (r * r * r))
    }

    fn tdb_seconds(epoch: Epoch) -> Self {
        F(epoch.duration_since_j1900_tai.nanoseconds as f64 / 1e9)
    }

    fn hermite_eval(xs: &[F], ys: &[F], ydots: &[F], x_eval: F) -> Result<(F, F), NyxError> {
        if xs.len() < 2 || xs.len() != ys.len() || xs.len() != ydots.len() {
            return Err(NyxError::CustomError("too few samples".to_string()));
        }
        let last = xs.len() - 1;
        let slope = (ys[last].0 - ys[0].0) / (xs[last].0 - xs[0].0);
        Ok((F(ys[0].0 + slope * (x_eval.0 - xs[0].0)), F(slope)))
    }

    fn lerp(x0: F, y0: F, x1: F, y1: F, x: F) -> F {
        F(y0.0 + (y1.0 - y0.0) * (x.0 - x0.0) / (x1.0 - x0.0))
    }
}

fn orbit(s: u64, x: f64) -> Orbit<F> {
    Orbit {
        x: F(x),
        y: F(2.0 * x),
        z: F(3.0 * x),
        vx: F(0.5),
        vy: F(1.0),
        vz: F(1.5),
        dt: at_sec(s),
        frame: 399,
        gm: F(398_600.4415),
    }
}

fn spacecraft(s: u64, x: f64, fuel: f64) -> Spacecraft<F> {
    Spacecraft {
        orbit: orbit(s, x),
        dry_mass_kg: F(100.0),
        fuel_mass_kg: F(fuel),
        srp_area_m2: F(1.0),
        cr: F(1.8),
        cd: F(2.2),
    }
}

const ALL: [StateParameter; 15] = [
    StateParameter::X,
    StateParameter::Y,
    StateParameter::Z,
    StateParameter::VX,
    StateParameter::VY,
    StateParameter::VZ,
    StateParameter::FuelMass,
    StateParameter::Cr,
    StateParameter::Cd,
    StateParameter::SMA,
    StateParameter::Eccentricity,
    StateParameter::Inclination,
    StateParameter::RAAN,
    StateParameter::AoP,
    StateParameter::TrueAnomaly,
];

#[test]
fn the_parameters_of_an_orbit() {
    assert_eq!(
        Orbit::<F>::params(),
        vec![
            StateParameter::X,
            StateParameter::Y,
            StateParameter::Z,
            StateParameter::VX,
            StateParameter::VY,
            StateParameter::VZ
        ]
    );
}

#[test]
fn the_parameters_of_a_spacecraft() {
    assert_eq!(
        Spacecraft::<F>::params(),
        vec![
            StateParameter::X,
            StateParameter::Y,
            StateParameter::Z,
            StateParameter::VX,
            StateParameter::VY,
            StateParameter::VZ,
            StateParameter::FuelMass
        ]
    );
}

#[test]
fn the_instant_of_a_state() {
    assert_eq!(orbit(5, 1.0).epoch(), at_sec(5));
    assert_eq!(spacecraft(6, 1.0, 1.0).epoch(), at_sec(6));
}

#[test]
fn the_values_of_an_orbit_and_their_derivatives() {
    let o = orbit(0, 7.0);
    assert_eq!(o.value_and_deriv(&StateParameter::X), Ok((F(7.0), F(0.5))));
    assert_eq!(o.value_and_deriv(&StateParameter::Y), Ok((F(14.0), F(1.0))));
    assert_eq!(o.value_and_deriv(&StateParameter::Z), Ok((F(21.0), F(1.5))));
    for param in &ALL[6..] {
        assert_eq!(o.value_and_deriv(param), Err(NyxError::StateParameterUnavailable));
        assert_eq!(o.deriv(param), Err(NyxError::StateParameterUnavailable));
    }
    assert_eq!(o.deriv(&StateParameter::Z), Ok(F(1.5)));
}

// An orbit at (3, 4, 0) km, five km from a centre of 125 km^3/s^2: the
// acceleration along an axis is minus the position along it.
fn five_from_centre() -> Orbit<F> {
    Orbit { x: F(3.0), y: F(4.0), z: F(0.0), gm: F(125.0), ..orbit(0, 0.0) }
}

#[test]
fn a_velocity_comes_with_the_acceleration_towards_the_centre() {
    let o = five_from_centre();
    assert_eq!(o.value_and_deriv(&StateParameter::VX), Ok((F(0.5), F(-3.0))));
    assert_eq!(o.value_and_deriv(&StateParameter::VY), Ok((F(1.0), F(-4.0))));
    assert_eq!(o.value_and_deriv(&StateParameter::VZ), Ok((F(1.5), F(0.0))));
    assert_eq!(o.deriv(&StateParameter::VX), Ok(F(-3.0)));
    assert_eq!(o.deriv(&StateParameter::VY), Ok(F(-4.0)));
    assert_eq!(o.deriv(&StateParameter::VZ), Ok(F(0.0)));
    let sc = Spacecraft { orbit: o, ..spacecraft(0, 0.0, 50.0) };
    assert_eq!(sc.value_and_deriv(&StateParameter::VX), Ok((F(0.5), F(-3.0))));
    assert_eq!(sc.value_and_deriv(&StateParameter::VY), Ok((F(1.0), F(-4.0))));
    assert_eq!(sc.value_and_deriv(&StateParameter::VZ), Ok((F(1.5), F(0.0))));
    assert_eq!(sc.deriv(&StateParameter::VY), Ok(F(-4.0)));
}

#[test]
fn the_values_of_a_spacecraft_and_their_derivatives() {
    let sc = spacecraft(0, 7.0, 50.0);
    assert_eq!(sc.value_and_deriv(&StateParameter::X), Ok((F(7.0), F(0.5))));
    assert_eq!(sc.value_and_deriv(&StateParameter::Y), Ok((F(14.0), F(1.0))));
    assert_eq!(sc.value_and_deriv(&StateParameter::Z), Ok((F(21.0), F(1.5))));
    assert_eq!(sc.value_and_deriv(&StateParameter::FuelMass), Ok((F(50.0), F(0.0))));
    for param in &ALL[7..] {
        assert_eq!(sc.value_and_deriv(param), Err(NyxError::StateParameterUnavailable));
    }
    assert_eq!(sc.deriv(&StateParameter::FuelMass), Ok(F(0.0)));
    assert_eq!(sc.deriv(&StateParameter::Cr), Err(NyxError::StateParameterUnavailable));
}

#[test]
fn setting_a_value_of_an_orbit_changes_that_value_only() {
    let before = orbit(0, 7.0);
    let cases = [
        (StateParameter::X, Orbit { x: F(-1.0), ..before }),
        (StateParameter::Y, Orbit { y: F(-1.0), ..before }),
        (StateParameter::Z, Orbit { z: F(-1.0), ..before }),
        (StateParameter::VX, Orbit { vx: F(-1.0), ..before }),
        (StateParameter::VY, Orbit { vy: F(-1.0), ..before }),
        (StateParameter::VZ, Orbit { vz: F(-1.0), ..before }),
    ];
    for (param, after) in cases {
        let mut o = before;
        assert_eq!(o.set_value_and_deriv(&param, F(-1.0), F(9.0)), Ok(()));
        assert_eq!(o, after);
    }
    for param in &ALL[6..] {
        let mut o = before;
        assert_eq!(
            o.set_value_and_deriv(param, F(-1.0), F(9.0)),
            Err(NyxError::StateParameterUnavailable)
        );
        assert_eq!(o, before);
    }
}

#[test]
fn setting_a_value_of_a_spacecraft_changes_that_value_only() {
    let before = spacecraft(0, 7.0, 50.0);
    let on = |orbit: Orbit<F>| Spacecraft { orbit, ..before };
    let cases = [
        (StateParameter::X, on(Orbit { x: F(-1.0), ..before.orbit })),
        (StateParameter::Y, on(Orbit { y: F(-1.0), ..before.orbit })),
        (StateParameter::Z, on(Orbit { z: F(-1.0), ..before.orbit })),
        (StateParameter::VX, on(Orbit { vx: F(-1.0), ..before.orbit })),
        (StateParameter::VY, on(Orbit { vy: F(-1.0), ..before.orbit })),
        (StateParameter::VZ, on(Orbit { vz: F(-1.0), ..before.orbit })),
    ];
    for (param, after) in cases {
        let mut sc = before;
        assert_eq!(sc.set_value_and_deriv(&param, F(-1.0), F(9.0)), Ok(()));
        assert_eq!(sc, after);
    }
    // A mass or a coefficient takes a value at or above zero.
    for value in [F(3.0), F(0.0)] {
        let cases = [
            (StateParameter::FuelMass, Spacecraft { fuel_mass_kg: value, ..before }),
            (StateParameter::Cr, Spacecraft { cr: value, ..before }),
            (StateParameter::Cd, Spacecraft { cd: value, ..before }),
        ];
        for (param, after) in cases {
            let mut sc = before;
            assert_eq!(sc.set_value_and_deriv(&param, value, F(9.0)), Ok(()));
            assert_eq!(sc, after);
        }
    }
    for param in &ALL[9..] {
        let mut sc = before;
        assert_eq!(
            sc.set_value_and_deriv(param, F(-1.0), F(9.0)),
            Err(NyxError::StateParameterUnavailable)
        );
        assert_eq!(sc, before);
    }
}

#[test]
fn a_mass_or_a_coefficient_is_never_set_below_zero() {
    let before = spacecraft(0, 7.0, 50.0);
    for param in [StateParameter::FuelMass, StateParameter::Cr, StateParameter::Cd] {
        for value in [-1.0, -1e-300, f64::NEG_INFINITY, f64::NAN] {
            let mut sc = before;
            assert_eq!(
                sc.set_value_and_deriv(&param, F(value), F(0.0)),
                Err(NyxError::InvalidValue)
            );
            assert_eq!(sc, before);
        }
    }
    // A position or a velocity may well be negative.
    let mut sc = before;
    assert_eq!(sc.set_value_and_deriv(&StateParameter::VZ, F(-7.0), F(0.0)), Ok(()));
    assert_eq!(sc.orbit.vz, F(-7.0));
}

#[test]
fn a_spacecraft_on_another_orbit() {
    let sc = spacecraft(0, 7.0, 50.0);
    let moved = sc.with_orbit(orbit(9, 1.0));
    assert_eq!(moved, Spacecraft { orbit: orbit(9, 1.0), ..sc });
}

#[test]
fn an_orbit_is_interpolated_along_each_axis() {
    let states = [orbit(0, 10.0), orbit(10, 20.0), orbit(20, 40.0)];
    let seed = Orbit { frame: 301, gm: F(4902.8), ..orbit(20, 0.0) };
    let r = seed.interpolate(at_sec(5), &states).unwrap();
    // Each axis goes through the line from the first to the last sample.
    assert_eq!(
        r,
        Orbit {
            x: F(17.5),
            y: F(35.0),
            z: F(52.5),
            vx: F(1.5),
            vy: F(3.0),
            vz: F(4.5),
            dt: at_sec(5),
            ..seed
        }
    );
    // The orbit is at the instant that was asked for, in the frame of the seed.
    assert_eq!(r.dt, at_sec(5));
    assert_eq!((r.frame, r.gm), (301, F(4902.8)));
}

#[test]
fn the_error_of_the_polynomial_is_that_of_the_interpolation() {
    // The polynomial of these tests wants two samples.
    let seed = orbit(20, 0.0);
    assert_eq!(
        seed.interpolate(at_sec(5), &[orbit(0, 10.0)]),
        Err(NyxError::CustomError("too few samples".to_string()))
    );
    assert_eq!(
        spacecraft(20, 0.0, 1.0).interpolate(at_sec(5), &[spacecraft(0, 10.0, 1.0)]),
        Err(NyxError::CustomError("too few samples".to_string()))
    );
}

#[test]
fn there_is_no_interpolation_from_a_window_of_the_wrong_size() {
    let no_data = Err(NyxError::Trajectory(TrajError::NoInterpolationData(at_sec(5))));
    assert_eq!(orbit(20, 0.0).interpolate(at_sec(5), &[]), no_data);
    let nine: Vec<Orbit<F>> = (0..9).map(|k| orbit(10 * k, k as f64)).collect();
    assert_eq!(orbit(20, 0.0).interpolate(at_sec(5), &nine), no_data);
    assert!(orbit(20, 0.0).interpolate(at_sec(5), &nine[..8]).is_ok());

    let no_data = Err(NyxError::Trajectory(TrajError::NoInterpolationData(at_sec(5))));
    assert_eq!(spacecraft(20, 0.0, 1.0).interpolate(at_sec(5), &[]), no_data);
    let nine: Vec<Spacecraft<F>> = (0..9).map(|k| spacecraft(10 * k, k as f64, 1.0)).collect();
    assert_eq!(spacecraft(20, 0.0, 1.0).interpolate(at_sec(5), &nine), no_data);
    assert!(spacecraft(20, 0.0, 1.0).interpolate(at_sec(5), &nine[..8]).is_ok());
}

#[test]
fn the_fuel_of_a_spacecraft_is_interpolated_linearly() {
    let states = [spacecraft(0, 10.0, 100.0), spacecraft(10, 20.0, 70.0), spacecraft(20, 40.0, 60.0)];
    let seed = Spacecraft { cr: F(1.1), cd: F(2.0), dry_mass_kg: F(5.0), ..spacecraft(20, 0.0, 0.0) };
    let r = seed.interpolate(at_sec(5), &states).unwrap();
    assert_eq!(r.fuel_mass_kg, F(90.0));
    assert_eq!(r.orbit.x, F(17.5));
    assert_eq!(r, Spacecraft { orbit: r.orbit, fuel_mass_kg: F(90.0), ..seed });
    assert_eq!(r.orbit.dt, at_sec(5));
}

#[test]
fn a_trajectory_of_spacecraft() {
    let mut traj = Traj::new();
    for k in 0..10 {
        traj.push(spacecraft(10 * k, k as f64, 100.0 - k as f64)).unwrap();
    }
    assert_eq!(traj.at(at_sec(30)), Ok(spacecraft(30, 3.0, 97.0)));
    // Between samples: from the samples 0 to 7, the sample after is the seed.
    let r = traj.at(at_sec(35)).unwrap();
    assert_eq!(r.orbit.x, F(3.5));
    assert_eq!(r.fuel_mass_kg, F(96.5));
    // The state is at the instant that was asked for.
    assert_eq!(r.epoch(), at_sec(35));
}

#[test]
fn the_state_at_the_instant_of_an_interpolated_state_is_that_state_again() {
    let mut traj = Traj::new();
    for k in 0..10 {
        traj.push(orbit(10 * k, k as f64)).unwrap();
    }
    let once = traj.at(at_sec(35)).unwrap();
    let again = traj.at(once.epoch()).unwrap();
    assert_eq!(again, once);
}
