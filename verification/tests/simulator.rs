use nyx_space::errors::{ConfigError, NyxError, TrajError};
use nyx_space::md::trajectory::{InterpState, State, StateParameter, Traj};
use nyx_space::od::simulator::arc::TrackingArcSim;
use nyx_space::od::simulator::{Availability, Handoff, Schedule, TrkConfig};
use nyx_space::od::TrackingDeviceSim;
use nyx_space::time::{Duration, Epoch};
use rand::RngCore;

const NS_PER_S: u64 = 1_000_000_000;

fn secs(s: u64) -> Duration {
    Duration { centuries: 0, nanoseconds: s * NS_PER_S }
}

fn at_sec(s: u64) -> Epoch {
    Epoch { duration_since_j1900_tai: Duration { centuries: 1, nanoseconds: s * NS_PER_S } }
}

fn at_half_sec(halves: u64) -> Epoch {
    Epoch { duration_since_j1900_tai: Duration { centuries: 1, nanoseconds: halves * NS_PER_S / 2 } }
}

#[derive(Clone, Copy, Debug, PartialEq)]
struct Sample {
    epoch: Epoch,
    x: f64,
}

impl State for Sample {
    fn epoch(&self) -> Epoch {
        self.epoch
    }
}

impl InterpState for Sample {
    type Scalar = f64;

    fn params() -> Vec<StateParameter> {
        vec![StateParameter::X]
    }

    fn value_and_deriv(&self, param: &StateParameter) -> Result<(f64, f64), NyxError> {
        match param {
            StateParameter::X => Ok((self.x, 0.0)),
            _ => Err(NyxError::StateParameterUnavailable),
        }
    }

    fn set_value_and_deriv(
        &mut self,
        param: &StateParameter,
        value: f64,
        _value_dt: f64,
    ) -> Result<(), NyxError> {
        match param {
            StateParameter::X => {
                self.x = value;
                Ok(())
            }
            _ => Err(NyxError::StateParameterUnavailable),
        }
    }

    // Stands for an interpolation: the state at the requested instant, with
    // the number of samples that it was given.
    fn interpolate(self, epoch: Epoch, states: &[Self]) -> Result<Self, NyxError> {
        Ok(Sample { epoch, x: -(states.len() as f64) })
    }
}

// A station that sees the spacecraft during the given spans of seconds, both
// ends included, and measures the `x` of the state.
struct Station {
    name: String,
    sees: Vec<(u64, u64)>,
    polled: Vec<Epoch>,
}

fn station(name: &str, sees: &[(u64, u64)]) -> Station {
    Station { name: name.to_string(), sees: sees.to_vec(), polled: Vec::new() }
}

impl TrackingDeviceSim<Sample, f64> for Station {
    fn name(&self) -> String {
        self.name.clone()
    }

    fn measure(&mut self, state: &Sample, _rng: &mut rand::rngs::StdRng) -> Option<f64> {
        self.polled.push(state.epoch);
        for (from, until) in self.sees.iter() {
            if !state.epoch.lt(&at_sec(*from)) && !state.epoch.gt(&at_sec(*until)) {
                return Some(state.x);
            }
        }
        None
    }
}

// A station that always sees the spacecraft and measures a random number.
struct Dice {
    name: String,
}

impl TrackingDeviceSim<Sample, u64> for Dice {
    fn name(&self) -> String {
        self.name.clone()
    }

    fn measure(&mut self, _state: &Sample, rng: &mut rand::rngs::StdRng) -> Option<u64> {
        Some(rng.next_u64())
    }
}

fn trajectory(samples: u64, step_s: u64) -> Traj<Sample> {
    let mut traj = Traj::new();
    for k in 0..samples {
        traj.push(Sample { epoch: at_sec(k * step_s), x: k as f64 }).unwrap();
    }
    traj
}

fn continuous(sampling_s: u64) -> TrkConfig {
    TrkConfig {
        start: Availability::Visible,
        end: Availability::Visible,
        schedule: Schedule::Continuous,
        sampling: secs(sampling_s),
    }
}

fn intermittent(sampling_s: u64, on_s: u64, off_s: u64) -> TrkConfig {
    TrkConfig {
        start: Availability::Visible,
        end: Availability::Visible,
        schedule: Schedule::Intermittent { on: secs(on_s), off: secs(off_s) },
        sampling: secs(sampling_s),
    }
}

fn named(name: &str, cfg: TrkConfig) -> (String, TrkConfig) {
    (name.to_string(), cfg)
}

fn taken<M>(measurements: &[(String, M, Epoch)]) -> Vec<(u64, String)> {
    measurements
        .iter()
        .map(|m| (m.2.duration_since_j1900_tai.nanoseconds / NS_PER_S, m.0.clone()))
        .collect()
}

fn expect(entries: &[(u64, &str)]) -> Vec<(u64, String)> {
    entries.iter().map(|(s, name)| (*s, name.to_string())).collect()
}

fn message(r: Result<TrackingArcSim<Sample, f64, Station>, ConfigError>) -> String {
    match r {
        Err(ConfigError::InvalidConfig(msg)) => msg,
        Ok(_) => panic!("the configuration was accepted"),
    }
}

#[test]
fn one_device_is_polled_at_its_sampling() {
    let devices = vec![station("A", &[(0, 1000)])];
    let configs = vec![named("A", continuous(20))];
    let mut sim = TrackingArcSim::with_seed(devices, trajectory(11, 10), configs, 0).unwrap();
    let arc = sim.generate_measurements("cfg".to_string()).unwrap();
    assert_eq!(
        taken(&arc.measurements),
        expect(&[(0, "A"), (20, "A"), (40, "A"), (60, "A"), (80, "A"), (100, "A")])
    );
    // The measurement is that of the sample at the instant.
    let values: Vec<f64> = arc.measurements.iter().map(|m| m.1).collect();
    assert_eq!(values, vec![0.0, 2.0, 4.0, 6.0, 8.0, 10.0]);
    assert_eq!(arc.device_cfg, "cfg");
    assert_eq!(sim.handoff, Handoff::FirstConfigured);
}

#[test]
fn a_single_sampling_is_the_step_of_the_instants() {
    // One device that samples every 20 s is polled every 20 s, not at every sample.
    let devices = vec![station("A", &[])];
    let configs = vec![named("A", continuous(20))];
    let mut sim = TrackingArcSim::with_seed(devices, trajectory(11, 10), configs, 0).unwrap();
    let arc = sim.generate_measurements(String::new()).unwrap();
    assert!(arc.measurements.is_empty());
    assert_eq!(
        sim.devices[0].1.polled,
        vec![at_sec(0), at_sec(20), at_sec(40), at_sec(60), at_sec(80), at_sec(100)]
    );
}

#[test]
fn the_instants_step_by_the_greatest_common_divisor_of_the_samplings() {
    let devices = vec![station("A", &[(0, 1000)]), station("B", &[(0, 1000)])];
    let configs = vec![named("B", continuous(30)), named("A", continuous(20))];
    let mut sim = TrackingArcSim::with_seed(devices, trajectory(11, 10), configs, 0).unwrap();
    sim.handoff = Handoff::Overlap;
    let arc = sim.generate_measurements(String::new()).unwrap();
    assert_eq!(
        taken(&arc.measurements),
        expect(&[
            (0, "A"),
            (0, "B"),
            (20, "A"),
            (30, "B"),
            (40, "A"),
            (60, "A"),
            (60, "B"),
            (80, "A"),
            (90, "B"),
            (100, "A"),
        ])
    );
}

#[test]
fn samplings_of_fractions_of_a_second_have_a_common_step() {
    // 1.5 s and 1 s: the devices are polled every half second.
    let mut traj = Traj::new();
    for k in 0..4 {
        traj.push(Sample { epoch: at_sec(k), x: k as f64 }).unwrap();
    }
    let half_again =
        TrkConfig { sampling: Duration { centuries: 0, nanoseconds: 1_500_000_000 }, ..continuous(1) };
    let devices = vec![station("A", &[]), station("B", &[])];
    let configs = vec![named("A", half_again), named("B", continuous(1))];
    let mut sim = TrackingArcSim::with_seed(devices, traj, configs, 0).unwrap();
    sim.generate_measurements(String::new()).unwrap();
    let every_half: Vec<Epoch> = (0..7).map(at_half_sec).collect();
    assert_eq!(sim.devices[0].1.polled, every_half);
    assert_eq!(sim.devices[1].1.polled, every_half);
}

#[test]
fn the_first_configured_device_wins_an_instant() {
    let devices = vec![station("A", &[(0, 1000)]), station("B", &[(0, 1000)])];
    let configs = vec![named("A", continuous(20)), named("B", continuous(30))];
    let mut sim = TrackingArcSim::with_seed(devices, trajectory(11, 10), configs, 0).unwrap();
    let arc = sim.generate_measurements(String::new()).unwrap();
    assert_eq!(
        taken(&arc.measurements),
        expect(&[
            (0, "A"),
            (10, "B"),
            (20, "A"),
            (40, "A"),
            (50, "B"),
            (60, "A"),
            (80, "A"),
            (90, "B"),
            (100, "A"),
        ])
    );
    // B is not polled at the instants that A has won.
    assert_eq!(
        sim.devices[1].1.polled,
        vec![at_sec(10), at_sec(50), at_sec(90)]
    );
}

#[test]
fn a_device_measures_only_while_it_sees_the_spacecraft() {
    let devices = vec![station("A", &[(30, 60)])];
    let configs = vec![named("A", continuous(10))];
    let mut sim = TrackingArcSim::with_seed(devices, trajectory(11, 10), configs, 0).unwrap();
    let arc = sim.generate_measurements(String::new()).unwrap();
    assert_eq!(taken(&arc.measurements), expect(&[(30, "A"), (40, "A"), (50, "A"), (60, "A")]));
    // It is polled at every instant all the same.
    assert_eq!(sim.devices[0].1.polled.len(), 11);
}

#[test]
fn a_device_tracks_within_its_availability() {
    let cfg = TrkConfig {
        start: Availability::Epoch(at_sec(30)),
        end: Availability::Epoch(at_sec(65)),
        ..continuous(10)
    };
    let devices = vec![station("A", &[(0, 1000)])];
    let mut sim =
        TrackingArcSim::with_seed(devices, trajectory(11, 10), vec![named("A", cfg)], 0).unwrap();
    let arc = sim.generate_measurements(String::new()).unwrap();
    assert_eq!(taken(&arc.measurements), expect(&[(30, "A"), (40, "A"), (50, "A"), (60, "A")]));
    assert_eq!(sim.devices[0].1.polled, vec![at_sec(30), at_sec(40), at_sec(50), at_sec(60)]);
}

#[test]
fn an_intermittent_device_tracks_in_passes() {
    // Twenty seconds on, then more than twenty seconds off, in view all the time.
    let devices = vec![station("A", &[(0, 1000)])];
    let configs = vec![named("A", intermittent(10, 20, 20))];
    let mut sim = TrackingArcSim::with_seed(devices, trajectory(13, 10), configs, 0).unwrap();
    let arc = sim.generate_measurements(String::new()).unwrap();
    assert_eq!(
        taken(&arc.measurements),
        expect(&[(0, "A"), (10, "A"), (20, "A"), (60, "A"), (70, "A"), (80, "A"), (120, "A")])
    );
    // The device is not polled where its pass is closed, nor while it rests.
    assert_eq!(
        sim.devices[0].1.polled,
        vec![at_sec(0), at_sec(10), at_sec(20), at_sec(60), at_sec(70), at_sec(80), at_sec(120)]
    );
}

#[test]
fn a_pass_is_no_longer_than_the_time_on_and_a_rest_longer_than_the_time_off() {
    for (sampling, on, off) in [(10, 20, 20), (10, 35, 5), (20, 30, 50), (10, 10, 10)] {
        let devices = vec![station("A", &[(0, 10_000)])];
        let configs = vec![named("A", intermittent(sampling, on, off))];
        let mut sim = TrackingArcSim::with_seed(devices, trajectory(61, 10), configs, 0).unwrap();
        let arc = sim.generate_measurements(String::new()).unwrap();
        let at: Vec<u64> = taken(&arc.measurements).iter().map(|m| m.0).collect();
        let mut start = at[0];
        let mut passes = 1;
        for pair in at.windows(2) {
            if pair[1] - pair[0] > sampling.max(10) {
                // A rest: longer than the time off.
                assert!(pair[1] - pair[0] > off);
                start = pair[1];
                passes += 1;
            }
            assert!(pair[1] - start <= on);
        }
        assert!(passes > 3, "{passes} passes with {sampling} s, {on} s on, {off} s off");
    }
}

#[test]
fn an_intermittent_device_rests_after_it_lost_the_spacecraft() {
    let devices = vec![station("A", &[(0, 10), (40, 100)])];
    let configs = vec![named("A", intermittent(10, 30, 20))];
    let mut sim = TrackingArcSim::with_seed(devices, trajectory(11, 10), configs, 0).unwrap();
    let arc = sim.generate_measurements(String::new()).unwrap();
    assert_eq!(
        taken(&arc.measurements),
        expect(&[(0, "A"), (10, "A"), (50, "A"), (60, "A"), (70, "A"), (80, "A")])
    );
    assert_eq!(
        sim.devices[0].1.polled,
        vec![at_sec(0), at_sec(10), at_sec(20), at_sec(50), at_sec(60), at_sec(70), at_sec(80)]
    );
}

#[test]
fn instants_between_samples_are_interpolated() {
    // Samples every 20 s, polled every 10 s: every other state is interpolated,
    // from all six samples.
    let devices = vec![station("A", &[(0, 1000)])];
    let configs = vec![named("A", continuous(10))];
    let mut sim = TrackingArcSim::with_seed(devices, trajectory(6, 20), configs, 0).unwrap();
    let arc = sim.generate_measurements(String::new()).unwrap();
    let values: Vec<f64> = arc.measurements.iter().map(|m| m.1).collect();
    assert_eq!(values, vec![0.0, -6.0, 1.0, -6.0, 2.0, -6.0, 3.0, -6.0, 4.0, -6.0, 5.0]);
}

#[test]
fn a_device_without_configuration_is_refused() {
    let devices = vec![station("A", &[]), station("B", &[]), station("C", &[])];
    let configs = vec![named("A", continuous(20))];
    let r = TrackingArcSim::with_seed(devices, trajectory(11, 10), configs, 0);
    assert_eq!(message(r), "device B has no associated configuration");
}

#[test]
fn a_contradictory_configuration_is_refused() {
    let no_sampling = continuous(0);
    let r = TrackingArcSim::with_seed(
        vec![station("A", &[])],
        trajectory(11, 10),
        vec![named("A", no_sampling)],
        0,
    );
    assert_eq!(message(r), "device A has a contradictory configuration");

    let never_on = intermittent(10, 0, 20);
    let r = TrackingArcSim::with_seed(
        vec![station("A", &[])],
        trajectory(11, 10),
        vec![named("A", never_on)],
        0,
    );
    assert_eq!(message(r), "device A has a contradictory configuration");

    let negative_rest = TrkConfig {
        schedule: Schedule::Intermittent {
            on: secs(10),
            off: Duration { centuries: -1, nanoseconds: 0 },
        },
        ..continuous(10)
    };
    let r = TrackingArcSim::with_seed(
        vec![station("A", &[])],
        trajectory(11, 10),
        vec![named("A", negative_rest)],
        0,
    );
    assert_eq!(message(r), "device A has a contradictory configuration");
}

#[test]
fn a_simulation_without_a_device_is_refused() {
    let r = TrackingArcSim::<Sample, f64, Station>::with_seed(
        vec![],
        trajectory(11, 10),
        vec![named("A", continuous(10))],
        0,
    );
    assert_eq!(message(r), "no device to track with");
    let rng = <rand::rngs::StdRng as rand::SeedableRng>::seed_from_u64(7);
    let r = TrackingArcSim::<Sample, f64, Station>::with_rng(vec![], trajectory(11, 10), vec![], rng);
    assert_eq!(message(r), "no device to track with");
    let r = TrackingArcSim::<Sample, f64, Station>::new(vec![], Traj::new(), vec![]);
    assert_eq!(message(r), "no device to track with");
}

#[test]
fn a_trajectory_without_a_state_is_refused() {
    let r = TrackingArcSim::with_seed(
        vec![station("A", &[])],
        Traj::new(),
        vec![named("A", continuous(10))],
        0,
    );
    assert_eq!(message(r), "the trajectory holds no state");
    // The trajectory is looked at before the configurations are.
    let r = TrackingArcSim::with_seed(vec![station("A", &[])], Traj::new(), vec![], 0);
    assert_eq!(message(r), "the trajectory holds no state");
}

#[test]
fn a_trajectory_that_is_too_long_is_refused() {
    let mut traj = Traj::new();
    let first = Epoch { duration_since_j1900_tai: Duration { centuries: -20000, nanoseconds: 0 } };
    let last = Epoch { duration_since_j1900_tai: Duration { centuries: 20000, nanoseconds: 0 } };
    traj.push(Sample { epoch: first, x: 0.0 }).unwrap();
    traj.push(Sample { epoch: last, x: 1.0 }).unwrap();
    let r = TrackingArcSim::with_seed(
        vec![station("A", &[])],
        traj,
        vec![named("A", continuous(10))],
        0,
    );
    assert_eq!(message(r), "the trajectory is too long for the sampling of the devices");
}

#[test]
fn of_devices_with_one_name_the_last_is_kept_in_the_place_of_the_first() {
    let devices = vec![station("A", &[(0, 1000)]), station("B", &[(0, 1000)]), station("A", &[])];
    let configs = vec![named("A", continuous(20)), named("B", continuous(20))];
    let mut sim = TrackingArcSim::with_seed(devices, trajectory(3, 20), configs, 0).unwrap();
    let names: Vec<&str> = sim.devices.iter().map(|d| d.0.as_str()).collect();
    assert_eq!(names, vec!["A", "B"]);
    assert!(sim.devices[0].1.sees.is_empty());
    let arc = sim.generate_measurements(String::new()).unwrap();
    assert_eq!(taken(&arc.measurements), expect(&[(0, "B"), (20, "B"), (40, "B")]));
}

#[test]
fn the_first_configuration_of_a_name_counts() {
    let devices = vec![station("A", &[(0, 1000)])];
    let configs = vec![named("A", continuous(20)), named("A", continuous(10))];
    let mut sim = TrackingArcSim::with_seed(devices, trajectory(5, 10), configs, 0).unwrap();
    let arc = sim.generate_measurements(String::new()).unwrap();
    assert_eq!(taken(&arc.measurements), expect(&[(0, "A"), (20, "A"), (40, "A")]));
}

#[test]
fn the_simulation_stops_where_the_trajectory_has_no_state() {
    let devices = vec![station("A", &[(0, 1000)])];
    let configs = vec![named("A", continuous(10))];
    let mut sim = TrackingArcSim::with_seed(devices, trajectory(11, 10), configs, 0).unwrap();
    sim.trajectory.states.pop();
    let r = sim.generate_measurements(String::new());
    match r {
        Err(e) => {
            assert_eq!(e, NyxError::Trajectory(TrajError::NoInterpolationData(at_sec(100))))
        }
        Ok(_) => panic!("an arc came of a trajectory that ends early"),
    }
}

#[test]
fn a_simulation_can_be_run_again() {
    let devices = vec![station("A", &[(0, 1000)])];
    let configs = vec![named("A", continuous(20))];
    let mut sim = TrackingArcSim::with_seed(devices, trajectory(11, 10), configs, 0).unwrap();
    let first = sim.generate_measurements(String::new()).unwrap();
    let second = sim.generate_measurements(String::new()).unwrap();
    assert_eq!(taken(&first.measurements), taken(&second.measurements));
    assert_eq!(first.measurements.len(), 6);
}

#[test]
fn the_same_seed_gives_the_same_arc() {
    let run = |seed: u64| {
        let devices = vec![Dice { name: "A".to_string() }, Dice { name: "B".to_string() }];
        let configs = vec![named("A", continuous(20)), named("B", continuous(30))];
        let mut sim = TrackingArcSim::with_seed(devices, trajectory(11, 10), configs, seed).unwrap();
        sim.generate_measurements(String::new()).unwrap().measurements
    };
    let first = run(12345);
    let again = run(12345);
    let other = run(54321);
    assert_eq!(first, again);
    assert_eq!(first.len(), 9);
    assert_eq!(taken(&first), taken(&other));
    let noise = |arc: &[(String, u64, Epoch)]| arc.iter().map(|m| m.1).collect::<Vec<u64>>();
    assert_ne!(noise(&first), noise(&other));
    // The numbers advance from one measurement to the next.
    assert_ne!(first[0].1, first[1].1);
}

#[test]
fn a_seed_gives_the_generator_that_rand_makes_of_it() {
    let devices = vec![Dice { name: "A".to_string() }];
    let configs = vec![named("A", continuous(50))];
    let mut sim = TrackingArcSim::with_seed(devices, trajectory(11, 10), configs, 12345).unwrap();
    let arc = sim.generate_measurements(String::new()).unwrap();
    let mut same = <rand::rngs::StdRng as rand::SeedableRng>::seed_from_u64(12345);
    let drawn: Vec<u64> = arc.measurements.iter().map(|m| m.1).collect();
    assert_eq!(drawn, vec![same.next_u64(), same.next_u64(), same.next_u64()]);
}

#[test]
fn the_instants_cross_the_end_of_a_century() {
    // Five samples, ten seconds apart, the third at the turn of the century.
    let end_of_century = 3_155_760_000_000_000_000;
    let mut traj = Traj::new();
    let mut expected = Vec::new();
    for k in 0..5u64 {
        let epoch = if k < 2 {
            Epoch {
                duration_since_j1900_tai: Duration {
                    centuries: 0,
                    nanoseconds: end_of_century - (2 - k) * 10 * NS_PER_S,
                },
            }
        } else {
            Epoch {
                duration_since_j1900_tai: Duration {
                    centuries: 1,
                    nanoseconds: (k - 2) * 10 * NS_PER_S,
                },
            }
        };
        traj.push(Sample { epoch, x: k as f64 }).unwrap();
        if k % 2 == 0 {
            expected.push(epoch);
        }
    }
    let devices = vec![Station { name: "A".to_string(), sees: vec![], polled: vec![] }];
    let configs = vec![named("A", continuous(20))];
    let mut sim = TrackingArcSim::with_seed(devices, traj, configs, 0).unwrap();
    sim.generate_measurements(String::new()).unwrap();
    assert_eq!(sim.devices[0].1.polled, expected);
}

#[test]
fn a_sampling_of_centuries_counts_as_the_longest_span_of_64_bits() {
    // Such a device is polled at the first instant and never again.
    let ages = TrkConfig { sampling: Duration { centuries: 5, nanoseconds: 0 }, ..continuous(1) };
    let devices = vec![station("A", &[(0, 1000)])];
    let mut sim =
        TrackingArcSim::with_seed(devices, trajectory(11, 10), vec![named("A", ages)], 0).unwrap();
    let arc = sim.generate_measurements(String::new()).unwrap();
    assert_eq!(taken(&arc.measurements), expect(&[(0, "A")]));
    assert_eq!(sim.devices[0].1.polled, vec![at_sec(0)]);
}

#[test]
fn a_generator_can_be_handed_over() {
    let rng = <rand::rngs::StdRng as rand::SeedableRng>::seed_from_u64(7);
    let devices = vec![Dice { name: "A".to_string() }];
    let configs = vec![named("A", continuous(50))];
    let mut sim = TrackingArcSim::with_rng(devices, trajectory(11, 10), configs, rng).unwrap();
    let arc = sim.generate_measurements(String::new()).unwrap();
    let mut same = <rand::rngs::StdRng as rand::SeedableRng>::seed_from_u64(7);
    let drawn: Vec<u64> = arc.measurements.iter().map(|m| m.1).collect();
    assert_eq!(drawn, vec![same.next_u64(), same.next_u64(), same.next_u64()]);
}

#[test]
fn a_generator_can_be_seeded_by_the_system() {
    let devices = vec![Dice { name: "A".to_string() }];
    let configs = vec![named("A", continuous(50))];
    let mut sim = TrackingArcSim::new(devices, trajectory(11, 10), configs).unwrap();
    let arc = sim.generate_measurements(String::new()).unwrap();
    assert_eq!(taken(&arc.measurements), expect(&[(0, "A"), (50, "A"), (100, "A")]));
}

#[test]
fn the_measurements_of_a_device_lie_its_sampling_apart() {
    let devices =
        vec![station("A", &[(0, 15), (45, 1000)]), station("B", &[(0, 1000)]), station("C", &[(20, 70)])];
    let configs = vec![
        named("A", continuous(20)),
        named("B", intermittent(30, 60, 10)),
        named("C", continuous(10)),
    ];
    for handoff in [Handoff::FirstConfigured, Handoff::Overlap] {
        let devices = devices
            .iter()
            .map(|d| station(&d.name, &d.sees))
            .collect::<Vec<Station>>();
        let mut sim =
            TrackingArcSim::with_seed(devices, trajectory(21, 5), configs.clone(), 0).unwrap();
        sim.handoff = handoff;
        let arc = sim.generate_measurements(String::new()).unwrap().measurements;
        assert!(!arc.is_empty());
        for j in 0..arc.len() {
            for i in 0..j {
                // In the order of time.
                assert!(!arc[j].2.lt(&arc[i].2));
                if handoff == Handoff::FirstConfigured {
                    assert!(arc[i].2.lt(&arc[j].2));
                }
                if arc[i].0 == arc[j].0 {
                    let sampling = configs.iter().find(|c| c.0 == arc[i].0).unwrap().1.sampling;
                    let apart = arc[j].2.total_nanoseconds() - arc[i].2.total_nanoseconds();
                    assert!(apart >= sampling.total_nanoseconds());
                }
            }
        }
    }
}

#[test]
fn the_simulation_describes_itself() {
    let devices = vec![station("A \"one\"", &[]), station("B", &[])];
    let configs = vec![named("A \"one\"", continuous(20)), named("B", continuous(30))];
    let mut traj = trajectory(11, 10);
    traj.name = Some("truth".to_string());
    let sim = TrackingArcSim::with_seed(devices, traj, configs, 0).unwrap();
    let tai = |s: u64| {
        hifitime::Epoch::from_tai_duration(hifitime::Duration::from_parts(1, s * NS_PER_S))
    };
    let series = hifitime::TimeSeries::inclusive(
        tai(0),
        tai(100),
        hifitime::Duration::from_parts(0, 10 * NS_PER_S),
    );
    let expected = format!(
        "Tracking Arc Simulator on Trajectory truth from {} to {} with devices [\"A \\\"one\\\"\", \"B\"] over {}",
        tai(0),
        tai(100),
        series
    );
    assert_eq!(sim.to_string(), expected);
    assert_eq!(
        expected,
        "Tracking Arc Simulator on Trajectory truth from 2000-01-01T23:59:28 UTC to \
         2000-01-02T00:01:08 UTC with devices [\"A \\\"one\\\"\", \"B\"] over \
         TimeSeries [2000-01-01T23:59:28 UTC : 2000-01-02T00:01:08 UTC : 10 s]"
    );
}
