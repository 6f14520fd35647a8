//! The simulator of a tracking arc: devices, their configurations, the
//! trajectory that they track, and the instants at which they are polled.

use crate::errors::{debug_string, debug_text, ConfigError, NyxError};
use crate::md::trajectory::{InterpState, Traj};
use crate::od::msr::TrackingArc;
use crate::od::simulator::registry::{
    configs_wf, device_configs, distinct, enrolled, fault, faultless, find_config, has_name,
    lemma_lookup_is_entry, lookup, place_of, registry,
};
use crate::od::simulator::sampling::{
    common_sampling, gcd, is_common_sampling, lemma_common_sampling_unique, lemma_divides_trans,
    samplings,
};
use crate::od::simulator::schedule::{
    lemma_next_tick_orderly, lemma_run_agrees, lemma_run_orderly, lemma_run_tick_agrees,
    lemma_taken_was_polled, lemma_turn_orderly, Plan, Progress, SchedData,
};
use crate::od::simulator::{Handoff, TrkConfig};
use crate::od::{rng_from_os, rng_from_seed, seeded_rng, TrackingDeviceSim};
use crate::time::{
    duration_of_total, from_truncated_nanoseconds, lemma_of_total_is_inverse,
    lemma_order_is_total_order, lemma_ticks_series_wf, remaining_epochs, series_in_range,
    series_ends, series_wf, ticks, time_series_clone, time_series_display, time_series_inclusive,
    time_series_next, time_series_to_string, truncated_nanoseconds, Epoch,
    NANOSECONDS_PER_CENTURY,
};
use core::marker::PhantomData;
use vstd::prelude::*;
use vstd::string::*;

verus! {

/// Simulates the tracking of a trajectory by a set of devices.
pub struct TrackingArcSim<MsrIn: InterpState + Copy, Msr, D: TrackingDeviceSim<MsrIn, Msr>> {
    /// The devices, each under the name that it gave when the simulation was
    /// made, in the order in which they are polled. No two names are the
    /// same.
    pub devices: Vec<(String, D)>,
    /// The trajectory that the devices track.
    pub trajectory: Traj<MsrIn>,
    /// The configuration of each device, by the name of the device.
    pub configs: Vec<(String, TrkConfig)>,
    /// What happens at an instant at which several devices may track.
    pub handoff: Handoff,
    /// The random number generator of this simulation.
    pub rng: rand::rngs::StdRng,
    /// The instants at which the devices are polled: from the start to the
    /// end of the trajectory, by the common sampling of the devices.
    pub time_series: hifitime::TimeSeries,
    /// Marks the type of the measurements.
    pub msr: PhantomData<Msr>,
}

/// What happened in a run of a simulation, instant by instant.
pub struct Trace<MsrIn, Msr, D> {
    /// The state of the trajectory at each instant.
    pub states: Seq<MsrIn>,
    /// What each device answered at each instant, if it was polled.
    pub answers: Seq<Seq<Option<Msr>>>,
    /// The devices before each instant, and after the last.
    pub stages: Seq<Seq<D>>,
    /// The random number generator before the turn of each device at each
    /// instant, and after the last turn of the instant.
    pub rngs: Seq<Seq<rand::rngs::StdRng>>,
}

/// The first `count` of `names`, each as a programmer would write it, with a
/// comma and a space between any two.
pub open spec fn listed(names: Seq<Seq<char>>, count: int) -> Seq<char>
    decreases count,
{
    if count <= 0 {
        Seq::empty()
    } else if count == 1 {
        debug_text(names[0])
    } else {
        listed(names, count - 1) + ", "@ + debug_text(names[count - 1])
    }
}

/// The message of the error for a simulation without a device.
pub open spec fn no_devices() -> Seq<char> {
    "no device to track with"@
}

/// The message of the error for a trajectory without a state.
pub open spec fn no_states() -> Seq<char> {
    "the trajectory holds no state"@
}

/// The message of the error for a system that gives no random numbers.
pub open spec fn no_entropy() -> Seq<char> {
    "the system gives no random numbers"@
}

/// The message of the error for a trajectory that spans too many instants.
pub open spec fn span_fault() -> Seq<char> {
    "the trajectory is too long for the sampling of the devices"@
}

impl<MsrIn: InterpState + Copy, Msr, D: TrackingDeviceSim<MsrIn, Msr>> TrackingArcSim<
    MsrIn,
    Msr,
    D,
> {
    /// The instants at which the devices are polled.
    pub open spec fn epochs(&self) -> Seq<Epoch> {
        remaining_epochs(self.time_series)
    }

    /// The names of `devices`, in order.
    pub open spec fn names(devices: Seq<(String, D)>) -> Seq<Seq<char>> {
        Seq::new(devices.len(), |d: int| devices[d].0@)
    }

    /// `devices` with each name as plain text.
    pub open spec fn entries(devices: Seq<(String, D)>) -> Seq<(Seq<char>, D)> {
        Seq::new(devices.len(), |d: int| (devices[d].0@, devices[d].1))
    }

    /// What the simulation runs on.
    pub open spec fn plan(&self) -> Plan {
        Plan {
            configs: device_configs(Self::names(self.devices@), self.configs@),
            handoff: self.handoff,
            epochs: self.epochs(),
        }
    }

    /// The simulation can run: the trajectory is in order, the devices have
    /// distinct names, each has a well-formed configuration that does not
    /// contradict itself, and the instants are finitely many and in order.
    pub open spec fn wf(&self) -> bool {
        &&& self.trajectory.wf()
        &&& distinct(Self::names(self.devices@))
        &&& configs_wf(self.configs@)
        &&& faultless(self.configs@, Self::names(self.devices@))
        &&& series_ends(self.time_series)
        &&& series_wf(self.epochs())
    }

    /// The one-line description of the simulation: its trajectory, the
    /// names of its devices and its instants.
    pub open spec fn description(&self) -> Seq<char> {
        "Tracking Arc Simulator on "@ + self.trajectory.description() + " with devices ["@ + listed(
            Self::names(self.devices@),
            self.devices@.len() as int,
        ) + "] over "@ + time_series_display(self.time_series)
    }

    /// Writes the one-line description of the simulation.
    pub fn to_string(&self) -> (text: String)
        ensures
            text@ == self.description(),
    {
        let mut text = String::from_str("Tracking Arc Simulator on ");
        text.append(self.trajectory.to_string().as_str());
        text.append(" with devices [");
        let ghost names = Self::names(self.devices@);
        let ghost opening = text@;
        let mut d: usize = 0;
        while d < self.devices.len()
            invariant
                d <= self.devices@.len(),
                names == Self::names(self.devices@),
                text@ == opening + listed(names, d as int),
            decreases self.devices@.len() - d,
        {
            if d > 0 {
                text.append(", ");
            }
            text.append(debug_string(&self.devices[d].0).as_str());
            proof {
                assert(names[d as int] == self.devices@[d as int].0@);
                if d == 0 {
                    assert(listed(names, 0) =~= Seq::<char>::empty());
                    assert(text@ =~= opening + listed(names, 1));
                } else {
                    assert(text@ =~= opening + listed(names, d as int + 1));
                }
            }
            d = d + 1;
        }
        text.append("] over ");
        text.append(time_series_to_string(&self.time_series).as_str());
        text
    }

    /// What the constructors return for these devices, this trajectory,
    /// these configurations and this generator, where `names` are the names
    /// that the devices gave: those of all devices, or those of the devices
    /// up to the first with a fault in its configuration, or none where there
    /// is no device or no state. In this order: a simulation needs a device,
    /// its trajectory a state, every device a configuration that does not
    /// contradict itself, and the trajectory must not be too long.
    pub open spec fn built(
        names: Seq<Seq<char>>,
        devices: Seq<D>,
        trajectory: Traj<MsrIn>,
        configs: Vec<(String, TrkConfig)>,
        rng: rand::rngs::StdRng,
        r: Result<Self, ConfigError>,
    ) -> bool {
        let first = trajectory.epoch_at(0);
        let last = trajectory.epoch_at(trajectory.states@.len() - 1);
        let step = duration_of_total(common_sampling(samplings(names, configs@)));
        &&& names.len() <= devices.len()
        &&& forall|i: int| 0 <= i < names.len() ==> (#[trigger] devices[i]).named(names[i])
        &&& match r {
            Ok(sim) => {
                &&& devices.len() > 0
                &&& trajectory.states@.len() > 0
                &&& names.len() == devices.len()
                &&& faultless(configs@, names)
                &&& is_common_sampling(step.total(), samplings(names, configs@))
                &&& series_in_range(first, last, step)
                &&& sim.epochs() == ticks(first, last, step)
                &&& Self::entries(sim.devices@) == registry(names, devices)
                &&& sim.trajectory == trajectory
                &&& sim.configs == configs
                &&& sim.handoff == Handoff::FirstConfigured
                &&& sim.rng == rng
                &&& sim.wf()
            },
            Err(ConfigError::InvalidConfig(msg)) => {
                ||| devices.len() == 0 && msg@ == no_devices()
                ||| devices.len() > 0 && trajectory.states@.len() == 0 && msg@ == no_states()
                ||| devices.len() > 0 && trajectory.states@.len() > 0 && exists|i: int|
                    0 <= i < names.len() && fault(configs@, #[trigger] names[i]) == Some(msg@)
                        && faultless(configs@, names.take(i))
                ||| {
                    &&& devices.len() > 0
                    &&& trajectory.states@.len() > 0
                    &&& names.len() == devices.len()
                    &&& faultless(configs@, names)
                    &&& !series_in_range(first, last, step)
                    &&& msg@ == span_fault()
                }
            },
        }
    }

    /// What `new` returns: what the constructors return for some generator,
    /// or the error of a system that gives no random numbers.
    pub open spec fn seeded_by_system(
        devices: Seq<D>,
        trajectory: Traj<MsrIn>,
        configs: Vec<(String, TrkConfig)>,
        r: Result<Self, ConfigError>,
    ) -> bool {
        ||| r matches Err(ConfigError::InvalidConfig(msg)) && msg@ == no_entropy()
        ||| exists|names: Seq<Seq<char>>, rng: rand::rngs::StdRng| #[trigger]
            Self::built(names, devices, trajectory, configs, rng, r)
    }

    /// Enrolls `device` in `list` as `name`.
    fn enroll(list: &mut Vec<(String, D)>, name: String, device: D)
        requires
            distinct(Self::names(old(list)@)),
        ensures
            Self::entries(final(list)@) == enrolled(Self::entries(old(list)@), name@, device),
            distinct(Self::names(final(list)@)),
            forall|i: int|
                0 <= i < final(list)@.len() ==> (#[trigger] final(list)@[i]).0@ == name@ || (i < old(
                    list,
                )@.len() && final(list)@[i].0@ == old(list)@[i].0@),
    {
        let ghost before = list@;
        let ghost listed = Self::entries(before);
        let mut i: usize = 0;
        while i < list.len()
            invariant
                i <= list@.len(),
                list@ == before,
                before == old(list)@,
                listed == Self::entries(before),
                distinct(Self::names(before)),
                forall|j: int| 0 <= j < i ==> (#[trigger] list@[j]).0@ != name@,
            decreases list@.len() - i,
        {
            if list[i].0 == name {
                proof {
                    assert(listed[i as int].0 == name@);
                    assert(has_name(listed, name@));
                    let place = place_of(listed, name@);
                    assert(listed[place].0 == name@);
                    assert(place == i) by {
                        if i < place {
                            assert(Self::names(before)[i as int] != Self::names(before)[place]);
                        } else if place < i {
                            assert(list@[place].0@ != name@);
                        }
                    }
                }
                list[i] = (name, device);
                proof {
                    assert(list@ == before.update(i as int, (name, device)));
                    assert(Self::entries(list@) =~= listed.update(i as int, (name@, device)));
                    assert forall|a: int, b: int| 0 <= a < b < list@.len() implies Self::names(
                        list@,
                    )[a] != Self::names(list@)[b] by {
                        assert(Self::names(before)[a] != Self::names(before)[b]);
                    }
                }
                return ;
            }
            i = i + 1;
        }
        proof {
            assert(!has_name(listed, name@)) by {
                if has_name(listed, name@) {
                    let place = place_of(listed, name@);
                    assert(list@[place].0@ != name@);
                }
            }
        }
        list.push((name, device));
        proof {
            assert(Self::entries(list@) =~= listed.push((name@, device)));
            assert forall|a: int, b: int| 0 <= a < b < list@.len() implies Self::names(list@)[a]
                != Self::names(list@)[b] by {
                if b < before.len() {
                    assert(Self::names(before)[a] != Self::names(before)[b]);
                } else {
                    assert(before[a].0@ != name@);
                }
            }
        }
    }

    /// A simulation of `devices` tracking `trajectory`, with noise drawn
    /// from `rng`.
    ///
    /// Each device is asked for its name once. Every device needs a
    /// configuration under its name in `configs`, and one that does not
    /// contradict itself; the first device that has none is reported. Of
    /// devices with the same name the last is kept. The devices are polled
    /// from the first to the last sample of the trajectory, by the greatest
    /// span that every sampling is a multiple of. A trajectory too long to
    /// be walked by that span is refused.
    pub fn with_rng(
        devices: Vec<D>,
        trajectory: Traj<MsrIn>,
        configs: Vec<(String, TrkConfig)>,
        rng: rand::rngs::StdRng,
    ) -> (r: Result<Self, ConfigError>)
        requires
            trajectory.wf(),
            configs_wf(configs@),
        ensures
            exists|names: Seq<Seq<char>>|
                #[trigger] Self::built(
                    names,
                    devices@,
                    trajectory,
                    configs,
                    rng,
                    r,
                ),
    {
        let ghost all = devices@;
        if devices.len() == 0 {
            let r = Err(ConfigError::InvalidConfig(String::from_str("no device to track with")));
            proof {
                assert(Self::built(Seq::empty(), all, trajectory, configs, rng, r));
            }
            return r;
        }
        if trajectory.states.len() == 0 {
            let r = Err(
                ConfigError::InvalidConfig(String::from_str("the trajectory holds no state")),
            );
            proof {
                assert(Self::built(Seq::empty(), all, trajectory, configs, rng, r));
            }
            return r;
        }
        let mut queue = devices;
        assert(all.len() <= usize::MAX) by {
            assert(all.len() == queue.len());
        }
        let ghost mut names: Seq<Seq<char>> = Seq::empty();
        let mut list: Vec<(String, D)> = Vec::new();
        let mut common: i64 = 0;
        let mut done: usize = 0;
        assert(all.skip(0) =~= all);
        assert(all.take(0) =~= Seq::<D>::empty());
        assert(Self::entries(list@) =~= registry(names, all.take(0)));
        while queue.len() > 0
            invariant
                configs_wf(configs@),
                all == devices@,
                all.len() > 0,
                trajectory.states@.len() > 0,
                all.len() <= usize::MAX,
                0 <= done <= all.len(),
                names.len() == done,
                queue@ == all.skip(done as int),
                Self::entries(list@) == registry(names, all.take(done as int)),
                distinct(Self::names(list@)),
                forall|i: int| 0 <= i < done ==> (#[trigger] all[i]).named(names[i]),
                faultless(configs@, names),
                faultless(configs@, Self::names(list@)),
                done == 0 ==> common == 0,
                done > 0 ==> is_common_sampling(common as int, samplings(names, configs@)),
            decreases queue@.len(),
        {
            let device = queue.remove(0);
            assert(device == all[done as int]);
            assert(queue@ =~= all.skip(done as int + 1));
            let name = device.name();
            let ghost longer = names.push(name@);
            proof {
                assert forall|i: int| 0 <= i <= done implies (#[trigger] all[i]).named(
                    longer[i],
                ) by {
                    if i < done {
                        assert(longer[i] == names[i]);
                    }
                }
            }
            let found = find_config(&configs, &name);
            let cfg = match found {
                Some(cfg) => cfg,
                None => {
                    let mut msg = String::from_str("device ");
                    msg.append(name.as_str());
                    msg.append(" has no associated configuration");
                    proof {
                        assert(fault(configs@, longer[done as int]) == Some(msg@));
                        assert(longer.take(done as int) =~= names);
                        assert(Self::built(
                            longer,
                            all,
                            trajectory,
                            configs,
                            rng,
                            Err(ConfigError::InvalidConfig(msg)),
                        ));
                    }
                    return Err(ConfigError::InvalidConfig(msg));
                },
            };
            proof {
                lemma_lookup_is_entry(configs@, name@);
            }
            if cfg.is_contradictory() {
                let mut msg = String::from_str("device ");
                msg.append(name.as_str());
                msg.append(" has a contradictory configuration");
                proof {
                    assert(fault(configs@, longer[done as int]) == Some(msg@));
                    assert(longer.take(done as int) =~= names);
                    assert(Self::built(
                        longer,
                        all,
                        trajectory,
                        configs,
                        rng,
                        Err(ConfigError::InvalidConfig(msg)),
                    ));
                }
                return Err(ConfigError::InvalidConfig(msg));
            }
            let ns = truncated_nanoseconds(cfg.sampling);
            let ghost shorter = samplings(names, configs@);
            let ghost rates = samplings(longer, configs@);
            proof {
                assert(cfg.sampling.total() > 0);
                assert(cfg.sampling.centuries >= 0) by (nonlinear_arith)
                    requires
                        cfg.sampling.centuries * (NANOSECONDS_PER_CENTURY as int)
                            + cfg.sampling.nanoseconds > 0,
                        cfg.sampling.nanoseconds <= NANOSECONDS_PER_CENTURY,
                        cfg.sampling.nanoseconds == NANOSECONDS_PER_CENTURY
                            ==> cfg.sampling.centuries == i16::MAX,
                ;
                assert(ns > 0);
                assert(rates[done as int] == ns);
                assert(rates.len() == done + 1);
                assert forall|i: int| 0 <= i < done implies rates[i] == shorter[i] by {
                    assert(longer[i] == names[i]);
                }
            }
            let ghost before = common;
            if done == 0 {
                common = ns;
                proof {
                    vstd::arithmetic::div_mod::lemma_mod_self_0(ns as int);
                    assert forall|d: int|
                        d > 0 && (forall|i: int|
                            0 <= i < rates.len() ==> #[trigger] rates[i] % d == 0) implies #[trigger] (
                    ns as int % d) == 0 by {
                        assert(rates[0] % d == 0);
                    }
                }
            } else {
                common = gcd(common, ns);
                proof {
                    assert(common > 0);
                    assert forall|i: int| 0 <= i < rates.len() implies #[trigger] rates[i] % (
                    common as int) == 0 by {
                        if i < done {
                            assert(shorter[i] % (before as int) == 0);
                            lemma_divides_trans(shorter[i], before as int, common as int);
                        }
                    }
                    assert forall|d: int|
                        d > 0 && (forall|i: int|
                            0 <= i < rates.len() ==> #[trigger] rates[i] % d == 0) implies #[trigger] (
                    common as int % d) == 0 by {
                        assert forall|i: int| 0 <= i < shorter.len() implies #[trigger] shorter[i]
                            % d == 0 by {
                            assert(rates[i] % d == 0);
                        }
                        assert(before as int % d == 0);
                        assert(rates[done as int] % d == 0);
                    }
                }
            }
            proof {
                assert(all.take(done as int + 1).drop_last() =~= all.take(done as int));
                assert(all.take(done as int + 1).last() == device);
                assert(longer.take(done as int) =~= names);
                assert(fault(configs@, name@).is_none());
            }
            let ghost listed = list@;
            Self::enroll(&mut list, name, device);
            proof {
                assert forall|i: int| 0 <= i < Self::names(list@).len() implies fault(
                    configs@,
                    #[trigger] Self::names(list@)[i],
                ).is_none() by {
                    if list@[i].0@ != longer[done as int] {
                        assert(Self::names(listed)[i] == list@[i].0@);
                    }
                }
                names = longer;
            }
            done = done + 1;
        }
        proof {
            assert(all.take(done as int) =~= all);
            lemma_common_sampling_unique(common as int, samplings(names, configs@));
        }
        let start = trajectory.states[0].0;
        let end = trajectory.states[trajectory.states.len() - 1].0;
        let step = from_truncated_nanoseconds(common);
        proof {
            assert(start == trajectory.epoch_at(0));
            assert(end == trajectory.epoch_at(trajectory.states@.len() - 1));
            assert(start.wf() && end.wf());
            lemma_of_total_is_inverse(step);
            if trajectory.states@.len() > 1 {
                assert(trajectory.epoch_at(0).spec_lt(
                    trajectory.epoch_at(trajectory.states@.len() - 1),
                ));
            }
            lemma_order_is_total_order(
                start.duration_since_j1900_tai,
                end.duration_since_j1900_tai,
            );
        }
        let span: i128 = end.total_nanoseconds() - start.total_nanoseconds();
        if span >= 103_404_787_920_000_000_000_000 || span / (common as i128) >= i64::MAX as i128 {
            let r = Err(
                ConfigError::InvalidConfig(
                    String::from_str("the trajectory is too long for the sampling of the devices"),
                ),
            );
            proof {
                assert(Self::built(names, all, trajectory, configs, rng, r));
            }
            return r;
        }
        let time_series = time_series_inclusive(start, end, step);
        proof {
            lemma_ticks_series_wf(start, end, step);
        }
        let sim = TrackingArcSim {
            devices: list,
            trajectory,
            configs,
            handoff: Handoff::FirstConfigured,
            rng,
            time_series,
            msr: PhantomData,
        };
        proof {
            assert(Self::built(names, all, sim.trajectory, sim.configs, sim.rng, Ok(sim)));
        }
        Ok(sim)
    }

    /// A simulation whose noise is that of the generator seeded with `seed`.
    pub fn with_seed(
        devices: Vec<D>,
        trajectory: Traj<MsrIn>,
        configs: Vec<(String, TrkConfig)>,
        seed: u64,
    ) -> (r: Result<Self, ConfigError>)
        requires
            trajectory.wf(),
            configs_wf(configs@),
        ensures
            exists|names: Seq<Seq<char>>|
                #[trigger] Self::built(
                    names,
                    devices@,
                    trajectory,
                    configs,
                    seeded_rng(seed),
                    r,
                ),
    {
        let rng = rng_from_seed(seed);
        Self::with_rng(devices, trajectory, configs, rng)
    }

    /// A simulation whose noise is that of a generator seeded by the
    /// operating system. Where the system gives no random numbers, there is
    /// no simulation.
    pub fn new(devices: Vec<D>, trajectory: Traj<MsrIn>, configs: Vec<(String, TrkConfig)>) -> (r:
        Result<Self, ConfigError>)
        requires
            trajectory.wf(),
            configs_wf(configs@),
        ensures
            Self::seeded_by_system(devices@, trajectory, configs, r),
    {
        match rng_from_os() {
            Ok(rng) => {
                let ghost seed = rng;
                let r = Self::with_rng(devices, trajectory, configs, rng);
                proof {
                    let names = choose|names: Seq<Seq<char>>| #[trigger]
                        Self::built(names, devices@, trajectory, configs, seed, r);
                    assert(Self::built(names, devices@, trajectory, configs, seed, r));
                }
                r
            },
            Err(_) => Err(
                ConfigError::InvalidConfig(String::from_str("the system gives no random numbers")),
            ),
        }
    }

    /// Whether each device sees the spacecraft, by what it answers.
    pub open spec fn sights_at(said: Seq<Option<Msr>>) -> Seq<bool> {
        Seq::new(said.len(), |d: int| said[d].is_some())
    }

    /// Whether each device sees the spacecraft at each instant, by what it
    /// answers.
    pub open spec fn sights(answers: Seq<Seq<Option<Msr>>>) -> Seq<Seq<bool>> {
        Seq::new(answers.len(), |t: int| Self::sights_at(answers[t]))
    }

    /// `devices` without their names.
    pub open spec fn values(devices: Seq<(String, D)>) -> Seq<D> {
        Seq::new(devices.len(), |d: int| devices[d].1)
    }

    /// Whether `measurements` are the measurements `taken`: as many, and
    /// each with the name of its device, with what that device answered and
    /// with its instant.
    pub open spec fn records(
        &self,
        measurements: Seq<(String, Msr, Epoch)>,
        taken: Seq<(int, int)>,
        answers: Seq<Seq<Option<Msr>>>,
    ) -> bool {
        &&& measurements.len() == taken.len()
        &&& forall|m: int|
            0 <= m < taken.len() ==> {
                &&& (#[trigger] measurements[m]).0@ == Self::names(self.devices@)[taken[m].1]
                &&& measurements[m].2 == self.epochs()[taken[m].0]
                &&& answers[taken[m].0][taken[m].1] == Some(measurements[m].1)
            }
    }

    /// Whether the turn of a device at an instant went as `trace` says: a
    /// device that is polled was asked for a measurement of the state of
    /// that instant, with the generator as the turn before left it, and
    /// gave its answer; a device that is not polled stayed as it was, and so
    /// did the generator.
    pub open spec fn turned(&self, trace: Trace<MsrIn, Msr, D>, tick: int, device: int) -> bool {
        let plan = self.plan();
        if plan.polls(plan.before_turn(Self::sights(trace.answers), tick, device), tick, device) {
            trace.stages[tick][device].measured(
                trace.states[tick],
                trace.rngs[tick][device],
                trace.answers[tick][device],
                trace.stages[tick + 1][device],
                trace.rngs[tick][device + 1],
            )
        } else {
            &&& trace.stages[tick + 1][device] == trace.stages[tick][device]
            &&& trace.rngs[tick][device + 1] == trace.rngs[tick][device]
        }
    }

    /// The generator that the first `ticks` instants of a run leave behind:
    /// the one after the last turn, or that of the simulation where there was
    /// no instant.
    pub open spec fn rng_left(&self, trace: Trace<MsrIn, Msr, D>, ticks: int) -> rand::rngs::StdRng {
        if ticks <= 0 {
            self.rng
        } else {
            trace.rngs[ticks - 1][self.devices@.len() as int]
        }
    }

    /// Whether the first `ticks` instants of a run went as `trace` says: the
    /// devices started as those of the simulation, there is an answer and a
    /// stage for every device at every instant, the generator starts each
    /// instant as the instant before left it, the states are states of the
    /// trajectory at the instants, and every turn went as `trace` says.
    pub open spec fn traced(&self, trace: Trace<MsrIn, Msr, D>, ticks: int) -> bool {
        &&& trace.states.len() == ticks
        &&& trace.answers.len() == ticks
        &&& trace.stages.len() == ticks + 1
        &&& trace.rngs.len() == ticks
        &&& trace.stages[0] == Self::values(self.devices@)
        &&& forall|t: int|
            0 <= t < ticks ==> (#[trigger] trace.rngs[t]).len() == self.devices@.len() + 1
                && trace.rngs[t][0] == self.rng_left(trace, t)
        &&& forall|t: int|
            0 <= t < ticks ==> (#[trigger] trace.answers[t]).len() == self.devices@.len()
        &&& forall|t: int|
            0 <= t <= ticks ==> (#[trigger] trace.stages[t]).len() == self.devices@.len()
        &&& forall|t: int|
            0 <= t < ticks ==> self.trajectory.has_state(self.epochs()[t], #[trigger] trace.states[t])
        &&& forall|t: int, d: int|
            0 <= t < ticks && 0 <= d < self.devices@.len() ==> #[trigger] self.turned(trace, t, d)
    }

    /// Whether `measurements` are what the simulation takes in the run that
    /// `trace` describes: the measurements are those of the run in which
    /// the devices see the spacecraft where they have an answer, and the
    /// whole run went as `trace` says.
    pub open spec fn simulated(
        &self,
        measurements: Seq<(String, Msr, Epoch)>,
        trace: Trace<MsrIn, Msr, D>,
    ) -> bool {
        &&& self.records(
            measurements,
            self.plan().run(Self::sights(trace.answers), self.epochs().len() as int).taken,
            trace.answers,
        )
        &&& self.traced(trace, self.epochs().len() as int)
    }

    /// Whether `measurements` are what the simulation takes in one run or
    /// another that leaves `devices` and the generator `rng` behind.
    pub open spec fn takes(
        &self,
        measurements: Seq<(String, Msr, Epoch)>,
        devices: Seq<(String, D)>,
        rng: rand::rngs::StdRng,
    ) -> bool {
        exists|trace: Trace<MsrIn, Msr, D>| #[trigger]
            self.simulated(measurements, trace) && trace.stages.last() == Self::values(devices)
                && self.rng_left(trace, self.epochs().len() as int) == rng
    }

    /// Whether a device can answer `msr` when it is asked for a measurement
    /// of a state that the trajectory has at `epoch`.
    pub open spec fn can_answer(&self, epoch: Epoch, msr: Option<Msr>) -> bool {
        exists|
            state: MsrIn,
            before: D,
            after: D,
            rng: rand::rngs::StdRng,
            left: rand::rngs::StdRng,
        |
            self.trajectory.has_state(epoch, state) && #[trigger] before.measured(
                state,
                rng,
                msr,
                after,
                left,
            )
    }

    /// Whether the trajectory has a state at the instant at place `k`.
    pub open spec fn has_state_at(&self, k: int) -> bool {
        exists|state: MsrIn| #[trigger] self.trajectory.has_state(self.epochs()[k], state)
    }

    /// Whether `e` is an error that the trajectory can have at one of the
    /// instants of the simulation, while it has a state at every instant
    /// before.
    pub open spec fn stops_with(&self, e: NyxError) -> bool {
        exists|k: int|
            0 <= k < self.epochs().len() && self.trajectory.fails_with(
                #[trigger] self.epochs()[k],
                e,
            ) && forall|j: int| 0 <= j < k ==> #[trigger] self.has_state_at(j)
    }

    /// Whether `other` is this simulation but for the devices and the
    /// random number generator, with every device under its name.
    pub open spec fn same_but_devices(&self, other: &Self) -> bool {
        &&& other.trajectory == self.trajectory
        &&& other.configs == self.configs
        &&& other.handoff == self.handoff
        &&& other.time_series == self.time_series
        &&& Self::names(other.devices@) == Self::names(self.devices@)
    }

    /// A simulation that can run has a well-formed plan.
    pub proof fn lemma_plan_wf(&self)
        requires
            self.wf(),
        ensures
            self.plan().wf(),
            self.plan().configs.len() == self.devices@.len(),
    {
        let plan = self.plan();
        assert forall|d: int| 0 <= d < plan.configs.len() implies (#[trigger] plan.configs[d]).wf()
            && !plan.configs[d].contradictory() by {
            let name = Self::names(self.devices@)[d];
            assert(fault(self.configs@, name).is_none());
            lemma_lookup_is_entry(self.configs@, name);
        }
    }

    /// Whatever the devices answer, the measurements of an arc come in the
    /// order of time, and those of one device lie at least its sampling
    /// apart, so that their instants strictly increase. Where the first
    /// configured device wins, no two measurements share an instant.
    pub proof fn lemma_arc_in_order(
        &self,
        measurements: Seq<(String, Msr, Epoch)>,
        trace: Trace<MsrIn, Msr, D>,
        i: int,
        j: int,
    )
        requires
            self.wf(),
            self.simulated(measurements, trace),
            0 <= i < j < measurements.len(),
        ensures
            !measurements[j].2.spec_lt(measurements[i].2),
            self.handoff == Handoff::FirstConfigured ==> measurements[i].2.spec_lt(
                measurements[j].2,
            ),
            measurements[i].0@ == measurements[j].0@ ==> measurements[i].2.spec_lt(
                measurements[j].2,
            ) && measurements[j].2.total() - measurements[i].2.total() >= lookup(
                self.configs@,
                measurements[i].0@,
            ).unwrap().sampling.total(),
    {
        let visible = Self::sights(trace.answers);
        let plan = self.plan();
        let taken = plan.run(visible, plan.epochs.len() as int).taken;
        let names = Self::names(self.devices@);
        self.lemma_plan_wf();
        lemma_run_orderly(plan, visible, plan.epochs.len() as int);
        let (a, b) = (taken[i], taken[j]);
        assert(plan.placed(a, plan.epochs.len() as int, 0));
        assert(plan.placed(b, plan.epochs.len() as int, 0));
        assert(plan.in_order(a, b));
        let (early, late) = (plan.epochs[a.0], plan.epochs[b.0]);
        assert(measurements[i].2 == early && measurements[j].2 == late);
        assert(early.wf() && late.wf());
        lemma_order_is_total_order(
            early.duration_since_j1900_tai,
            late.duration_since_j1900_tai,
        );
        lemma_order_is_total_order(
            late.duration_since_j1900_tai,
            early.duration_since_j1900_tai,
        );
        if a.0 < b.0 {
            assert(late.total() - early.total() > 0);
        }
        if measurements[i].0@ == measurements[j].0@ {
            assert(names[a.1] == names[b.1]);
            assert(a.1 == b.1);
            assert(plan.configs[a.1] == lookup(self.configs@, names[a.1]).unwrap());
            assert(!plan.configs[a.1].contradictory());
        }
    }

    /// Whatever the devices answer, each measurement of an arc carries the
    /// name of a device of the simulation and an instant of the simulation
    /// at which that device is available, and is what a device can answer
    /// for the state of the trajectory at that instant.
    pub proof fn lemma_arc_entries(
        &self,
        measurements: Seq<(String, Msr, Epoch)>,
        trace: Trace<MsrIn, Msr, D>,
        i: int,
    )
        requires
            self.wf(),
            self.simulated(measurements, trace),
            0 <= i < measurements.len(),
        ensures
            Self::names(self.devices@).contains(measurements[i].0@),
            self.epochs().contains(measurements[i].2),
            lookup(self.configs@, measurements[i].0@).unwrap().in_window(measurements[i].2),
            self.can_answer(measurements[i].2, Some(measurements[i].1)),
    {
        let visible = Self::sights(trace.answers);
        let plan = self.plan();
        let total = plan.epochs.len() as int;
        let taken = plan.run(visible, total).taken;
        let names = Self::names(self.devices@);
        self.lemma_plan_wf();
        let (t, d) = taken[i];
        lemma_taken_was_polled(plan, visible, total, i);
        assert(names[d] == measurements[i].0@);
        assert(plan.epochs[t] == measurements[i].2);
        assert(plan.polls(plan.before_turn(visible, t, d), t, d));
        assert(self.turned(trace, t, d));
        assert(self.trajectory.has_state(self.epochs()[t], trace.states[t]));
        assert(trace.stages[t][d].measured(
            trace.states[t],
            trace.rngs[t][d],
            Some(measurements[i].1),
            trace.stages[t + 1][d],
            trace.rngs[t][d + 1],
        ));
    }

    /// Two arcs of the same simulation for which the devices gave the same
    /// answers are the same: the same devices with the same measurements at
    /// the same instants, in the same order.
    pub proof fn lemma_same_answers_same_arc(
        &self,
        first: Seq<(String, Msr, Epoch)>,
        second: Seq<(String, Msr, Epoch)>,
        one: Trace<MsrIn, Msr, D>,
        other: Trace<MsrIn, Msr, D>,
        i: int,
    )
        requires
            self.simulated(first, one),
            self.simulated(second, other),
            one.answers == other.answers,
            0 <= i < first.len(),
        ensures
            first.len() == second.len(),
            first[i].0@ == second[i].0@,
            first[i].1 == second[i].1,
            first[i].2 == second[i].2,
    {
    }

    /// Whether the trajectory has one state at most at each instant.
    pub open spec fn one_state_at_each_instant(&self) -> bool {
        self.trajectory.one_state_at_each_instant()
    }

    /// Whether a device has one answer at most for a state and a generator,
    /// and one way to leave itself and the generator.
    pub open spec fn one_answer_to_each_question() -> bool {
        forall|
            device: D,
            state: MsrIn,
            rng: rand::rngs::StdRng,
            m1: Option<Msr>,
            a1: D,
            l1: rand::rngs::StdRng,
            m2: Option<Msr>,
            a2: D,
            l2: rand::rngs::StdRng,
        |
            #[trigger] device.measured(state, rng, m1, a1, l1) && #[trigger] device.measured(
                state,
                rng,
                m2,
                a2,
                l2,
            ) ==> m1 == m2 && a1 == a2 && l1 == l2
    }

    /// Whether two traces agree on the instant at place `tick` up to the turn
    /// of the device at place `device`: on the progress and the generator
    /// before that turn, on the devices that have had their turn, and on the
    /// answers of those that were polled.
    pub open spec fn agree_before_turn(
        &self,
        one: Trace<MsrIn, Msr, D>,
        other: Trace<MsrIn, Msr, D>,
        tick: int,
        device: int,
    ) -> bool {
        let plan = self.plan();
        let seen = Self::sights(one.answers);
        &&& plan.before_turn(seen, tick, device) == plan.before_turn(
            Self::sights(other.answers),
            tick,
            device,
        )
        &&& one.rngs[tick][device] == other.rngs[tick][device]
        &&& forall|e: int|
            0 <= e < device ==> (#[trigger] one.stages[tick + 1][e]) == other.stages[tick + 1][e]
        &&& forall|e: int|
            0 <= e < device && #[trigger] plan.polls(plan.before_turn(seen, tick, e), tick, e)
                ==> one.answers[tick][e] == other.answers[tick][e]
    }

    /// Whether two traces agree on the first `ticks` instants: on the
    /// progress, the devices and the generator after them, and on the answers
    /// of the devices that were polled.
    pub open spec fn agree_before_tick(
        &self,
        one: Trace<MsrIn, Msr, D>,
        other: Trace<MsrIn, Msr, D>,
        ticks: int,
    ) -> bool {
        let plan = self.plan();
        let seen = Self::sights(one.answers);
        &&& plan.run(seen, ticks) == plan.run(Self::sights(other.answers), ticks)
        &&& one.stages[ticks] == other.stages[ticks]
        &&& self.rng_left(one, ticks) == self.rng_left(other, ticks)
        &&& forall|t: int, e: int|
            0 <= t < ticks && 0 <= e < self.devices@.len() && #[trigger] plan.polls(
                plan.before_turn(seen, t, e),
                t,
                e,
            ) ==> one.answers[t][e] == other.answers[t][e]
    }

    /// Two traces of runs that agree before an instant agree before each
    /// turn of that instant, where states and answers are single-valued.
    proof fn lemma_turns_agree(
        &self,
        one: Trace<MsrIn, Msr, D>,
        other: Trace<MsrIn, Msr, D>,
        ticks: int,
        tick: int,
        device: int,
    )
        requires
            self.traced(one, ticks),
            self.traced(other, ticks),
            self.one_state_at_each_instant(),
            Self::one_answer_to_each_question(),
            0 <= tick < ticks,
            0 <= device <= self.devices@.len(),
            self.agree_before_tick(one, other, tick),
        ensures
            self.agree_before_turn(one, other, tick, device),
        decreases device,
    {
        let plan = self.plan();
        let v1 = Self::sights(one.answers);
        let v2 = Self::sights(other.answers);
        assert(one.rngs[tick].len() == self.devices@.len() + 1);
        assert(other.rngs[tick].len() == self.devices@.len() + 1);
        if device > 0 {
            let d = device - 1;
            self.lemma_turns_agree(one, other, ticks, tick, d);
            let p = plan.before_turn(v1, tick, d);
            assert(p == plan.before_turn(v2, tick, d));
            assert(one.answers[tick].len() == self.devices@.len());
            assert(other.answers[tick].len() == self.devices@.len());
            assert(v1[tick][d] == one.answers[tick][d].is_some());
            assert(v2[tick][d] == other.answers[tick][d].is_some());
            assert(plan.before_turn(v1, tick, device) == plan.turn(p, tick, d, v1[tick][d]));
            assert(plan.before_turn(v2, tick, device) == plan.turn(p, tick, d, v2[tick][d]));
            assert(self.turned(one, tick, d));
            assert(self.turned(other, tick, d));
            assert(one.stages[tick][d] == other.stages[tick][d]);
            assert(self.trajectory.has_state(self.epochs()[tick], one.states[tick]));
            assert(self.trajectory.has_state(self.epochs()[tick], other.states[tick]));
            assert(one.states[tick] == other.states[tick]);
            if plan.polls(p, tick, d) {
                assert(one.stages[tick][d].measured(
                    one.states[tick],
                    one.rngs[tick][d],
                    one.answers[tick][d],
                    one.stages[tick + 1][d],
                    one.rngs[tick][d + 1],
                ));
                assert(one.stages[tick][d].measured(
                    one.states[tick],
                    one.rngs[tick][d],
                    other.answers[tick][d],
                    other.stages[tick + 1][d],
                    other.rngs[tick][d + 1],
                ));
            }
            assert forall|e: int| 0 <= e < device implies (#[trigger] one.stages[tick + 1][e])
                == other.stages[tick + 1][e] by {}
            assert forall|e: int|
                0 <= e < device && #[trigger] plan.polls(
                    plan.before_turn(v1, tick, e),
                    tick,
                    e,
                ) implies one.answers[tick][e] == other.answers[tick][e] by {}
        } else {
            assert(plan.before_turn(v1, tick, 0) == plan.run(v1, tick));
            assert(plan.before_turn(v2, tick, 0) == plan.run(v2, tick));
            assert(one.rngs[tick][0] == self.rng_left(one, tick));
            assert(other.rngs[tick][0] == self.rng_left(other, tick));
        }
    }

    /// Two traces of runs of the same simulation agree before each instant,
    /// where states and answers are single-valued.
    proof fn lemma_ticks_agree(
        &self,
        one: Trace<MsrIn, Msr, D>,
        other: Trace<MsrIn, Msr, D>,
        ticks: int,
        tick: int,
    )
        requires
            self.traced(one, ticks),
            self.traced(other, ticks),
            self.one_state_at_each_instant(),
            Self::one_answer_to_each_question(),
            0 <= tick <= ticks,
        ensures
            self.agree_before_tick(one, other, tick),
        decreases tick,
    {
        let plan = self.plan();
        let v1 = Self::sights(one.answers);
        let v2 = Self::sights(other.answers);
        let n = self.devices@.len() as int;
        if tick > 0 {
            let t = tick - 1;
            self.lemma_ticks_agree(one, other, ticks, t);
            self.lemma_turns_agree(one, other, ticks, t, n);
            assert(plan.configs.len() == n);
            assert(plan.run(v1, tick) == plan.before_turn(v1, t, n));
            assert(plan.run(v2, tick) == plan.before_turn(v2, t, n));
            assert(one.stages[tick].len() == n && other.stages[tick].len() == n);
            assert forall|e: int| 0 <= e < n implies one.stages[tick][e] == other.stages[tick][e] by {
                assert(one.stages[t + 1][e] == other.stages[t + 1][e]);
            }
            assert(one.stages[tick] =~= other.stages[tick]);
            assert forall|j: int, e: int|
                0 <= j < tick && 0 <= e < n && #[trigger] plan.polls(
                    plan.before_turn(v1, j, e),
                    j,
                    e,
                ) implies one.answers[j][e] == other.answers[j][e] by {
                if j == t {
                    assert(self.agree_before_turn(one, other, t, n));
                }
            }
        }
    }

    /// Two runs of the same simulation give the same arc and leave the same
    /// devices and the same generator behind, where the trajectory has one
    /// state at each instant and a device one answer to each question: the
    /// generator, which the seed decides, is the only source of chance.
    pub proof fn lemma_same_simulation_same_arc(
        &self,
        first: Seq<(String, Msr, Epoch)>,
        second: Seq<(String, Msr, Epoch)>,
        one: Trace<MsrIn, Msr, D>,
        other: Trace<MsrIn, Msr, D>,
    )
        requires
            self.wf(),
            self.simulated(first, one),
            self.simulated(second, other),
            self.one_state_at_each_instant(),
            Self::one_answer_to_each_question(),
        ensures
            first.len() == second.len(),
            forall|i: int|
                0 <= i < first.len() ==> (#[trigger] first[i]).0@ == second[i].0@ && first[i].1
                    == second[i].1 && first[i].2 == second[i].2,
            one.stages.last() == other.stages.last(),
            self.rng_left(one, self.epochs().len() as int) == self.rng_left(
                other,
                self.epochs().len() as int,
            ),
    {
        let plan = self.plan();
        let total = self.epochs().len() as int;
        let v1 = Self::sights(one.answers);
        let v2 = Self::sights(other.answers);
        self.lemma_plan_wf();
        self.lemma_ticks_agree(one, other, total, total);
        let taken = plan.run(v1, total).taken;
        assert(taken == plan.run(v2, total).taken);
        assert forall|i: int| 0 <= i < first.len() implies (#[trigger] first[i]).0@ == second[i].0@
            && first[i].1 == second[i].1 && first[i].2 == second[i].2 by {
            let (t, d) = taken[i];
            lemma_taken_was_polled(plan, v1, total, i);
            assert(plan.placed(taken[i], total, 0));
            assert(plan.polls(plan.before_turn(v1, t, d), t, d));
            assert(one.answers[t][d] == other.answers[t][d]);
            assert(one.answers[t][d] == Some(first[i].1));
            assert(other.answers[t][d] == Some(second[i].1));
        }
    }

    /// Whether `other` is a simulation of the same devices under the same
    /// names, with the same configurations, along the same trajectory, at the
    /// same instants and with the same generator.
    pub open spec fn alike(&self, other: &Self) -> bool {
        &&& Self::entries(other.devices@) == Self::entries(self.devices@)
        &&& other.trajectory == self.trajectory
        &&& other.configs@ == self.configs@
        &&& other.handoff == self.handoff
        &&& other.epochs() == self.epochs()
        &&& other.rng == self.rng
    }

    /// Whether a device has one name at most.
    pub open spec fn one_name_for_each_device() -> bool {
        forall|device: D, a: Seq<char>, b: Seq<char>|
            #[trigger] device.named(a) && #[trigger] device.named(b) ==> a == b
    }

    /// What is simulated by one of two simulations that are alike is
    /// simulated by the other.
    pub proof fn lemma_alike_simulate_alike(
        &self,
        other: &Self,
        measurements: Seq<(String, Msr, Epoch)>,
        trace: Trace<MsrIn, Msr, D>,
    )
        requires
            self.alike(other),
            other.simulated(measurements, trace),
        ensures
            self.simulated(measurements, trace),
            self.plan() == other.plan(),
            self.rng_left(trace, self.epochs().len() as int) == other.rng_left(
                trace,
                other.epochs().len() as int,
            ),
    {
        let mine = Self::entries(self.devices@);
        let theirs = Self::entries(other.devices@);
        assert(self.devices@.len() == other.devices@.len()) by {
            assert(mine.len() == theirs.len());
        }
        assert forall|d: int| 0 <= d < self.devices@.len() implies self.devices@[d].0@
            == other.devices@[d].0@ && self.devices@[d].1 == other.devices@[d].1 by {
            assert(mine[d] == theirs[d]);
        }
        assert(Self::names(self.devices@) =~= Self::names(other.devices@));
        assert(Self::values(self.devices@) =~= Self::values(other.devices@));
        let ticks = self.epochs().len() as int;
        assert forall|t: int, d: int|
            0 <= t < ticks && 0 <= d < self.devices@.len() implies #[trigger] self.turned(
            trace,
            t,
            d,
        ) by {
            assert(other.turned(trace, t, d));
        }
        assert forall|t: int| 0 <= t < ticks implies (#[trigger] trace.rngs[t]).len()
            == self.devices@.len() + 1 && trace.rngs[t][0] == self.rng_left(trace, t) by {
            assert(trace.rngs[t][0] == other.rng_left(trace, t));
        }
    }

    /// Two simulations made of the same devices, trajectory, configurations
    /// and generator are alike, where a device has one name.
    pub proof fn lemma_built_alike(
        one: Self,
        other: Self,
        names: Seq<Seq<char>>,
        others: Seq<Seq<char>>,
        devices: Seq<D>,
        trajectory: Traj<MsrIn>,
        configs: Vec<(String, TrkConfig)>,
        rng: rand::rngs::StdRng,
    )
        requires
            Self::built(names, devices, trajectory, configs, rng, Ok(one)),
            Self::built(others, devices, trajectory, configs, rng, Ok(other)),
            Self::one_name_for_each_device(),
        ensures
            one.alike(&other),
    {
        assert forall|i: int| 0 <= i < names.len() implies names[i] == others[i] by {
            assert(devices[i].named(names[i]));
            assert(devices[i].named(others[i]));
        }
        assert(names =~= others);
    }

    /// Two simulations that are alike give the same arc and leave the same
    /// devices and the same generator behind, where the trajectory has one
    /// state at each instant and a device one answer to each question. So
    /// two simulations made with the same seed of the same devices,
    /// trajectory and configurations give the same arc.
    pub proof fn lemma_alike_same_arc(
        &self,
        other: &Self,
        first: Seq<(String, Msr, Epoch)>,
        second: Seq<(String, Msr, Epoch)>,
        one: Trace<MsrIn, Msr, D>,
        two: Trace<MsrIn, Msr, D>,
    )
        requires
            self.wf(),
            self.alike(other),
            self.simulated(first, one),
            other.simulated(second, two),
            self.one_state_at_each_instant(),
            Self::one_answer_to_each_question(),
        ensures
            first.len() == second.len(),
            forall|i: int|
                0 <= i < first.len() ==> (#[trigger] first[i]).0@ == second[i].0@ && first[i].1
                    == second[i].1 && first[i].2 == second[i].2,
            one.stages.last() == two.stages.last(),
            self.rng_left(one, self.epochs().len() as int) == other.rng_left(
                two,
                other.epochs().len() as int,
            ),
    {
        self.lemma_alike_simulate_alike(other, second, two);
        self.lemma_same_simulation_same_arc(first, second, one, two);
    }

    /// Gives each device its turn at one instant.
    fn poll_devices(
        &mut self,
        epoch: Epoch,
        state: &MsrIn,
        sched: &mut Vec<Option<SchedData>>,
        measurements: &mut Vec<(String, Msr, Epoch)>,
        Ghost(tick): Ghost<int>,
        Ghost(base): Ghost<Progress>,
        Ghost(answers): Ghost<Seq<Seq<Option<Msr>>>>,
    ) -> (said: Ghost<(Seq<Option<Msr>>, Seq<rand::rngs::StdRng>)>)
        requires
            old(self).wf(),
            0 <= tick < old(self).epochs().len(),
            answers.len() == tick,
            epoch == old(self).epochs()[tick],
            old(self).plan().orderly(base, tick, 0),
            old(sched)@ == base.sched,
            old(self).records(old(measurements)@, base.taken, answers),
        ensures
            old(self).same_but_devices(final(self)),
            said@.0.len() == old(self).devices@.len(),
            said@.1.len() == old(self).devices@.len() + 1,
            said@.1[0] == old(self).rng,
            said@.1[old(self).devices@.len() as int] == final(self).rng,
            ({
                let plan = old(self).plan();
                let row = Self::sights_at(said@.0);
                let after = plan.run_tick(base, tick, row, old(self).devices@.len() as int);
                &&& final(sched)@ == after.sched
                &&& old(self).records(final(measurements)@, after.taken, answers.push(said@.0))
                &&& plan.orderly(after, tick, old(self).devices@.len() as int)
                &&& forall|d: int|
                    0 <= d < old(self).devices@.len() ==> if #[trigger] plan.polls(
                        plan.run_tick(base, tick, row, d),
                        tick,
                        d,
                    ) {
                        old(self).devices@[d].1.measured(
                            *state,
                            said@.1[d],
                            said@.0[d],
                            final(self).devices@[d].1,
                            said@.1[d + 1],
                        )
                    } else {
                        final(self).devices@[d].1 == old(self).devices@[d].1 && said@.1[d + 1]
                            == said@.1[d]
                    }
            }),
    {
        let ghost before = *self;
        let ghost plan = self.plan();
        let ghost epochs = self.epochs();
        let n = self.devices.len();
        let ghost mut p = base;
        let ghost mut said: Seq<Option<Msr>> = Seq::empty();
        let ghost mut drawn: Seq<rand::rngs::StdRng> = seq![self.rng];
        let mut taken_now = false;
        let mut d: usize = 0;
        proof {
            self.lemma_plan_wf();
            if p.taken.len() > 0 {
                assert(plan.placed(p.taken.last(), tick, 0));
            }
            assert forall|m: int| 0 <= m < p.taken.len() implies (#[trigger] answers.push(
                said,
            )[p.taken[m].0]) == answers[p.taken[m].0] by {
                assert(plan.placed(p.taken[m], tick, 0));
            }
        }
        while d < n
            invariant
                before.wf(),
                plan == before.plan(),
                epochs == before.epochs(),
                plan.wf(),
                n == before.devices@.len(),
                n == self.devices@.len(),
                n == plan.configs.len(),
                before.same_but_devices(self),
                0 <= tick < epochs.len(),
                answers.len() == tick,
                epoch == epochs[tick],
                0 <= d <= n,
                said.len() == d,
                p == plan.run_tick(base, tick, Self::sights_at(said), d as int),
                plan.orderly(p, tick, d as int),
                taken_now == (p.taken.len() > 0 && p.taken.last().0 == tick),
                sched@ == p.sched,
                before.records(measurements@, p.taken, answers.push(said)),
                drawn.len() == d + 1,
                drawn[0] == before.rng,
                drawn[d as int] == self.rng,
                forall|e: int|
                    0 <= e < d ==> if #[trigger] plan.polls(
                        plan.run_tick(base, tick, Self::sights_at(said), e),
                        tick,
                        e,
                    ) {
                        before.devices@[e].1.measured(
                            *state,
                            drawn[e],
                            said[e],
                            self.devices@[e].1,
                            drawn[e + 1],
                        )
                    } else {
                        self.devices@[e].1 == before.devices@[e].1 && drawn[e + 1] == drawn[e]
                    },
                forall|e: int| d <= e < n ==> (#[trigger] self.devices@[e]).1 == before.devices@[e].1,
            decreases n - d,
        {
            let name = self.devices[d].0.clone();
            let found = find_config(&self.configs, &name);
            let ghost mut answer: Option<Msr> = None;
            proof {
                assert(Self::names(self.devices@)[d as int] == Self::names(before.devices@)[d as int]);
                assert(name@ == Self::names(before.devices@)[d as int]);
                assert(fault(before.configs@, Self::names(before.devices@)[d as int]).is_none());
                assert(found == Some(plan.configs[d as int]));
                assert(plan.configs[d as int].wf());
                assert(plan.record_fits(p.sched[d as int], d as int, p.taken, tick));
                assert(epoch.wf());
            }
            let ghost recorded = measurements@;
            let ghost devices_before = self.devices@;
            let ghost rng_before = self.rng;
            if let Some(cfg) = found {
                let open = !(taken_now && self.handoff == Handoff::FirstConfigured);
                if open && cfg.expires(&sched[d], epoch) {
                    // The pass has lasted its time on: the device rests from now on.
                    if let Some(record) = sched[d] {
                        sched[d] = Some(record.closed(epoch));
                    }
                } else if open && cfg.allows(&sched[d], epoch) {
                    let msr = self.devices[d].1.measure(state, &mut self.rng);
                    proof {
                        assert(Self::names(self.devices@) =~= Self::names(devices_before));
                        assert(devices_before[d as int].1.measured(
                            *state,
                            rng_before,
                            msr,
                            self.devices@[d as int].1,
                            self.rng,
                        ));
                        answer = msr;
                    }
                    match msr {
                        Some(msr) => {
                            let updated = SchedData::polled(sched[d], epoch, true);
                            sched[d] = updated;
                            measurements.push((name, msr, epoch));
                            taken_now = true;
                        },
                        None => {
                            let updated = SchedData::polled(sched[d], epoch, false);
                            sched[d] = updated;
                        },
                    }
                }
            }
            proof {
                let longer = said.push(answer);
                let row = Self::sights_at(said);
                let wider = Self::sights_at(longer);
                assert(wider[d as int] == answer.is_some());
                assert forall|e: int| 0 <= e <= d implies #[trigger] plan.run_tick(
                    base,
                    tick,
                    wider,
                    e,
                ) == plan.run_tick(base, tick, row, e) by {
                    lemma_run_tick_agrees(plan, base, tick, row, wider, e);
                }
                lemma_turn_orderly(plan, p, tick, d as int, answer.is_some());
                let q = plan.turn(p, tick, d as int, answer.is_some());
                assert(plan.run_tick(base, tick, wider, d as int) == p);
                assert(plan.run_tick(base, tick, wider, d as int + 1) == plan.turn(
                    plan.run_tick(base, tick, wider, d as int),
                    tick,
                    d as int,
                    wider[d as int],
                ));
                assert(sched@ =~= q.sched);
                // What was recorded is still recorded, and the new measurement with it.
                assert forall|m: int| 0 <= m < q.taken.len() implies {
                    &&& (#[trigger] measurements@[m]).0@ == Self::names(before.devices@)[q.taken[m].1]
                    &&& measurements@[m].2 == epochs[q.taken[m].0]
                    &&& answers.push(longer)[q.taken[m].0][q.taken[m].1] == Some(measurements@[m].1)
                } by {
                    if m < p.taken.len() {
                        assert(measurements@[m] == recorded[m]);
                        assert(q.taken[m] == p.taken[m]);
                        assert(plan.placed(p.taken[m], tick, d as int));
                        assert(answers.push(said)[p.taken[m].0][p.taken[m].1] == Some(
                            recorded[m].1,
                        ));
                        if p.taken[m].0 < tick {
                            assert(answers.push(longer)[p.taken[m].0] == answers.push(
                                said,
                            )[p.taken[m].0]);
                        }
                    }
                }
                // The devices before this one are as they were after their turns.
                let more = drawn.push(self.rng);
                assert forall|e: int| 0 <= e < d + 1 implies if #[trigger] plan.polls(
                    plan.run_tick(base, tick, wider, e),
                    tick,
                    e,
                ) {
                    before.devices@[e].1.measured(
                        *state,
                        more[e],
                        longer[e],
                        self.devices@[e].1,
                        more[e + 1],
                    )
                } else {
                    self.devices@[e].1 == before.devices@[e].1 && more[e + 1] == more[e]
                } by {
                    if e < d {
                        assert(self.devices@[e] == devices_before[e]);
                        assert(longer[e] == said[e]);
                        assert(more[e] == drawn[e] && more[e + 1] == drawn[e + 1]);
                        assert(plan.polls(plan.run_tick(base, tick, row, e), tick, e)
                            == plan.polls(plan.run_tick(base, tick, wider, e), tick, e));
                    } else {
                        assert(devices_before[d as int].1 == before.devices@[d as int].1);
                        assert(more[d as int] == rng_before);
                    }
                }
                drawn = more;
                assert forall|e: int| d + 1 <= e < n implies (#[trigger] self.devices@[e]).1
                    == before.devices@[e].1 by {
                    assert(self.devices@[e] == devices_before[e]);
                }
                p = q;
                said = longer;
            }
            d = d + 1;
        }
        Ghost((said, drawn))
    }

    /// Polls the devices at every instant of the simulation and returns the
    /// measurements that they take, in the order in which they are taken.
    ///
    /// At each instant the state of the trajectory is handed to the devices
    /// in their order. A device is polled if its configuration and its
    /// record allow it and the instant is not closed; what it measures is
    /// recorded with its name and the instant. The arc is therefore the one
    /// that `Plan::run` describes for what the devices answered, and there
    /// is a trace of the run that says of each turn what the device was
    /// asked, what it answered and what it became. The simulation stops with
    /// the error of the trajectory at the first instant at which the
    /// trajectory has no state; it cannot stop where each instant is that of
    /// a sample. `device_cfg` is the description of the devices that the arc
    /// is to carry.
    pub fn generate_measurements(&mut self, device_cfg: String) -> (r: Result<
        TrackingArc<Msr>,
        NyxError,
    >)
        requires
            old(self).wf(),
        ensures
            final(self).wf(),
            old(self).same_but_devices(final(self)),
            match r {
                Ok(arc) => arc.device_cfg == device_cfg && old(self).takes(
                    arc.measurements@,
                    final(self).devices@,
                    final(self).rng,
                ),
                Err(e) => old(self).stops_with(e),
            },
            (forall|k: int|
                0 <= k < old(self).epochs().len() ==> old(self).trajectory.has_sample_at(
                    #[trigger] old(self).epochs()[k],
                )) ==> r.is_ok(),
    {
        let ghost before = *self;
        let ghost plan = self.plan();
        let ghost epochs = self.epochs();
        let n = self.devices.len();
        let mut sched: Vec<Option<SchedData>> = Vec::new();
        while sched.len() < n
            invariant
                sched@.len() <= n,
                forall|d: int| 0 <= d < sched@.len() ==> (#[trigger] sched@[d]).is_none(),
            decreases n - sched@.len(),
        {
            sched.push(None);
        }
        let mut measurements: Vec<(String, Msr, Epoch)> = Vec::new();
        let mut series = time_series_clone(&self.time_series);
        let ghost mut trace: Trace<MsrIn, Msr, D> = Trace {
            states: Seq::empty(),
            answers: Seq::empty(),
            stages: seq![Self::values(self.devices@)],
            rngs: Seq::empty(),
        };
        let ghost mut tick: int = 0;
        let ghost mut p: Progress = plan.start();
        proof {
            self.lemma_plan_wf();
            assert(sched@ =~= p.sched);
            lemma_run_orderly(plan, Self::sights(trace.answers), 0);
            assert(epochs.skip(0) =~= epochs);
            if epochs.len() > 0 {
                assert(epochs.skip(0).skip(1) =~= epochs.skip(1));
            }
        }
        let mut next = time_series_next(&mut series);
        while next.is_some()
            invariant
                before == *old(self),
                before.wf(),
                self.wf(),
                plan == before.plan(),
                plan == self.plan(),
                epochs == before.epochs(),
                before.same_but_devices(self),
                n == before.devices@.len(),
                n == self.devices@.len(),
                n == plan.configs.len(),
                0 <= tick <= epochs.len(),
                series_ends(series),
                match next {
                    Some(e) => tick < epochs.len() && e == epochs[tick] && remaining_epochs(series)
                        == epochs.skip(tick + 1),
                    None => tick == epochs.len(),
                },
                p == plan.run(Self::sights(trace.answers), tick),
                plan.orderly(p, tick, 0),
                sched@ == p.sched,
                before.records(measurements@, p.taken, trace.answers),
                before.traced(trace, tick),
                trace.stages.last() == Self::values(self.devices@),
                before.rng_left(trace, tick) == self.rng,
            decreases epochs.len() - tick,
        {
            let epoch = next.unwrap();
            let state = match self.trajectory.at(epoch) {
                Ok(state) => state,
                Err(e) => {
                    proof {
                        assert(before.trajectory.fails_with(before.epochs()[tick], e));
                        assert forall|j: int| 0 <= j < tick implies #[trigger] before.has_state_at(
                            j,
                        ) by {
                            assert(before.trajectory.has_state(epochs[j], trace.states[j]));
                        }
                        assert(before.stops_with(e));
                    }
                    return Err(e);
                },
            };
            let ghost current = *self;
            let said = self.poll_devices(
                epoch,
                &state,
                &mut sched,
                &mut measurements,
                Ghost(tick),
                Ghost(p),
                Ghost(trace.answers),
            );
            proof {
                let longer = Trace {
                    states: trace.states.push(state),
                    answers: trace.answers.push(said@.0),
                    stages: trace.stages.push(Self::values(self.devices@)),
                    rngs: trace.rngs.push(said@.1),
                };
                let seen = Self::sights(trace.answers);
                let wider = Self::sights(longer.answers);
                assert forall|t: int| 0 <= t < tick implies #[trigger] wider[t] == seen[t] by {
                    assert(longer.answers[t] == trace.answers[t]);
                }
                assert(wider[tick] == Self::sights_at(said@.0));
                assert forall|t: int| 0 <= t <= tick implies #[trigger] plan.run(wider, t)
                    == plan.run(seen, t) by {
                    lemma_run_agrees(plan, seen, wider, t);
                }
                let q = plan.run_tick(p, tick, Self::sights_at(said@.0), n as int);
                assert(plan.run(wider, tick) == p);
                assert(plan.run(wider, tick + 1) == plan.run_tick(
                    plan.run(wider, tick),
                    tick,
                    wider[tick],
                    plan.configs.len() as int,
                ));
                assert(q == plan.run(wider, tick + 1));
                lemma_next_tick_orderly(plan, q, tick);
                // Names are kept, so what was recorded of the devices holds of them still.
                assert(before.records(measurements@, q.taken, longer.answers)) by {
                    assert(current.records(measurements@, q.taken, longer.answers));
                }
                assert(before.traced(longer, tick + 1)) by {
                    assert forall|t: int| 0 <= t < tick + 1 implies (
                    #[trigger] longer.answers[t]).len() == n by {
                        if t < tick {
                            assert(longer.answers[t] == trace.answers[t]);
                        }
                    }
                    assert forall|t: int| 0 <= t <= tick + 1 implies (
                    #[trigger] longer.stages[t]).len() == n by {
                        if t <= tick {
                            assert(longer.stages[t] == trace.stages[t]);
                        }
                    }
                    assert forall|t: int| 0 <= t < tick + 1 implies (
                    #[trigger] longer.rngs[t]).len() == n + 1 && longer.rngs[t][0]
                        == before.rng_left(longer, t) by {
                        if t < tick {
                            assert(longer.rngs[t] == trace.rngs[t]);
                            assert(trace.rngs[t][0] == before.rng_left(trace, t));
                            if t > 0 {
                                assert(longer.rngs[t - 1] == trace.rngs[t - 1]);
                            }
                        } else {
                            assert(longer.rngs[tick] == said@.1);
                            assert(said@.1[0] == current.rng);
                            if tick > 0 {
                                assert(longer.rngs[tick - 1] == trace.rngs[tick - 1]);
                            }
                        }
                    }
                    assert forall|t: int| 0 <= t < tick + 1 implies before.trajectory.has_state(
                        epochs[t],
                        #[trigger] longer.states[t],
                    ) by {
                        if t < tick {
                            assert(longer.states[t] == trace.states[t]);
                        }
                    }
                    assert forall|t: int, d: int|
                        0 <= t < tick + 1 && 0 <= d < n implies #[trigger] before.turned(
                        longer,
                        t,
                        d,
                    ) by {
                        if t < tick {
                            assert(before.turned(trace, t, d));
                            assert(plan.before_turn(wider, t, d) == plan.before_turn(seen, t, d));
                            assert(longer.answers[t] == trace.answers[t]);
                            assert(longer.states[t] == trace.states[t]);
                            assert(longer.stages[t] == trace.stages[t]);
                            assert(longer.stages[t + 1] == trace.stages[t + 1]);
                            assert(longer.rngs[t] == trace.rngs[t]);
                        } else {
                            assert(plan.before_turn(wider, t, d) == plan.run_tick(
                                p,
                                tick,
                                Self::sights_at(said@.0),
                                d,
                            ));
                            assert(longer.stages[tick] == Self::values(current.devices@));
                            assert(longer.stages[tick + 1] == Self::values(self.devices@));
                            assert(longer.rngs[tick] == said@.1);
                        }
                    }
                }
                p = q;
                trace = longer;
                assert(epochs.skip(tick + 1).len() == epochs.len() - tick - 1);
                if tick + 1 < epochs.len() {
                    assert(epochs.skip(tick + 1)[0] == epochs[tick + 1]);
                    assert(epochs.skip(tick + 1).skip(1) =~= epochs.skip(tick + 2));
                }
                tick = tick + 1;
            }
            next = time_series_next(&mut series);
        }
        let arc = TrackingArc { device_cfg, measurements };
        proof {
            assert(before.simulated(arc.measurements@, trace));
            assert(before.takes(arc.measurements@, self.devices@, self.rng));
        }
        Ok(arc)
    }
}

} // verus!
