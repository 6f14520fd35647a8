//! The bookkeeping of one device during a simulation, and the rules by
//! which it is polled.

use crate::od::simulator::{Availability, Handoff, Schedule, TrkConfig};
use crate::time::{epoch_sub, lemma_order_is_total_order, lemma_sub_exact, series_wf, Epoch};
use vstd::prelude::*;

verus! {

/// What the simulation remembers of a device that has measured at least
/// once.
#[derive(Clone, Copy, Debug, PartialEq, Eq, Structural)]
pub struct SchedData {
    /// When the pass that is under way began.
    pub start: Option<Epoch>,
    /// When the device measured last.
    pub prev: Option<Epoch>,
    /// When the last pass was closed, if no pass is under way: when the
    /// device lost the spacecraft, or when its time on was found to be over.
    pub end: Option<Epoch>,
}

/// The instant, if there is one, is well formed.
pub open spec fn opt_wf(e: Option<Epoch>) -> bool {
    match e {
        Some(e) => e.wf(),
        None => true,
    }
}

impl SchedData {
    /// The instants of the record are well formed.
    pub open spec fn wf(self) -> bool {
        opt_wf(self.start) && opt_wf(self.prev) && opt_wf(self.end)
    }

    /// The record of a device after it was polled at `epoch`, where
    /// `measured` says whether it measured. A measurement opens a pass unless
    /// one is under way, and becomes the last measurement. The first poll
    /// without a measurement closes the pass; later ones change nothing. A
    /// device that has never measured has no record.
    pub open spec fn spec_polled(
        sched: Option<SchedData>,
        epoch: Epoch,
        measured: bool,
    ) -> Option<SchedData> {
        match sched {
            None => if measured {
                Some(SchedData { start: Some(epoch), prev: Some(epoch), end: None })
            } else {
                None
            },
            Some(record) => if measured {
                Some(
                    SchedData {
                        start: if record.start.is_none() {
                            Some(epoch)
                        } else {
                            record.start
                        },
                        prev: Some(epoch),
                        end: None,
                    },
                )
            } else if record.end.is_none() {
                Some(SchedData { start: None, prev: record.prev, end: Some(epoch) })
            } else {
                Some(record)
            },
        }
    }

    /// The record of a device whose pass is found at `epoch` to have lasted
    /// its time on: the pass is closed at `epoch`, and the last measurement
    /// stays.
    pub open spec fn spec_closed(self, epoch: Epoch) -> SchedData {
        SchedData { start: None, prev: self.prev, end: Some(epoch) }
    }

    /// The record of a device whose pass is closed at `epoch`.
    pub fn closed(&self, epoch: Epoch) -> (r: SchedData)
        ensures
            r == self.spec_closed(epoch),
    {
        SchedData { start: None, prev: self.prev, end: Some(epoch) }
    }

    /// The record of a device after it was polled at `epoch`.
    pub fn polled(sched: Option<SchedData>, epoch: Epoch, measured: bool) -> (r: Option<SchedData>)
        ensures
            r == Self::spec_polled(sched, epoch, measured),
    {
        match sched {
            None => if measured {
                Some(SchedData { start: Some(epoch), prev: Some(epoch), end: None })
            } else {
                None
            },
            Some(record) => if measured {
                let start = if record.start.is_none() {
                    Some(epoch)
                } else {
                    record.start
                };
                Some(SchedData { start, prev: Some(epoch), end: None })
            } else if record.end.is_none() {
                Some(SchedData { start: None, prev: record.prev, end: Some(epoch) })
            } else {
                Some(record)
            },
        }
    }
}

impl TrkConfig {
    /// Whether `epoch` lies within the availability of the device.
    pub open spec fn in_window(self, epoch: Epoch) -> bool {
        &&& match self.start {
            Availability::Epoch(start) => !epoch.spec_lt(start),
            Availability::Visible => true,
        }
        &&& match self.end {
            Availability::Epoch(end) => !end.spec_lt(epoch),
            Availability::Visible => true,
        }
    }

    /// Whether the last measurement of the device is at least one sampling
    /// span back at `epoch`.
    pub open spec fn due(self, record: SchedData, epoch: Epoch) -> bool {
        match record.prev {
            Some(prev) => !epoch.spec_sub(prev).spec_lt(self.sampling),
            None => true,
        }
    }

    /// Whether, on an intermittent schedule, the pass under way has lasted
    /// longer than the time on at `epoch`.
    pub open spec fn overtime(self, record: SchedData, epoch: Epoch) -> bool {
        match self.schedule {
            Schedule::Continuous => false,
            Schedule::Intermittent { on, off } => match record.start {
                Some(start) => on.spec_lt(epoch.spec_sub(start)),
                None => false,
            },
        }
    }

    /// Whether, on an intermittent schedule, the device has rested for longer
    /// than the time off at `epoch`, if it rests at all.
    pub open spec fn rested(self, record: SchedData, epoch: Epoch) -> bool {
        match self.schedule {
            Schedule::Continuous => true,
            Schedule::Intermittent { on, off } => match record.end {
                Some(end) => off.spec_lt(epoch.spec_sub(end)),
                None => true,
            },
        }
    }

    /// Whether the record of a device lets it be polled at `epoch`: the
    /// last measurement is at least one sampling span back and, on an
    /// intermittent schedule, the pass under way is no longer than `on` and
    /// the device has rested for more than `off`.
    pub open spec fn in_schedule(self, record: SchedData, epoch: Epoch) -> bool {
        self.due(record, epoch) && !self.overtime(record, epoch) && self.rested(record, epoch)
    }

    /// Whether a device with this configuration and this record is polled
    /// at `epoch`.
    pub open spec fn spec_allows(self, sched: Option<SchedData>, epoch: Epoch) -> bool {
        &&& self.in_window(epoch)
        &&& match sched {
            Some(record) => self.in_schedule(record, epoch),
            None => true,
        }
    }

    /// Whether the pass of a device with this configuration and this record
    /// is over at `epoch`: the device is available and due, and its pass has
    /// lasted longer than its time on. Such a device is not polled; its pass
    /// is closed, and it rests.
    pub open spec fn spec_expires(self, sched: Option<SchedData>, epoch: Epoch) -> bool {
        &&& self.in_window(epoch)
        &&& match sched {
            Some(record) => self.due(record, epoch) && self.overtime(record, epoch),
            None => false,
        }
    }

    /// Whether `epoch` lies within the availability of the device.
    fn is_in_window(&self, epoch: Epoch) -> (r: bool)
        ensures
            r == self.in_window(epoch),
    {
        match self.start {
            Availability::Epoch(start) => {
                if start.gt(&epoch) {
                    return false;
                }
            },
            Availability::Visible => {},
        }
        match self.end {
            Availability::Epoch(end) => !end.lt(&epoch),
            Availability::Visible => true,
        }
    }

    /// Whether the last measurement is at least one sampling span back.
    fn is_due(&self, record: &SchedData, epoch: Epoch) -> (r: bool)
        requires
            self.wf(),
            epoch.wf(),
            record.wf(),
        ensures
            r == self.due(*record, epoch),
    {
        match record.prev {
            Some(prev) => !epoch_sub(epoch, prev).lt(&self.sampling),
            None => true,
        }
    }

    /// Whether the pass under way has lasted longer than the time on.
    fn is_overtime(&self, record: &SchedData, epoch: Epoch) -> (r: bool)
        requires
            self.wf(),
            epoch.wf(),
            record.wf(),
        ensures
            r == self.overtime(*record, epoch),
    {
        match self.schedule {
            Schedule::Continuous => false,
            Schedule::Intermittent { on, off } => match record.start {
                Some(start) => epoch_sub(epoch, start).gt(&on),
                None => false,
            },
        }
    }

    /// Whether the device has rested for longer than the time off.
    fn is_rested(&self, record: &SchedData, epoch: Epoch) -> (r: bool)
        requires
            self.wf(),
            epoch.wf(),
            record.wf(),
        ensures
            r == self.rested(*record, epoch),
    {
        match self.schedule {
            Schedule::Continuous => true,
            Schedule::Intermittent { on, off } => match record.end {
                Some(end) => !epoch_sub(epoch, end).le(&off),
                None => true,
            },
        }
    }

    /// Whether a device with this configuration and this record is polled
    /// at `epoch`.
    pub fn allows(&self, sched: &Option<SchedData>, epoch: Epoch) -> (r: bool)
        requires
            self.wf(),
            epoch.wf(),
            match *sched {
                Some(record) => record.wf(),
                None => true,
            },
        ensures
            r == self.spec_allows(*sched, epoch),
    {
        if !self.is_in_window(epoch) {
            return false;
        }
        match sched {
            None => true,
            Some(record) => self.is_due(record, epoch) && !self.is_overtime(record, epoch)
                && self.is_rested(record, epoch),
        }
    }

    /// Whether the pass of a device with this configuration and this record
    /// is over at `epoch`.
    pub fn expires(&self, sched: &Option<SchedData>, epoch: Epoch) -> (r: bool)
        requires
            self.wf(),
            epoch.wf(),
            match *sched {
                Some(record) => record.wf(),
                None => true,
            },
        ensures
            r == self.spec_expires(*sched, epoch),
    {
        if !self.is_in_window(epoch) {
            return false;
        }
        match sched {
            None => false,
            Some(record) => self.is_due(record, epoch) && self.is_overtime(record, epoch),
        }
    }
}

/// What a simulation runs on: the configuration of each device, in the
/// order in which the devices are polled, the handoff between them, and the
/// instants at which they are polled.
pub struct Plan {
    pub configs: Seq<TrkConfig>,
    pub handoff: Handoff,
    pub epochs: Seq<Epoch>,
}

/// How far a simulation has come: the record of each device, and the
/// measurements taken so far, each as the place of its instant and the place
/// of its device.
pub struct Progress {
    pub sched: Seq<Option<SchedData>>,
    pub taken: Seq<(int, int)>,
}

impl Plan {
    /// The configurations are well formed and none contradicts itself; the
    /// instants are well formed and strictly increasing.
    pub open spec fn wf(self) -> bool {
        &&& forall|d: int|
            0 <= d < self.configs.len() ==> (#[trigger] self.configs[d]).wf()
                && !self.configs[d].contradictory()
        &&& series_wf(self.epochs)
    }

    /// Before the first instant no device has a record and nothing is taken.
    pub open spec fn start(self) -> Progress {
        Progress {
            sched: Seq::new(self.configs.len(), |d: int| None::<SchedData>),
            taken: Seq::empty(),
        }
    }

    /// Whether the instant at place `tick` is closed to further devices:
    /// where the first configured device wins, it is once one has measured.
    pub open spec fn closed(self, p: Progress, tick: int) -> bool {
        self.handoff == Handoff::FirstConfigured && p.taken.len() > 0 && p.taken.last().0 == tick
    }

    /// Whether the device at place `device` is polled at the instant at
    /// place `tick`.
    pub open spec fn polls(self, p: Progress, tick: int, device: int) -> bool {
        !self.closed(p, tick) && self.configs[device].spec_allows(
            p.sched[device],
            self.epochs[tick],
        )
    }

    /// Whether the pass of the device at place `device` is closed at the
    /// instant at place `tick`.
    pub open spec fn closes(self, p: Progress, tick: int, device: int) -> bool {
        !self.closed(p, tick) && self.configs[device].spec_expires(
            p.sched[device],
            self.epochs[tick],
        )
    }

    /// The progress after the turn of one device at one instant. `visible`
    /// says whether the device measures if it is polled. A device whose pass
    /// is over is not polled, and its pass is closed.
    pub open spec fn turn(self, p: Progress, tick: int, device: int, visible: bool) -> Progress {
        if self.closes(p, tick, device) {
            Progress {
                sched: p.sched.update(
                    device,
                    Some(p.sched[device].unwrap().spec_closed(self.epochs[tick])),
                ),
                taken: p.taken,
            }
        } else if self.polls(p, tick, device) {
            Progress {
                sched: p.sched.update(
                    device,
                    SchedData::spec_polled(p.sched[device], self.epochs[tick], visible),
                ),
                taken: if visible {
                    p.taken.push((tick, device))
                } else {
                    p.taken
                },
            }
        } else {
            p
        }
    }

    /// The progress after the turns of the first `devices` devices at the
    /// instant at place `tick`.
    pub open spec fn run_tick(
        self,
        p: Progress,
        tick: int,
        visible: Seq<bool>,
        devices: int,
    ) -> Progress
        decreases devices,
    {
        if devices <= 0 {
            p
        } else {
            self.turn(
                self.run_tick(p, tick, visible, devices - 1),
                tick,
                devices - 1,
                visible[devices - 1],
            )
        }
    }

    /// The progress after the first `ticks` instants. `visible[t][d]` says
    /// whether device `d` measures at instant `t` if it is polled.
    pub open spec fn run(self, visible: Seq<Seq<bool>>, ticks: int) -> Progress
        decreases ticks,
    {
        if ticks <= 0 {
            self.start()
        } else {
            self.run_tick(
                self.run(visible, ticks - 1),
                ticks - 1,
                visible[ticks - 1],
                self.configs.len() as int,
            )
        }
    }

    /// The progress before the turn of the device at place `device` at the
    /// instant at place `tick`.
    pub open spec fn before_turn(self, visible: Seq<Seq<bool>>, tick: int, device: int) -> Progress {
        self.run_tick(self.run(visible, tick), tick, visible[tick], device)
    }

    /// Whether a measurement was taken by a device that was polled at its
    /// turn and saw the spacecraft.
    pub open spec fn polled_at(self, visible: Seq<Seq<bool>>, entry: (int, int)) -> bool {
        visible[entry.0][entry.1] && self.polls(
            self.before_turn(visible, entry.0, entry.1),
            entry.0,
            entry.1,
        )
    }

    /// Whether each of the measurements `taken` was taken by a device that
    /// was polled at its turn and saw the spacecraft.
    pub open spec fn witnessed(self, visible: Seq<Seq<bool>>, taken: Seq<(int, int)>) -> bool {
        forall|a: int| 0 <= a < taken.len() ==> self.polled_at(visible, #[trigger] taken[a])
    }

    /// A measurement lies before the turn of `device` at `tick`, belongs to
    /// a device of the plan, and was taken while that device was available.
    pub open spec fn placed(self, entry: (int, int), tick: int, device: int) -> bool {
        &&& 0 <= entry.0 < self.epochs.len()
        &&& 0 <= entry.1 < self.configs.len()
        &&& entry.0 < tick || (entry.0 == tick && entry.1 < device)
        &&& self.configs[entry.1].in_window(self.epochs[entry.0])
    }

    /// Of two measurements the later one in the arc is the later one in
    /// time, or of the same instant and of a later device where devices
    /// overlap; and two of the same device lie at least its sampling apart.
    pub open spec fn in_order(self, earlier: (int, int), later: (int, int)) -> bool {
        &&& earlier.0 < later.0 || (earlier.0 == later.0 && earlier.1 < later.1 && self.handoff
            == Handoff::Overlap)
        &&& earlier.1 == later.1 ==> self.epochs[later.0].total() - self.epochs[earlier.0].total()
            >= self.configs[earlier.1].sampling.total()
    }

    /// The record of `device` holds, as its last measurement, an instant at
    /// place `last` that none of its measurements lies after.
    pub open spec fn last_at(
        self,
        record: SchedData,
        device: int,
        taken: Seq<(int, int)>,
        last: int,
    ) -> bool {
        &&& 0 <= last < self.epochs.len()
        &&& record.prev == Some(self.epochs[last])
        &&& forall|a: int| 0 <= a < taken.len() && (#[trigger] taken[a]).1 == device ==> taken[a].0 <= last
    }

    /// A device without a record has not measured; the record of another is
    /// well formed and holds its last measurement, which is not after `tick`.
    pub open spec fn record_fits(
        self,
        sched: Option<SchedData>,
        device: int,
        taken: Seq<(int, int)>,
        tick: int,
    ) -> bool {
        match sched {
            None => forall|a: int| 0 <= a < taken.len() ==> (#[trigger] taken[a]).1 != device,
            Some(record) => record.wf() && exists|last: int|
                last <= tick && #[trigger] self.last_at(record, device, taken, last),
        }
    }

    /// What holds of the progress at the turn of `device` at `tick`.
    pub open spec fn orderly(self, p: Progress, tick: int, device: int) -> bool {
        &&& p.sched.len() == self.configs.len()
        &&& forall|a: int| 0 <= a < p.taken.len() ==> self.placed(#[trigger] p.taken[a], tick, device)
        &&& forall|a: int, b: int|
            0 <= a < b < p.taken.len() ==> self.in_order(#[trigger] p.taken[a], #[trigger] p.taken[b])
        &&& forall|d: int|
            0 <= d < p.sched.len() ==> self.record_fits(#[trigger] p.sched[d], d, p.taken, tick)
    }
}

/// The turn of one device keeps the progress orderly.
pub proof fn lemma_turn_orderly(plan: Plan, p: Progress, tick: int, device: int, visible: bool)
    requires
        plan.wf(),
        0 <= tick < plan.epochs.len(),
        0 <= device < plan.configs.len(),
        plan.orderly(p, tick, device),
    ensures
        plan.orderly(plan.turn(p, tick, device, visible), tick, device + 1),
{
    let q = plan.turn(p, tick, device, visible);
    let epoch = plan.epochs[tick];
    let cfg = plan.configs[device];
    assert(epoch.wf());
    assert(cfg.wf() && !cfg.contradictory());
    if plan.closes(p, tick, device) {
        assert forall|a: int| 0 <= a < q.taken.len() implies plan.placed(
            #[trigger] q.taken[a],
            tick,
            device + 1,
        ) by {
            assert(plan.placed(p.taken[a], tick, device));
        }
        assert forall|d: int| 0 <= d < q.sched.len() implies plan.record_fits(
            #[trigger] q.sched[d],
            d,
            q.taken,
            tick,
        ) by {
            assert(plan.record_fits(p.sched[d], d, p.taken, tick));
            if d == device {
                let record = p.sched[d].unwrap();
                let last = choose|last: int|
                    last <= tick && #[trigger] plan.last_at(record, d, p.taken, last);
                assert(plan.last_at(q.sched[d].unwrap(), d, q.taken, last));
            }
        }
    } else if !plan.polls(p, tick, device) {
        assert forall|a: int| 0 <= a < q.taken.len() implies plan.placed(
            #[trigger] q.taken[a],
            tick,
            device + 1,
        ) by {
            assert(plan.placed(p.taken[a], tick, device));
        }
    } else if !visible {
        assert forall|a: int| 0 <= a < q.taken.len() implies plan.placed(
            #[trigger] q.taken[a],
            tick,
            device + 1,
        ) by {
            assert(plan.placed(p.taken[a], tick, device));
        }
        assert forall|d: int| 0 <= d < q.sched.len() implies plan.record_fits(
            #[trigger] q.sched[d],
            d,
            q.taken,
            tick,
        ) by {
            assert(plan.record_fits(p.sched[d], d, p.taken, tick));
            if d == device {
                match p.sched[d] {
                    None => {},
                    Some(record) => {
                        let last = choose|last: int|
                            last <= tick && #[trigger] plan.last_at(record, d, p.taken, last);
                        assert(plan.last_at(q.sched[d].unwrap(), d, q.taken, last));
                    },
                }
            }
        }
    } else {
        let new = (tick, device);
        assert(q.taken == p.taken.push(new));
        assert forall|a: int| 0 <= a < q.taken.len() implies plan.placed(
            #[trigger] q.taken[a],
            tick,
            device + 1,
        ) by {
            if a < p.taken.len() {
                assert(plan.placed(p.taken[a], tick, device));
            }
        }
        assert forall|a: int, b: int| 0 <= a < b < q.taken.len() implies plan.in_order(
            #[trigger] q.taken[a],
            #[trigger] q.taken[b],
        ) by {
            if b < p.taken.len() {
                assert(plan.in_order(p.taken[a], p.taken[b]));
            } else {
                let old_entry = p.taken[a];
                assert(plan.placed(old_entry, tick, device));
                if old_entry.0 == tick && plan.handoff == Handoff::FirstConfigured {
                    // Then the instant would have been closed.
                    let top = p.taken.len() - 1;
                    assert(plan.placed(p.taken[top], tick, device));
                    if a < top {
                        assert(plan.in_order(p.taken[a], p.taken[top]));
                    }
                    assert(false);
                }
                if old_entry.1 == device {
                    assert(plan.record_fits(p.sched[device], device, p.taken, tick));
                    let record = p.sched[device].unwrap();
                    let last = choose|last: int|
                        last <= tick && #[trigger] plan.last_at(record, device, p.taken, last);
                    let prev = plan.epochs[last];
                    assert(old_entry.0 <= last);
                    assert(cfg.in_schedule(record, epoch));
                    assert(!epoch.spec_sub(prev).spec_lt(cfg.sampling));
                    assert(prev.wf());
                    if last == tick {
                        lemma_sub_exact(epoch, prev);
                        lemma_order_is_total_order(epoch.spec_sub(prev), cfg.sampling);
                        assert(false);
                    }
                    lemma_sub_exact(epoch, prev);
                    lemma_order_is_total_order(epoch.spec_sub(prev), cfg.sampling);
                    if old_entry.0 < last {
                        assert(plan.epochs[last].total() - plan.epochs[old_entry.0].total() > 0);
                    }
                }
            }
        }
        assert forall|d: int| 0 <= d < q.sched.len() implies plan.record_fits(
            #[trigger] q.sched[d],
            d,
            q.taken,
            tick,
        ) by {
            assert(plan.record_fits(p.sched[d], d, p.taken, tick));
            if d == device {
                assert forall|a: int| 0 <= a < q.taken.len() && (#[trigger] q.taken[a]).1
                    == d implies q.taken[a].0 <= tick by {
                    if a < p.taken.len() {
                        assert(plan.placed(p.taken[a], tick, device));
                    }
                }
                assert(plan.last_at(q.sched[d].unwrap(), d, q.taken, tick));
            } else {
                match p.sched[d] {
                    None => {},
                    Some(record) => {
                        let last = choose|last: int|
                            last <= tick && #[trigger] plan.last_at(record, d, p.taken, last);
                        assert(plan.last_at(record, d, q.taken, last));
                    },
                }
            }
        }
    }
}

/// The turns of the first `devices` devices at an instant keep the progress
/// orderly.
pub proof fn lemma_run_tick_orderly(
    plan: Plan,
    p: Progress,
    tick: int,
    visible: Seq<bool>,
    devices: int,
)
    requires
        plan.wf(),
        0 <= tick < plan.epochs.len(),
        0 <= devices <= plan.configs.len(),
        plan.orderly(p, tick, 0),
    ensures
        plan.orderly(plan.run_tick(p, tick, visible, devices), tick, devices),
    decreases devices,
{
    if devices > 0 {
        lemma_run_tick_orderly(plan, p, tick, visible, devices - 1);
        lemma_turn_orderly(
            plan,
            plan.run_tick(p, tick, visible, devices - 1),
            tick,
            devices - 1,
            visible[devices - 1],
        );
    }
}

/// Progress that is orderly after the last device of an instant is orderly
/// before the first device of the next.
pub proof fn lemma_next_tick_orderly(plan: Plan, p: Progress, tick: int)
    requires
        plan.orderly(p, tick, plan.configs.len() as int),
    ensures
        plan.orderly(p, tick + 1, 0),
{
    assert forall|a: int| 0 <= a < p.taken.len() implies plan.placed(
        #[trigger] p.taken[a],
        tick + 1,
        0,
    ) by {
        assert(plan.placed(p.taken[a], tick, plan.configs.len() as int));
    }
    assert forall|d: int| 0 <= d < p.sched.len() implies plan.record_fits(
        #[trigger] p.sched[d],
        d,
        p.taken,
        tick + 1,
    ) by {
        assert(plan.record_fits(p.sched[d], d, p.taken, tick));
        match p.sched[d] {
            None => {},
            Some(record) => {
                let last = choose|last: int|
                    last <= tick && #[trigger] plan.last_at(record, d, p.taken, last);
                assert(plan.last_at(record, d, p.taken, last));
            },
        }
    }
}

/// Whatever the devices see, the progress of a simulation is orderly after
/// any number of instants.
pub proof fn lemma_run_orderly(plan: Plan, visible: Seq<Seq<bool>>, ticks: int)
    requires
        plan.wf(),
        0 <= ticks <= plan.epochs.len(),
    ensures
        plan.orderly(plan.run(visible, ticks), ticks, 0),
    decreases ticks,
{
    if ticks > 0 {
        lemma_run_orderly(plan, visible, ticks - 1);
        lemma_run_tick_orderly(
            plan,
            plan.run(visible, ticks - 1),
            ticks - 1,
            visible[ticks - 1],
            plan.configs.len() as int,
        );
        lemma_next_tick_orderly(
            plan,
            plan.run_tick(
                plan.run(visible, ticks - 1),
                ticks - 1,
                visible[ticks - 1],
                plan.configs.len() as int,
            ),
            ticks - 1,
        );
    }
}

/// The turns of the first `devices` devices depend on what these devices
/// see, and on nothing else that `visible` holds.
pub proof fn lemma_run_tick_agrees(
    plan: Plan,
    p: Progress,
    tick: int,
    v1: Seq<bool>,
    v2: Seq<bool>,
    devices: int,
)
    requires
        forall|d: int| 0 <= d < devices ==> v1[d] == v2[d],
    ensures
        plan.run_tick(p, tick, v1, devices) == plan.run_tick(p, tick, v2, devices),
    decreases devices,
{
    if devices > 0 {
        lemma_run_tick_agrees(plan, p, tick, v1, v2, devices - 1);
    }
}

/// The first `ticks` instants depend on what the devices see at these
/// instants, and on nothing else that `visible` holds.
pub proof fn lemma_run_agrees(plan: Plan, v1: Seq<Seq<bool>>, v2: Seq<Seq<bool>>, ticks: int)
    requires
        forall|t: int| 0 <= t < ticks ==> v1[t] == v2[t],
    ensures
        plan.run(v1, ticks) == plan.run(v2, ticks),
    decreases ticks,
{
    if ticks > 0 {
        lemma_run_agrees(plan, v1, v2, ticks - 1);
    }
}

/// The turns of an instant take measurements of devices that are polled
/// and see the spacecraft, and of no others.
proof fn lemma_run_tick_witnessed(plan: Plan, visible: Seq<Seq<bool>>, tick: int, devices: int)
    requires
        plan.witnessed(visible, plan.run(visible, tick).taken),
    ensures
        plan.witnessed(visible, plan.before_turn(visible, tick, devices).taken),
    decreases devices,
{
    if devices > 0 {
        lemma_run_tick_witnessed(plan, visible, tick, devices - 1);
        let p = plan.before_turn(visible, tick, devices - 1);
        let q = plan.before_turn(visible, tick, devices);
        assert(q == plan.turn(p, tick, devices - 1, visible[tick][devices - 1]));
        assert forall|a: int| 0 <= a < q.taken.len() implies plan.polled_at(
            visible,
            #[trigger] q.taken[a],
        ) by {
            if a < p.taken.len() {
                assert(q.taken[a] == p.taken[a]);
            }
        }
    }
}

/// A run takes measurements of devices that are polled and see the
/// spacecraft, and of no others.
proof fn lemma_run_witnessed(plan: Plan, visible: Seq<Seq<bool>>, ticks: int)
    ensures
        plan.witnessed(visible, plan.run(visible, ticks).taken),
    decreases ticks,
{
    if ticks > 0 {
        lemma_run_witnessed(plan, visible, ticks - 1);
        lemma_run_tick_witnessed(plan, visible, ticks - 1, plan.configs.len() as int);
    }
}

/// Each measurement of a run was taken at one of its instants by one of its
/// devices, which was available and polled at that turn and saw the
/// spacecraft.
pub proof fn lemma_taken_was_polled(plan: Plan, visible: Seq<Seq<bool>>, ticks: int, a: int)
    requires
        plan.wf(),
        0 <= ticks <= plan.epochs.len(),
        0 <= a < plan.run(visible, ticks).taken.len(),
    ensures
        plan.placed(plan.run(visible, ticks).taken[a], ticks, 0),
        plan.polled_at(visible, plan.run(visible, ticks).taken[a]),
{
    lemma_run_orderly(plan, visible, ticks);
    lemma_run_witnessed(plan, visible, ticks);
}

} // verus!
