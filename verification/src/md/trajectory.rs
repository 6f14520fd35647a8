//! A trajectory: states in the order of their instants, and the state that
//! the trajectory has at any instant in between.

use crate::errors::{NyxError, TrajError};
use crate::errors::epoch_text;
use crate::time::{epoch_to_string, Epoch};
use vstd::prelude::*;
use vstd::string::*;

verus! {

/// Number of neighbouring samples that an interpolation is given at most.
pub const INTERPOLATION_SAMPLES: usize = 8;

/// A scalar quantity of a state.
#[derive(Clone, Copy, Debug, PartialEq, Eq, Structural)]
pub enum StateParameter {
    X,
    Y,
    Z,
    VX,
    VY,
    VZ,
    FuelMass,
    Cr,
    Cd,
    SMA,
    Eccentricity,
    Inclination,
    RAAN,
    AoP,
    TrueAnomaly,
}

/// A state that is tagged with the instant at which it holds.
///
/// What an implementation promises of its instant it says by `tagged`, which
/// promises nothing unless it states it.
pub trait State: Sized {
    /// Whether `epoch` is the instant of the state.
    open spec fn tagged(&self, epoch: Epoch) -> bool {
        true
    }

    /// The instant of the state.
    fn epoch(&self) -> (epoch: Epoch)
        ensures
            self.tagged(epoch),
    ;
}

/// A state that can be interpolated between samples of its kind.
///
/// What an implementation promises of its methods it says by the three
/// relations, which promise nothing unless it states them.
pub trait InterpState: State {
    /// The type of the scalar quantities of the state.
    type Scalar;

    /// Whether `r` is the value of `param` with its time derivative, or the
    /// error for a parameter that the state does not have.
    open spec fn has_value_and_deriv(
        &self,
        param: StateParameter,
        r: Result<(Self::Scalar, Self::Scalar), NyxError>,
    ) -> bool {
        true
    }

    /// Whether `r` is the time derivative of `param`, or the error for a
    /// parameter that the state does not have.
    open spec fn has_deriv(&self, param: StateParameter, r: Result<Self::Scalar, NyxError>) -> bool {
        true
    }

    /// Whether `after` is the state once `param` was set to `value` and
    /// `set_value_and_deriv` returned `r`.
    open spec fn value_set(
        &self,
        param: StateParameter,
        value: Self::Scalar,
        value_dt: Self::Scalar,
        after: Self,
        r: Result<(), NyxError>,
    ) -> bool {
        true
    }

    /// Whether `r` is a result of interpolating `self` to `epoch` from
    /// `states`.
    open spec fn interpolated(self, epoch: Epoch, states: Seq<Self>, r: Result<Self, NyxError>) -> bool {
        true
    }

    /// The parameters that are interpolated, in order.
    fn params() -> Vec<StateParameter>;

    /// Returns the requested parameter and its time derivative.
    fn value_and_deriv(&self, param: &StateParameter) -> (r: Result<
        (Self::Scalar, Self::Scalar),
        NyxError,
    >)
        ensures
            self.has_value_and_deriv(*param, r),
            self.has_deriv(
                *param,
                match r {
                    Ok(pair) => Ok(pair.1),
                    Err(e) => Err(e),
                },
            ),
    ;

    /// Returns the time derivative of the requested parameter: the second
    /// part of what `value_and_deriv` returns, or its error.
    fn deriv(&self, param: &StateParameter) -> (r: Result<Self::Scalar, NyxError>)
        ensures
            self.has_deriv(*param, r),
    {
        match self.value_and_deriv(param) {
            Ok(pair) => Ok(pair.1),
            Err(e) => Err(e),
        }
    }

    /// Sets the requested parameter.
    fn set_value_and_deriv(
        &mut self,
        param: &StateParameter,
        value: Self::Scalar,
        value_dt: Self::Scalar,
    ) -> (r: Result<(), NyxError>)
        ensures
            old(self).value_set(*param, value, value_dt, *final(self), r),
    ;

    /// Interpolates a new state at the provided instant from the given
    /// states.
    fn interpolate(self, epoch: Epoch, states: &[Self]) -> (r: Result<Self, NyxError>)
        ensures
            self.interpolated(epoch, states@, r),
    ;
}

/// States in the order of their instants.
pub struct Traj<S: InterpState> {
    /// Optionally, a name for the trajectory.
    pub name: Option<String>,
    /// The samples, each with its instant, which `wf` wants in strictly
    /// increasing order.
    pub states: Vec<(Epoch, S)>,
}

/// Where the window of samples for an interpolation starts, when `idx` is the
/// place of the first sample after the requested instant among `len`
/// samples: half a window before `idx`, but no further than a whole window
/// from the end, and not before the first sample.
pub open spec fn window_start(idx: int, len: int) -> int {
    let half = (INTERPOLATION_SAMPLES / 2) as int;
    let centred = if idx >= half {
        idx - half
    } else {
        0
    };
    let latest = if len >= INTERPOLATION_SAMPLES as int {
        len - INTERPOLATION_SAMPLES as int
    } else {
        0
    };
    if centred <= latest {
        centred
    } else {
        latest
    }
}

/// Where the window of samples for an interpolation ends: a whole window
/// after its start, or with the last sample.
pub open spec fn window_end(idx: int, len: int) -> int {
    let whole = window_start(idx, len) + INTERPOLATION_SAMPLES as int;
    if whole <= len {
        whole
    } else {
        len
    }
}

impl<S: InterpState + Copy> Traj<S> {
    /// The instant of the sample at place `i`.
    pub open spec fn epoch_at(&self, i: int) -> Epoch {
        self.states@[i].0
    }

    /// The samples without their instants.
    pub open spec fn samples(&self) -> Seq<S> {
        Seq::new(self.states@.len(), |i: int| self.states@[i].1)
    }

    /// The samples that the sample at place `i` interpolates from: those
    /// from `window_start` to `window_end`.
    pub open spec fn window(&self, i: int) -> Seq<S> {
        self.samples().subrange(
            window_start(i, self.states@.len() as int),
            window_end(i, self.states@.len() as int),
        )
    }

    /// The samples carry well-formed instants in strictly increasing order.
    pub open spec fn wf(&self) -> bool {
        &&& forall|i: int| 0 <= i < self.states@.len() ==> (#[trigger] self.epoch_at(i)).wf()
        &&& forall|i: int, j: int|
            0 <= i < j < self.states@.len() ==> (#[trigger] self.epoch_at(i)).spec_lt(
                #[trigger] self.epoch_at(j),
            )
    }

    /// Whether the trajectory has a sample and `epoch` lies between its first
    /// and its last sample, both included.
    pub open spec fn covers(&self, epoch: Epoch) -> bool {
        &&& self.states@.len() > 0
        &&& !epoch.spec_lt(self.epoch_at(0))
        &&& !self.epoch_at(self.states@.len() - 1).spec_lt(epoch)
    }

    /// Whether a sample of the trajectory is at `epoch`.
    pub open spec fn has_sample_at(&self, epoch: Epoch) -> bool {
        exists|i: int| 0 <= i < self.states@.len() && #[trigger] self.epoch_at(i) == epoch
    }

    /// Whether `state` is a state of the trajectory at `epoch`: the sample
    /// at that instant, or what the sample after `epoch` interpolates from
    /// the window of samples around `epoch`.
    pub open spec fn has_state(&self, epoch: Epoch, state: S) -> bool {
        ||| exists|i: int|
            0 <= i < self.states@.len() && #[trigger] self.epoch_at(i) == epoch && self.states@[i].1
                == state
        ||| exists|i: int| #[trigger]
            self.between(epoch, i) && self.states@[i].1.interpolated(
                epoch,
                self.window(i),
                Ok(state),
            )
    }

    /// Whether a state has one interpolation at most from given states to a
    /// given instant.
    pub open spec fn one_interpolation() -> bool {
        forall|seed: S, epoch: Epoch, states: Seq<S>, a: S, b: S|
            #[trigger] seed.interpolated(epoch, states, Ok(a)) && #[trigger] seed.interpolated(
                epoch,
                states,
                Ok(b),
            ) ==> a == b
    }

    /// Whether the trajectory has one state at most at each instant.
    pub open spec fn one_state_at_each_instant(&self) -> bool {
        forall|epoch: Epoch, a: S, b: S|
            #[trigger] self.has_state(epoch, a) && #[trigger] self.has_state(epoch, b) ==> a == b
    }

    /// A trajectory in order has one state at most at each instant, where a
    /// state has one interpolation at most: the state at an instant is a
    /// function of the instant alone.
    pub proof fn lemma_one_state_at_each_instant(&self)
        requires
            self.wf(),
            Self::one_interpolation(),
        ensures
            self.one_state_at_each_instant(),
    {
        let len = self.states@.len() as int;
        assert forall|epoch: Epoch, a: S, b: S|
            #[trigger] self.has_state(epoch, a) && #[trigger] self.has_state(
                epoch,
                b,
            ) implies a == b by {
            // Instants in strict order: a sample has its instant to itself, and
            // no instant lies both on a sample and between two, nor between two
            // pairs.
            assert forall|i: int, j: int| 0 <= i < len && 0 <= j < len && i != j implies self.epoch_at(
                i,
            ) != self.epoch_at(j) by {
                if i < j {
                    assert(self.epoch_at(i).spec_lt(self.epoch_at(j)));
                } else {
                    assert(self.epoch_at(j).spec_lt(self.epoch_at(i)));
                }
            }
            assert forall|i: int, j: int| 0 <= i < len && #[trigger] self.between(
                epoch,
                j,
            ) implies #[trigger] self.epoch_at(i) != epoch by {
                if i < j - 1 {
                    assert(self.epoch_at(i).spec_lt(self.epoch_at(j - 1)));
                } else if i > j {
                    assert(self.epoch_at(j).spec_lt(self.epoch_at(i)));
                }
            }
            assert forall|i: int, j: int| #[trigger]
                self.between(epoch, i) && #[trigger] self.between(epoch, j) implies i == j by {
                if i < j {
                    if i < j - 1 {
                        assert(self.epoch_at(i).spec_lt(self.epoch_at(j - 1)));
                    }
                } else if j < i {
                    if j < i - 1 {
                        assert(self.epoch_at(j).spec_lt(self.epoch_at(i - 1)));
                    }
                }
            }
            if exists|i: int| #[trigger] self.between(epoch, i) {
                let i = choose|i: int| #[trigger] self.between(epoch, i);
                assert(self.states@[i].1.interpolated(epoch, self.window(i), Ok(a)));
                assert(self.states@[i].1.interpolated(epoch, self.window(i), Ok(b)));
            }
        }
    }

    /// Whether `epoch` lies strictly between the samples at `i - 1` and `i`.
    pub open spec fn between(&self, epoch: Epoch, i: int) -> bool {
        0 < i < self.states@.len() && self.epoch_at(i - 1).spec_lt(epoch) && epoch.spec_lt(
            self.epoch_at(i),
        )
    }

    /// Whether `at` can fail with `e` at `epoch`: either `epoch` lies outside
    /// of the samples and `e` says so, or `epoch` lies between two samples
    /// and `e` is the error of the interpolation.
    pub open spec fn fails_with(&self, epoch: Epoch, e: NyxError) -> bool {
        ||| !self.covers(epoch) && e == NyxError::Trajectory(TrajError::NoInterpolationData(epoch))
        ||| exists|i: int| #[trigger]
            self.between(epoch, i) && self.states@[i].1.interpolated(
                epoch,
                self.window(i),
                Err(e),
            )
    }

    /// The message of the error for a state whose instant is malformed.
    pub open spec fn malformed() -> Seq<char> {
        "the instant of the state is not normalised"@
    }

    /// The message of the error for a state that is not later than the last.
    pub open spec fn not_later() -> Seq<char> {
        "the state is not later than the last state of the trajectory"@
    }

    /// The one-line description of the trajectory: its name, if it has one,
    /// and its first and last instant.
    pub open spec fn description(&self) -> Seq<char> {
        let name = match self.name {
            Some(name) => name@ + " "@,
            None => Seq::empty(),
        };
        if self.states@.len() == 0 {
            "Empty Trajectory!"@
        } else {
            "Trajectory "@ + name + "from "@ + epoch_text(self.epoch_at(0)) + " to "@ + epoch_text(
                self.epoch_at(self.states@.len() - 1),
            )
        }
    }

    /// Writes the one-line description of the trajectory.
    pub fn to_string(&self) -> (text: String)
        ensures
            text@ == self.description(),
    {
        let len = self.states.len();
        if len == 0 {
            return String::from_str("Empty Trajectory!");
        }
        let mut text = String::from_str("Trajectory ");
        match &self.name {
            Some(name) => {
                text.append(name.as_str());
                text.append(" ");
                assert(text@ =~= "Trajectory "@ + (name@ + " "@));
            },
            None => {
                assert(text@ =~= "Trajectory "@ + Seq::<char>::empty());
            },
        }
        text.append("from ");
        text.append(epoch_to_string(self.states[0].0).as_str());
        text.append(" to ");
        text.append(epoch_to_string(self.states[len - 1].0).as_str());
        text
    }

    /// A trajectory without samples.
    pub fn new() -> (traj: Self)
        ensures
            traj.states@.len() == 0,
            traj.name.is_none(),
            traj.wf(),
    {
        Traj { name: None, states: Vec::new() }
    }

    /// What `push_at` returns and leaves behind: a state under a well-formed
    /// instant after that of the last sample is appended; any other is
    /// refused with the reason, and the trajectory stays as it is.
    pub open spec fn pushed(
        &self,
        epoch: Epoch,
        state: S,
        after: &Self,
        r: Result<(), TrajError>,
    ) -> bool {
        let len = self.states@.len();
        &&& after.name == self.name
        &&& if !epoch.wf() {
            &&& after.states@ == self.states@
            &&& r matches Err(TrajError::CreationError(reason))
            &&& r->Err_0->CreationError_0@ == Self::malformed()
        } else if len > 0 && !self.epoch_at(len - 1).spec_lt(epoch) {
            &&& after.states@ == self.states@
            &&& r matches Err(TrajError::CreationError(reason))
            &&& r->Err_0->CreationError_0@ == Self::not_later()
        } else {
            &&& after.states@ == self.states@.push((epoch, state))
            &&& r == Ok::<(), TrajError>(())
        }
    }

    /// Appends `state` under `epoch`.
    pub fn push_at(&mut self, epoch: Epoch, state: S) -> (r: Result<(), TrajError>)
        requires
            old(self).wf(),
        ensures
            final(self).wf(),
            old(self).pushed(epoch, state, final(self), r),
    {
        if !epoch.is_wf() {
            return Err(
                TrajError::CreationError(
                    String::from_str("the instant of the state is not normalised"),
                ),
            );
        }
        let len = self.states.len();
        if len > 0 && !self.states[len - 1].0.lt(&epoch) {
            return Err(
                TrajError::CreationError(
                    String::from_str("the state is not later than the last state of the trajectory"),
                ),
            );
        }
        let ghost before = self.states@;
        self.states.push((epoch, state));
        proof {
            assert forall|i: int, j: int| 0 <= i < j < self.states@.len() implies (
            #[trigger] self.epoch_at(i)).spec_lt(#[trigger] self.epoch_at(j)) by {
                if j < before.len() {
                    assert(old(self).epoch_at(i).spec_lt(old(self).epoch_at(j)));
                } else if i < before.len() - 1 {
                    assert(old(self).epoch_at(i).spec_lt(old(self).epoch_at(before.len() - 1)));
                }
            }
            assert forall|i: int| 0 <= i < self.states@.len() implies (#[trigger] self.epoch_at(
                i,
            )).wf() by {
                if i < before.len() {
                    assert(old(self).epoch_at(i).wf());
                }
            }
        }
        Ok(())
    }

    /// Appends `state` under the instant that it gives as its own.
    pub fn push(&mut self, state: S) -> (r: Result<(), TrajError>)
        requires
            old(self).wf(),
        ensures
            final(self).wf(),
            exists|epoch: Epoch|
                state.tagged(epoch) && #[trigger] old(self).pushed(epoch, state, final(self), r),
    {
        let epoch = state.epoch();
        let r = self.push_at(epoch, state);
        proof {
            assert(old(self).pushed(epoch, state, self, r));
        }
        r
    }

    /// The first sample.
    pub fn first(&self) -> (s: &S)
        requires
            self.states@.len() > 0,
        ensures
            *s == self.states@[0].1,
    {
        &self.states[0].1
    }

    /// The last sample.
    pub fn last(&self) -> (s: &S)
        requires
            self.states@.len() > 0,
        ensures
            *s == self.states@[self.states@.len() - 1].1,
    {
        &self.states[self.states.len() - 1].1
    }

    /// The place of the first sample that is not before `epoch`, or the
    /// number of samples where all are before it.
    fn lower_bound(&self, epoch: Epoch) -> (idx: usize)
        requires
            self.wf(),
        ensures
            idx <= self.states@.len(),
            forall|i: int| 0 <= i < idx ==> (#[trigger] self.epoch_at(i)).spec_lt(epoch),
            forall|i: int|
                idx <= i < self.states@.len() ==> !(#[trigger] self.epoch_at(i)).spec_lt(epoch),
    {
        let mut lo: usize = 0;
        let mut hi: usize = self.states.len();
        while lo < hi
            invariant
                self.wf(),
                lo <= hi <= self.states@.len(),
                forall|i: int| 0 <= i < lo ==> (#[trigger] self.epoch_at(i)).spec_lt(epoch),
                forall|i: int|
                    hi <= i < self.states@.len() ==> !(#[trigger] self.epoch_at(i)).spec_lt(epoch),
            decreases hi - lo,
        {
            let mid: usize = lo + (hi - lo) / 2;
            let at_mid = self.states[mid].0;
            assert(at_mid == self.epoch_at(mid as int));
            if at_mid.lt(&epoch) {
                assert forall|i: int| 0 <= i < mid + 1 implies (#[trigger] self.epoch_at(
                    i,
                )).spec_lt(epoch) by {
                    if i < mid {
                        assert(self.epoch_at(i).spec_lt(self.epoch_at(mid as int)));
                    }
                }
                lo = mid + 1;
            } else {
                assert forall|i: int| mid <= i < self.states@.len() implies !(
                #[trigger] self.epoch_at(i)).spec_lt(epoch) by {
                    if i > mid {
                        assert(self.epoch_at(mid as int).spec_lt(self.epoch_at(i)));
                    }
                }
                hi = mid;
            }
        }
        lo
    }

    /// The state of the trajectory at `epoch`. Outside of the samples there
    /// is none. At the instant of a sample it is that sample. In between it
    /// is what the sample after `epoch` interpolates from the window of
    /// samples around `epoch`.
    pub fn at(&self, epoch: Epoch) -> (r: Result<S, NyxError>)
        requires
            self.wf(),
        ensures
            !self.covers(epoch) ==> r == Err::<S, NyxError>(
                NyxError::Trajectory(TrajError::NoInterpolationData(epoch)),
            ),
            forall|i: int|
                0 <= i < self.states@.len() && #[trigger] self.epoch_at(i) == epoch ==> r == Ok::<
                    S,
                    NyxError,
                >(self.states@[i].1),
            forall|i: int| #[trigger]
                self.between(epoch, i) ==> self.states@[i].1.interpolated(
                    epoch,
                    self.window(i),
                    r,
                ),
            match r {
                Err(e) => self.fails_with(epoch, e),
                Ok(state) => self.has_state(epoch, state),
            },
    {
        let len = self.states.len();
        if len == 0 || epoch.lt(&self.states[0].0) || epoch.gt(&self.states[len - 1].0) {
            proof {
                // No sample is at `epoch`, and no two samples lie around it.
                assert forall|i: int| 0 <= i < len implies #[trigger] self.epoch_at(i) != epoch by {
                    if 0 < i {
                        assert(self.epoch_at(0).spec_lt(self.epoch_at(i)));
                    }
                    if i < len - 1 {
                        assert(self.epoch_at(i).spec_lt(self.epoch_at(len - 1)));
                    }
                }
                assert forall|i: int| #[trigger] self.between(epoch, i) implies false by {
                    if 0 < i - 1 {
                        assert(self.epoch_at(0).spec_lt(self.epoch_at(i - 1)));
                    }
                    if i < len - 1 {
                        assert(self.epoch_at(i).spec_lt(self.epoch_at(len - 1)));
                    }
                }
            }
            return Err(NyxError::Trajectory(TrajError::NoInterpolationData(epoch)));
        }
        let idx = self.lower_bound(epoch);
        proof {
            // The last sample is not before `epoch`, so the search stops on a sample.
            if idx == len {
                assert(self.epoch_at(len - 1).spec_lt(epoch));
            }
            assert forall|i: int, j: int| 0 <= i < len && 0 <= j < len implies (self.epoch_at(i)
                == self.epoch_at(j)) == (i == j) by {
                if i < j {
                    assert(self.epoch_at(i).spec_lt(self.epoch_at(j)));
                } else if j < i {
                    assert(self.epoch_at(j).spec_lt(self.epoch_at(i)));
                }
            }
        }
        let found = self.states[idx].0;
        assert(found == self.epoch_at(idx as int));
        if !epoch.lt(&found) {
            proof {
                assert(found == epoch);
                assert forall|i: int| #[trigger] self.between(epoch, i) implies false by {
                    if i <= idx {
                        if i < idx {
                            assert(self.epoch_at(i).spec_lt(self.epoch_at(idx as int)));
                        }
                    } else {
                        assert(!self.epoch_at(i - 1).spec_lt(epoch));
                    }
                }
            }
            return Ok(self.states[idx].1);
        }
        proof {
            // `epoch` lies strictly between the samples at `idx - 1` and `idx`.
            assert(idx > 0) by {
                if idx == 0 {
                    assert(!epoch.spec_lt(self.epoch_at(0)));
                }
            }
            assert(self.epoch_at(idx - 1).spec_lt(epoch));
            assert(self.between(epoch, idx as int));
            assert forall|i: int| 0 <= i < len implies #[trigger] self.epoch_at(i) != epoch by {
                if i < idx {
                    assert(self.epoch_at(i).spec_lt(epoch));
                } else if i > idx {
                    assert(self.epoch_at(idx as int).spec_lt(self.epoch_at(i)));
                }
            }
            assert forall|i: int| #[trigger] self.between(epoch, i) implies i == idx by {
                if i < idx {
                    assert(self.epoch_at(i).spec_lt(epoch));
                } else if i > idx {
                    assert(!self.epoch_at(i - 1).spec_lt(epoch));
                }
            }
        }
        let half: usize = INTERPOLATION_SAMPLES / 2;
        let centred: usize = if idx >= half {
            idx - half
        } else {
            0
        };
        let latest: usize = if len >= INTERPOLATION_SAMPLES {
            len - INTERPOLATION_SAMPLES
        } else {
            0
        };
        let first_idx: usize = if centred <= latest {
            centred
        } else {
            latest
        };
        let last_idx: usize = if first_idx + INTERPOLATION_SAMPLES <= len {
            first_idx + INTERPOLATION_SAMPLES
        } else {
            len
        };
        let mut window: Vec<S> = Vec::new();
        let mut k: usize = first_idx;
        while k < last_idx
            invariant
                first_idx <= k <= last_idx <= self.states@.len(),
                window@ == self.samples().subrange(first_idx as int, k as int),
            decreases last_idx - k,
        {
            window.push(self.states[k].1);
            proof {
                assert(window@ =~= self.samples().subrange(first_idx as int, k as int + 1));
            }
            k = k + 1;
        }
        self.states[idx].1.interpolate(epoch, window.as_slice())
    }
}

} // verus!
