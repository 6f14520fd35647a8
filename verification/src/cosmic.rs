//! The states of a spacecraft: an orbit, and an orbit with the masses and
//! coefficients of the vehicle.
//!
//! The states hold their real numbers in a type of the caller's choice;
//! what has to be computed with them is computed by that type.

use crate::errors::{NyxError, TrajError};
use crate::md::trajectory::{InterpState, State, StateParameter, Traj, INTERPOLATION_SAMPLES};
use crate::time::Epoch;
use vstd::prelude::*;

verus! {

/// A real number as the states hold it.
///
/// What an implementation promises of its arithmetic it says by the
/// relations, which promise nothing unless it states them.
pub trait Scalar: Copy {
    /// Whether `z` is the number zero.
    open spec fn is_zero(z: Self) -> bool {
        true
    }

    /// Whether `known` says if `v` is a number at or above zero.
    open spec fn tells_non_negative(v: Self, known: bool) -> bool {
        true
    }

    /// Whether `a` is the acceleration, along the axis on which the body
    /// stands at `along`, of a body at `(x, y, z)` that a centre of
    /// gravitational parameter `gm` attracts: `-gm * along / r^3`, where `r`
    /// is the distance of the body from the centre.
    open spec fn is_central_acceleration(
        gm: Self,
        x: Self,
        y: Self,
        z: Self,
        along: Self,
        a: Self,
    ) -> bool {
        true
    }

    /// Whether `s` is the seconds of `epoch` past the reference of
    /// barycentric dynamical time.
    open spec fn is_tdb_seconds(epoch: Epoch, s: Self) -> bool {
        true
    }

    /// Whether `r` is the value and the derivative, at `x_eval`, of the
    /// Hermite polynomial through the values `ys` and the derivatives
    /// `ydots` at the abscissas `xs`, or the error for samples that no such
    /// polynomial goes through.
    open spec fn is_hermite(
        xs: Seq<Self>,
        ys: Seq<Self>,
        ydots: Seq<Self>,
        x_eval: Self,
        r: Result<(Self, Self), NyxError>,
    ) -> bool {
        true
    }

    /// Whether `y` is the value at `x` of the line through `(x0, y0)` and
    /// `(x1, y1)`.
    open spec fn is_lerp(x0: Self, y0: Self, x1: Self, y1: Self, x: Self, y: Self) -> bool {
        true
    }

    /// The number zero.
    fn zero() -> (z: Self)
        ensures
            Self::is_zero(z),
    ;

    /// Whether the number is a number at or above zero.
    fn is_non_negative(self) -> (known: bool)
        ensures
            Self::tells_non_negative(self, known),
    ;

    /// The acceleration, along the axis on which the body stands at `along`,
    /// of a body at `(x, y, z)` that a centre of gravitational parameter `gm`
    /// attracts.
    fn central_acceleration(gm: Self, x: Self, y: Self, z: Self, along: Self) -> (a: Self)
        ensures
            Self::is_central_acceleration(gm, x, y, z, along, a),
    ;

    /// The seconds of `epoch` past the reference of barycentric dynamical
    /// time.
    fn tdb_seconds(epoch: Epoch) -> (s: Self)
        ensures
            Self::is_tdb_seconds(epoch, s),
    ;

    /// The value and the derivative, at `x_eval`, of the Hermite polynomial
    /// through the values `ys` and the derivatives `ydots` at the abscissas
    /// `xs`.
    fn hermite_eval(xs: &[Self], ys: &[Self], ydots: &[Self], x_eval: Self) -> (r: Result<
        (Self, Self),
        NyxError,
    >)
        ensures
            Self::is_hermite(xs@, ys@, ydots@, x_eval, r),
    ;

    /// The value at `x` of the line through `(x0, y0)` and `(x1, y1)`.
    fn lerp(x0: Self, y0: Self, x1: Self, y1: Self, x: Self) -> (y: Self)
        ensures
            Self::is_lerp(x0, y0, x1, y1, x, y),
    ;
}

/// Position and velocity in a frame at an instant.
#[derive(Clone, Copy, Debug, PartialEq)]
pub struct Orbit<T: Scalar> {
    /// Position, in km.
    pub x: T,
    pub y: T,
    pub z: T,
    /// Velocity, in km/s.
    pub vx: T,
    pub vy: T,
    pub vz: T,
    /// The instant of the state.
    pub dt: Epoch,
    /// The identifier of the frame.
    pub frame: i32,
    /// The gravitational parameter of the centre of the frame, in km^3/s^2.
    pub gm: T,
}

/// An orbit with the masses and coefficients of the vehicle.
#[derive(Clone, Copy, Debug, PartialEq)]
pub struct Spacecraft<T: Scalar> {
    pub orbit: Orbit<T>,
    /// Dry mass, in kg.
    pub dry_mass_kg: T,
    /// Fuel mass, in kg.
    pub fuel_mass_kg: T,
    /// Area exposed to solar radiation pressure, in m^2.
    pub srp_area_m2: T,
    /// Coefficient of reflectivity.
    pub cr: T,
    /// Coefficient of drag.
    pub cd: T,
}

/// The parameters of an orbit that are interpolated.
pub open spec fn orbit_params() -> Seq<StateParameter> {
    seq![
        StateParameter::X,
        StateParameter::Y,
        StateParameter::Z,
        StateParameter::VX,
        StateParameter::VY,
        StateParameter::VZ,
    ]
}

/// The parameters of a spacecraft that are interpolated.
pub open spec fn spacecraft_params() -> Seq<StateParameter> {
    orbit_params().push(StateParameter::FuelMass)
}

impl<T: Scalar> Orbit<T> {
    /// The orbit with `param` set to `value`, for a parameter of position or
    /// velocity; none for any other.
    pub open spec fn with_value(self, param: StateParameter, value: T) -> Option<Self> {
        match param {
            StateParameter::X => Some(Orbit { x: value, ..self }),
            StateParameter::Y => Some(Orbit { y: value, ..self }),
            StateParameter::Z => Some(Orbit { z: value, ..self }),
            StateParameter::VX => Some(Orbit { vx: value, ..self }),
            StateParameter::VY => Some(Orbit { vy: value, ..self }),
            StateParameter::VZ => Some(Orbit { vz: value, ..self }),
            _ => None,
        }
    }

    /// Whether `other` is an orbit at `epoch` in the frame of this orbit,
    /// around the same centre.
    pub open spec fn moved_to(self, other: Self, epoch: Epoch) -> bool {
        other.dt == epoch && other.frame == self.frame && other.gm == self.gm
    }

    /// Whether an interpolation can be made from so many states: from one at
    /// least, and from no more than a window holds.
    pub open spec fn window_fits(len: nat) -> bool {
        0 < len <= INTERPOLATION_SAMPLES
    }

    /// The error of an interpolation to `epoch` from a window of the wrong
    /// size.
    pub open spec fn no_window(epoch: Epoch) -> NyxError {
        NyxError::Trajectory(TrajError::NoInterpolationData(epoch))
    }

    /// Whether `a` is the acceleration of the orbit along the axis on which
    /// it stands at `along`: that which the centre of its frame gives it.
    pub open spec fn accelerates(self, along: T, a: T) -> bool {
        T::is_central_acceleration(self.gm, self.x, self.y, self.z, along, a)
    }

    /// The position or the velocity of the orbit along an axis.
    pub open spec fn component(self, param: StateParameter) -> T {
        match param {
            StateParameter::X => self.x,
            StateParameter::Y => self.y,
            StateParameter::Z => self.z,
            StateParameter::VX => self.vx,
            StateParameter::VY => self.vy,
            _ => self.vz,
        }
    }

    /// The positions or the velocities of `states` along an axis, in order.
    pub open spec fn along(states: Seq<Self>, param: StateParameter) -> Seq<T> {
        Seq::new(states.len(), |i: int| states[i].component(param))
    }

    /// Whether `ts` holds, for each of `states` in order, the seconds of its
    /// instant in barycentric dynamical time.
    pub open spec fn timed(states: Seq<Self>, ts: Seq<T>) -> bool {
        &&& ts.len() == states.len()
        &&& forall|i: int| 0 <= i < ts.len() ==> T::is_tdb_seconds(states[i].dt, #[trigger] ts[i])
    }

    /// Whether `r` is the orbit at `epoch` with its position and velocity
    /// along each axis interpolated at `t` from those of `states` at the
    /// abscissas `ts`, or the error of one of the three interpolations.
    pub open spec fn fitted(
        self,
        epoch: Epoch,
        states: Seq<Self>,
        ts: Seq<T>,
        t: T,
        r: Result<Self, NyxError>,
    ) -> bool {
        let x = Self::along(states, StateParameter::X);
        let y = Self::along(states, StateParameter::Y);
        let z = Self::along(states, StateParameter::Z);
        let vx = Self::along(states, StateParameter::VX);
        let vy = Self::along(states, StateParameter::VY);
        let vz = Self::along(states, StateParameter::VZ);
        match r {
            Ok(orbit) => {
                &&& self.moved_to(orbit, epoch)
                &&& T::is_hermite(ts, x, vx, t, Ok((orbit.x, orbit.vx)))
                &&& T::is_hermite(ts, y, vy, t, Ok((orbit.y, orbit.vy)))
                &&& T::is_hermite(ts, z, vz, t, Ok((orbit.z, orbit.vz)))
            },
            Err(e) => {
                ||| T::is_hermite(ts, x, vx, t, Err(e))
                ||| T::is_hermite(ts, y, vy, t, Err(e))
                ||| T::is_hermite(ts, z, vz, t, Err(e))
            },
        }
    }

    /// Whether `r` is the orbit interpolated to `epoch` from `states`, where
    /// `ts` are the seconds of the instants of `states` and `t` those of
    /// `epoch`, all in barycentric dynamical time.
    pub open spec fn interpolation(
        self,
        epoch: Epoch,
        states: Seq<Self>,
        ts: Seq<T>,
        t: T,
        r: Result<Self, NyxError>,
    ) -> bool {
        Self::timed(states, ts) && T::is_tdb_seconds(epoch, t) && self.fitted(
            epoch,
            states,
            ts,
            t,
            r,
        )
    }
}

impl<T: Scalar> State for Orbit<T> {
    /// The instant of an orbit is the one that it holds.
    open spec fn tagged(&self, epoch: Epoch) -> bool {
        epoch == self.dt
    }

    fn epoch(&self) -> (epoch: Epoch) {
        self.dt
    }
}

impl<T: Scalar> InterpState for Orbit<T> {
    type Scalar = T;

    /// A position comes with the velocity along its axis; a velocity comes
    /// with the acceleration along its axis, which the centre of the frame
    /// gives the orbit; any other parameter is unavailable.
    open spec fn has_value_and_deriv(&self, param: StateParameter, r: Result<(T, T), NyxError>) -> bool {
        match param {
            StateParameter::X => r == Ok::<(T, T), NyxError>((self.x, self.vx)),
            StateParameter::Y => r == Ok::<(T, T), NyxError>((self.y, self.vy)),
            StateParameter::Z => r == Ok::<(T, T), NyxError>((self.z, self.vz)),
            StateParameter::VX => r is Ok && r->Ok_0.0 == self.vx && self.accelerates(
                self.x,
                r->Ok_0.1,
            ),
            StateParameter::VY => r is Ok && r->Ok_0.0 == self.vy && self.accelerates(
                self.y,
                r->Ok_0.1,
            ),
            StateParameter::VZ => r is Ok && r->Ok_0.0 == self.vz && self.accelerates(
                self.z,
                r->Ok_0.1,
            ),
            _ => r == Err::<(T, T), NyxError>(NyxError::StateParameterUnavailable),
        }
    }

    /// The derivative of a position is the velocity along its axis; that of
    /// a velocity is the acceleration along its axis.
    open spec fn has_deriv(&self, param: StateParameter, r: Result<T, NyxError>) -> bool {
        match param {
            StateParameter::X => r == Ok::<T, NyxError>(self.vx),
            StateParameter::Y => r == Ok::<T, NyxError>(self.vy),
            StateParameter::Z => r == Ok::<T, NyxError>(self.vz),
            StateParameter::VX => r is Ok && self.accelerates(self.x, r->Ok_0),
            StateParameter::VY => r is Ok && self.accelerates(self.y, r->Ok_0),
            StateParameter::VZ => r is Ok && self.accelerates(self.z, r->Ok_0),
            _ => r == Err::<T, NyxError>(NyxError::StateParameterUnavailable),
        }
    }

    /// A parameter of position or velocity takes the value and nothing else
    /// changes; any other parameter is unavailable and nothing changes.
    open spec fn value_set(
        &self,
        param: StateParameter,
        value: T,
        value_dt: T,
        after: Self,
        r: Result<(), NyxError>,
    ) -> bool {
        match self.with_value(param, value) {
            Some(orbit) => r == Ok::<(), NyxError>(()) && after == orbit,
            None => r == Err::<(), NyxError>(NyxError::StateParameterUnavailable) && after
                == *self,
        }
    }

    /// An interpolated orbit is at the instant that was asked for, in the
    /// frame and around the centre of the orbit that it was made from. Its
    /// position and its velocity along each axis are the value and the
    /// derivative of the Hermite polynomial through the positions and the
    /// velocities of the states along that axis. From no state, or from more
    /// states than a window holds, there is no interpolation.
    open spec fn interpolated(self, epoch: Epoch, states: Seq<Self>, r: Result<Self, NyxError>) -> bool {
        if Self::window_fits(states.len()) {
            exists|ts: Seq<T>, t: T| #[trigger] self.interpolation(epoch, states, ts, t, r)
        } else {
            r == Err::<Self, NyxError>(Self::no_window(epoch))
        }
    }

    fn params() -> (r: Vec<StateParameter>)
        ensures
            r@ == orbit_params(),
    {
        let mut r = Vec::new();
        r.push(StateParameter::X);
        r.push(StateParameter::Y);
        r.push(StateParameter::Z);
        r.push(StateParameter::VX);
        r.push(StateParameter::VY);
        r.push(StateParameter::VZ);
        assert(r@ =~= orbit_params());
        r
    }

    fn value_and_deriv(&self, param: &StateParameter) -> (r: Result<(T, T), NyxError>) {
        let r = match *param {
            StateParameter::X => Ok((self.x, self.vx)),
            StateParameter::Y => Ok((self.y, self.vy)),
            StateParameter::Z => Ok((self.z, self.vz)),
            StateParameter::VX => Ok(
                (self.vx, T::central_acceleration(self.gm, self.x, self.y, self.z, self.x)),
            ),
            StateParameter::VY => Ok(
                (self.vy, T::central_acceleration(self.gm, self.x, self.y, self.z, self.y)),
            ),
            StateParameter::VZ => Ok(
                (self.vz, T::central_acceleration(self.gm, self.x, self.y, self.z, self.z)),
            ),
            _ => Err(NyxError::StateParameterUnavailable),
        };
        assert(self.has_value_and_deriv(*param, r));
        r
    }

    fn set_value_and_deriv(&mut self, param: &StateParameter, value: T, value_dt: T) -> (r: Result<
        (),
        NyxError,
    >) {
        match *param {
            StateParameter::X => {
                self.x = value;
            },
            StateParameter::Y => {
                self.y = value;
            },
            StateParameter::Z => {
                self.z = value;
            },
            StateParameter::VX => {
                self.vx = value;
            },
            StateParameter::VY => {
                self.vy = value;
            },
            StateParameter::VZ => {
                self.vz = value;
            },
            _ => {
                return Err(NyxError::StateParameterUnavailable);
            },
        }
        Ok(())
    }

    fn interpolate(self, epoch: Epoch, states: &[Self]) -> (r: Result<Self, NyxError>) {
        if states.len() == 0 || states.len() > INTERPOLATION_SAMPLES {
            return Err(NyxError::Trajectory(TrajError::NoInterpolationData(epoch)));
        }
        let mut epochs_tdb: Vec<T> = Vec::new();
        let mut xs: Vec<T> = Vec::new();
        let mut ys: Vec<T> = Vec::new();
        let mut zs: Vec<T> = Vec::new();
        let mut vxs: Vec<T> = Vec::new();
        let mut vys: Vec<T> = Vec::new();
        let mut vzs: Vec<T> = Vec::new();
        let mut cno: usize = 0;
        while cno < states.len()
            invariant
                cno <= states@.len(),
                Self::timed(states@.take(cno as int), epochs_tdb@),
                xs@ == Self::along(states@.take(cno as int), StateParameter::X),
                ys@ == Self::along(states@.take(cno as int), StateParameter::Y),
                zs@ == Self::along(states@.take(cno as int), StateParameter::Z),
                vxs@ == Self::along(states@.take(cno as int), StateParameter::VX),
                vys@ == Self::along(states@.take(cno as int), StateParameter::VY),
                vzs@ == Self::along(states@.take(cno as int), StateParameter::VZ),
            decreases states@.len() - cno,
        {
            let state = states[cno];
            xs.push(state.x);
            ys.push(state.y);
            zs.push(state.z);
            vxs.push(state.vx);
            vys.push(state.vy);
            vzs.push(state.vz);
            epochs_tdb.push(T::tdb_seconds(state.dt));
            proof {
                let longer = states@.take(cno as int + 1);
                assert(longer[cno as int] == state);
                assert forall|i: int| 0 <= i < cno implies longer[i] == states@.take(
                    cno as int,
                )[i] by {}
                assert(xs@ =~= Self::along(longer, StateParameter::X));
                assert(ys@ =~= Self::along(longer, StateParameter::Y));
                assert(zs@ =~= Self::along(longer, StateParameter::Z));
                assert(vxs@ =~= Self::along(longer, StateParameter::VX));
                assert(vys@ =~= Self::along(longer, StateParameter::VY));
                assert(vzs@ =~= Self::along(longer, StateParameter::VZ));
            }
            cno = cno + 1;
        }
        assert(states@.take(cno as int) =~= states@);
        let x_eval = T::tdb_seconds(epoch);
        let (x_km, vx_km_s) = match T::hermite_eval(
            epochs_tdb.as_slice(),
            xs.as_slice(),
            vxs.as_slice(),
            x_eval,
        ) {
            Ok(pair) => pair,
            Err(e) => {
                assert(self.interpolation(epoch, states@, epochs_tdb@, x_eval, Err(e)));
                return Err(e);
            },
        };
        let (y_km, vy_km_s) = match T::hermite_eval(
            epochs_tdb.as_slice(),
            ys.as_slice(),
            vys.as_slice(),
            x_eval,
        ) {
            Ok(pair) => pair,
            Err(e) => {
                assert(self.interpolation(epoch, states@, epochs_tdb@, x_eval, Err(e)));
                return Err(e);
            },
        };
        let (z_km, vz_km_s) = match T::hermite_eval(
            epochs_tdb.as_slice(),
            zs.as_slice(),
            vzs.as_slice(),
            x_eval,
        ) {
            Ok(pair) => pair,
            Err(e) => {
                assert(self.interpolation(epoch, states@, epochs_tdb@, x_eval, Err(e)));
                return Err(e);
            },
        };
        let mut me = self;
        me.dt = epoch;
        me.x = x_km;
        me.y = y_km;
        me.z = z_km;
        me.vx = vx_km_s;
        me.vy = vy_km_s;
        me.vz = vz_km_s;
        assert(self.interpolation(epoch, states@, epochs_tdb@, x_eval, Ok(me)));
        Ok(me)
    }
}

impl<T: Scalar> Spacecraft<T> {
    /// The spacecraft on another orbit.
    pub fn with_orbit(self, orbit: Orbit<T>) -> (sc: Self)
        ensures
            sc == (Spacecraft { orbit, ..self }),
    {
        let mut me = self;
        me.orbit = orbit;
        me
    }

    /// Whether `param` is a mass or a coefficient, which is never negative.
    pub open spec fn never_negative(param: StateParameter) -> bool {
        param == StateParameter::FuelMass || param == StateParameter::Cr || param
            == StateParameter::Cd
    }

    /// The spacecraft with `param` set to `value`, for a parameter of
    /// position or velocity, the fuel mass or one of the two coefficients;
    /// none for any other.
    pub open spec fn with_value(self, param: StateParameter, value: T) -> Option<Self> {
        match param {
            StateParameter::Cr => Some(Spacecraft { cr: value, ..self }),
            StateParameter::Cd => Some(Spacecraft { cd: value, ..self }),
            StateParameter::FuelMass => Some(Spacecraft { fuel_mass_kg: value, ..self }),
            _ => match self.orbit.with_value(param, value) {
                Some(orbit) => Some(Spacecraft { orbit, ..self }),
                None => None,
            },
        }
    }

    /// Whether `other` is this spacecraft but for its orbit and its fuel
    /// mass.
    pub open spec fn same_but_state(self, other: Self) -> bool {
        &&& other.dry_mass_kg == self.dry_mass_kg
        &&& other.srp_area_m2 == self.srp_area_m2
        &&& other.cr == self.cr
        &&& other.cd == self.cd
    }

    /// The orbits of `states`, in order.
    pub open spec fn orbits(states: Seq<Self>) -> Seq<Orbit<T>> {
        Seq::new(states.len(), |i: int| states[i].orbit)
    }

    /// Whether `fuel` is the value at `t` of the line through the fuel
    /// masses of the first and of the last of `states`, where `t0`, `t1` and
    /// `t` are the seconds of the instants of these two and of `epoch`.
    pub open spec fn fuel_line(states: Seq<Self>, epoch: Epoch, t0: T, t1: T, t: T, fuel: T) -> bool {
        &&& T::is_tdb_seconds(states.first().orbit.dt, t0)
        &&& T::is_tdb_seconds(states.last().orbit.dt, t1)
        &&& T::is_tdb_seconds(epoch, t)
        &&& T::is_lerp(t0, states.first().fuel_mass_kg, t1, states.last().fuel_mass_kg, t, fuel)
    }

    /// Whether `fuel` is the fuel mass interpolated to `epoch`: on the line
    /// through the fuel masses of the first and of the last of `states`.
    pub open spec fn refuelled(epoch: Epoch, states: Seq<Self>, fuel: T) -> bool {
        exists|t0: T, t1: T, t: T| #[trigger] Self::fuel_line(states, epoch, t0, t1, t, fuel)
    }
}

impl<T: Scalar> State for Spacecraft<T> {
    /// The instant of a spacecraft is that of its orbit.
    open spec fn tagged(&self, epoch: Epoch) -> bool {
        epoch == self.orbit.dt
    }

    fn epoch(&self) -> (epoch: Epoch) {
        self.orbit.dt
    }
}

impl<T: Scalar> InterpState for Spacecraft<T> {
    type Scalar = T;

    /// The position and the velocity are those of the orbit, with their
    /// derivatives; the fuel mass comes with the zero of the scalars; any
    /// other parameter is unavailable.
    open spec fn has_value_and_deriv(&self, param: StateParameter, r: Result<(T, T), NyxError>) -> bool {
        match param {
            StateParameter::FuelMass => r is Ok && r->Ok_0.0 == self.fuel_mass_kg && T::is_zero(
                r->Ok_0.1,
            ),
            _ => self.orbit.has_value_and_deriv(param, r),
        }
    }

    /// The derivatives of position and velocity are those of the orbit; that
    /// of the fuel mass is the zero of the scalars.
    open spec fn has_deriv(&self, param: StateParameter, r: Result<T, NyxError>) -> bool {
        match param {
            StateParameter::FuelMass => r is Ok && T::is_zero(r->Ok_0),
            _ => self.orbit.has_deriv(param, r),
        }
    }

    /// A parameter of position or velocity takes the value and nothing else
    /// changes. The fuel mass or a coefficient takes a value that is a
    /// number at or above zero; any other value is refused and nothing
    /// changes. Any other parameter is unavailable and nothing changes.
    open spec fn value_set(
        &self,
        param: StateParameter,
        value: T,
        value_dt: T,
        after: Self,
        r: Result<(), NyxError>,
    ) -> bool {
        match self.with_value(param, value) {
            Some(sc) => if Self::never_negative(param) {
                ||| T::tells_non_negative(value, true) && r == Ok::<(), NyxError>(()) && after
                    == sc
                ||| T::tells_non_negative(value, false) && r == Err::<(), NyxError>(
                    NyxError::InvalidValue,
                ) && after == *self
            } else {
                r == Ok::<(), NyxError>(()) && after == sc
            },
            None => r == Err::<(), NyxError>(NyxError::StateParameterUnavailable) && after
                == *self,
        }
    }

    /// An interpolated spacecraft keeps all but the orbit and the fuel mass
    /// of the spacecraft that it was made from. Its orbit is interpolated
    /// from the orbits of the states, to the instant that was asked for, and
    /// its fuel mass lies on the line through the fuel masses of the first
    /// and the last state. The error of the interpolation is that of the
    /// orbit.
    open spec fn interpolated(self, epoch: Epoch, states: Seq<Self>, r: Result<Self, NyxError>) -> bool {
        match r {
            Ok(sc) => {
                &&& self.same_but_state(sc)
                &&& self.orbit.interpolated(epoch, Self::orbits(states), Ok(sc.orbit))
                &&& Self::refuelled(epoch, states, sc.fuel_mass_kg)
            },
            Err(e) => self.orbit.interpolated(epoch, Self::orbits(states), Err(e)),
        }
    }

    fn params() -> (r: Vec<StateParameter>)
        ensures
            r@ == spacecraft_params(),
    {
        let mut r = Orbit::<T>::params();
        r.push(StateParameter::FuelMass);
        r
    }

    fn value_and_deriv(&self, param: &StateParameter) -> (r: Result<(T, T), NyxError>) {
        let r = match *param {
            StateParameter::FuelMass => Ok((self.fuel_mass_kg, T::zero())),
            _ => self.orbit.value_and_deriv(param),
        };
        assert(self.has_value_and_deriv(*param, r));
        r
    }

    fn set_value_and_deriv(&mut self, param: &StateParameter, value: T, value_dt: T) -> (r: Result<
        (),
        NyxError,
    >) {
        match *param {
            StateParameter::X => {
                self.orbit.x = value;
            },
            StateParameter::Y => {
                self.orbit.y = value;
            },
            StateParameter::Z => {
                self.orbit.z = value;
            },
            StateParameter::VX => {
                self.orbit.vx = value;
            },
            StateParameter::VY => {
                self.orbit.vy = value;
            },
            StateParameter::VZ => {
                self.orbit.vz = value;
            },
            StateParameter::Cr => {
                if !value.is_non_negative() {
                    return Err(NyxError::InvalidValue);
                }
                self.cr = value;
            },
            StateParameter::Cd => {
                if !value.is_non_negative() {
                    return Err(NyxError::InvalidValue);
                }
                self.cd = value;
            },
            StateParameter::FuelMass => {
                if !value.is_non_negative() {
                    return Err(NyxError::InvalidValue);
                }
                self.fuel_mass_kg = value;
            },
            _ => {
                return Err(NyxError::StateParameterUnavailable);
            },
        }
        Ok(())
    }

    fn interpolate(self, epoch: Epoch, states: &[Self]) -> (r: Result<Self, NyxError>) {
        // The orbit is interpolated as orbits are.
        let mut orbits: Vec<Orbit<T>> = Vec::new();
        let mut cno: usize = 0;
        while cno < states.len()
            invariant
                cno <= states@.len(),
                orbits@ == Self::orbits(states@.take(cno as int)),
            decreases states@.len() - cno,
        {
            orbits.push(states[cno].orbit);
            proof {
                let longer = states@.take(cno as int + 1);
                assert forall|i: int| 0 <= i < cno implies longer[i] == states@.take(
                    cno as int,
                )[i] by {}
                assert(orbits@ =~= Self::orbits(longer));
            }
            cno = cno + 1;
        }
        assert(states@.take(cno as int) =~= states@);
        let orbit = match self.orbit.interpolate(epoch, orbits.as_slice()) {
            Ok(orbit) => orbit,
            Err(e) => {
                return Err(e);
            },
        };
        let mut me = self.with_orbit(orbit);
        // An orbit is interpolated from one state at least.
        assert(states@.len() > 0) by {
            assert(orbits@.len() == states@.len());
        }
        // The fuel mass lies on the line through the first and the last state.
        let first = states[0];
        let last = states[states.len() - 1];
        let t0 = T::tdb_seconds(first.orbit.dt);
        let t1 = T::tdb_seconds(last.orbit.dt);
        let t = T::tdb_seconds(epoch);
        me.fuel_mass_kg = T::lerp(t0, first.fuel_mass_kg, t1, last.fuel_mass_kg, t);
        assert(Self::fuel_line(states@, epoch, t0, t1, t, me.fuel_mass_kg));
        Ok(me)
    }
}

/// In a trajectory of orbits that holds each sample under the instant of
/// that sample, the state at an instant is an orbit at that instant, be it a
/// sample or interpolated.
pub proof fn lemma_orbit_at_its_instant<T: Scalar>(
    traj: Traj<Orbit<T>>,
    epoch: Epoch,
    state: Orbit<T>,
)
    requires
        forall|i: int|
            0 <= i < traj.states@.len() ==> (#[trigger] traj.states@[i]).1.dt == traj.states@[i].0,
        traj.has_state(epoch, state),
    ensures
        state.dt == epoch,
{
}

/// In a trajectory of spacecraft that holds each sample under the instant of
/// that sample, the state at an instant is a spacecraft at that instant, be
/// it a sample or interpolated.
pub proof fn lemma_spacecraft_at_its_instant<T: Scalar>(
    traj: Traj<Spacecraft<T>>,
    epoch: Epoch,
    state: Spacecraft<T>,
)
    requires
        forall|i: int|
            0 <= i < traj.states@.len() ==> (#[trigger] traj.states@[i]).1.orbit.dt
                == traj.states@[i].0,
        traj.has_state(epoch, state),
    ensures
        state.orbit.dt == epoch,
{
}

/// Whether the scalars compute functions: an instant has one number of
/// seconds, samples have one Hermite polynomial or one error, and a line has
/// one value at an abscissa.
pub open spec fn single_valued<T: Scalar>() -> bool {
    &&& forall|epoch: Epoch, a: T, b: T|
        #[trigger] T::is_tdb_seconds(epoch, a) && #[trigger] T::is_tdb_seconds(epoch, b) ==> a == b
    &&& forall|
        xs: Seq<T>,
        ys: Seq<T>,
        ydots: Seq<T>,
        x: T,
        a: Result<(T, T), NyxError>,
        b: Result<(T, T), NyxError>,
    |
        #[trigger] T::is_hermite(xs, ys, ydots, x, a) && #[trigger] T::is_hermite(
            xs,
            ys,
            ydots,
            x,
            b,
        ) ==> a == b
    &&& forall|x0: T, y0: T, x1: T, y1: T, x: T, a: T, b: T|
        #[trigger] T::is_lerp(x0, y0, x1, y1, x, a) && #[trigger] T::is_lerp(x0, y0, x1, y1, x, b)
            ==> a == b
}

/// There is one interpolation of an orbit from given states to a given
/// instant, where the scalars compute functions.
pub proof fn lemma_one_interpolated_orbit<T: Scalar>(
    seed: Orbit<T>,
    epoch: Epoch,
    states: Seq<Orbit<T>>,
    a: Result<Orbit<T>, NyxError>,
    b: Result<Orbit<T>, NyxError>,
)
    requires
        single_valued::<T>(),
        seed.interpolated(epoch, states, a),
        seed.interpolated(epoch, states, b),
        a is Ok,
        b is Ok,
    ensures
        a == b,
{
    let (ts1, t1) = choose|ts: Seq<T>, t: T| #[trigger] seed.interpolation(epoch, states, ts, t, a);
    let (ts2, t2) = choose|ts: Seq<T>, t: T| #[trigger] seed.interpolation(epoch, states, ts, t, b);
    assert forall|i: int| 0 <= i < ts1.len() implies ts1[i] == ts2[i] by {
        assert(T::is_tdb_seconds(states[i].dt, ts1[i]));
        assert(T::is_tdb_seconds(states[i].dt, ts2[i]));
    }
    assert(ts1 =~= ts2);
    assert(t1 == t2);
    let (p, q) = (a->Ok_0, b->Ok_0);
    let x = Orbit::along(states, StateParameter::X);
    let y = Orbit::along(states, StateParameter::Y);
    let z = Orbit::along(states, StateParameter::Z);
    let vx = Orbit::along(states, StateParameter::VX);
    let vy = Orbit::along(states, StateParameter::VY);
    let vz = Orbit::along(states, StateParameter::VZ);
    assert(T::is_hermite(ts1, x, vx, t1, Ok((p.x, p.vx))));
    assert(T::is_hermite(ts1, x, vx, t1, Ok((q.x, q.vx))));
    assert(Ok::<(T, T), NyxError>((p.x, p.vx)) == Ok::<(T, T), NyxError>((q.x, q.vx)));
    assert(T::is_hermite(ts1, y, vy, t1, Ok((p.y, p.vy))));
    assert(T::is_hermite(ts1, y, vy, t1, Ok((q.y, q.vy))));
    assert(Ok::<(T, T), NyxError>((p.y, p.vy)) == Ok::<(T, T), NyxError>((q.y, q.vy)));
    assert(T::is_hermite(ts1, z, vz, t1, Ok((p.z, p.vz))));
    assert(T::is_hermite(ts1, z, vz, t1, Ok((q.z, q.vz))));
    assert(Ok::<(T, T), NyxError>((p.z, p.vz)) == Ok::<(T, T), NyxError>((q.z, q.vz)));
    assert(p == q);
}

/// There is one interpolation of a spacecraft from given states to a given
/// instant, where the scalars compute functions.
pub proof fn lemma_one_interpolated_spacecraft<T: Scalar>(
    seed: Spacecraft<T>,
    epoch: Epoch,
    states: Seq<Spacecraft<T>>,
    a: Spacecraft<T>,
    b: Spacecraft<T>,
)
    requires
        single_valued::<T>(),
        seed.interpolated(epoch, states, Ok(a)),
        seed.interpolated(epoch, states, Ok(b)),
    ensures
        a == b,
{
    lemma_one_interpolated_orbit(
        seed.orbit,
        epoch,
        Spacecraft::orbits(states),
        Ok(a.orbit),
        Ok(b.orbit),
    );
    let (p0, p1, p) = choose|t0: T, t1: T, t: T| #[trigger]
        Spacecraft::fuel_line(states, epoch, t0, t1, t, a.fuel_mass_kg);
    let (q0, q1, q) = choose|t0: T, t1: T, t: T| #[trigger]
        Spacecraft::fuel_line(states, epoch, t0, t1, t, b.fuel_mass_kg);
    assert(p0 == q0 && p1 == q1 && p == q);
    assert(a.fuel_mass_kg == b.fuel_mass_kg);
}

/// Orbits have one interpolation at most, where the scalars compute
/// functions; so a trajectory of orbits has one state at each instant.
pub proof fn lemma_orbits_interpolate_once<T: Scalar>()
    requires
        single_valued::<T>(),
    ensures
        Traj::<Orbit<T>>::one_interpolation(),
{
    assert forall|seed: Orbit<T>, epoch: Epoch, states: Seq<Orbit<T>>, a: Orbit<T>, b: Orbit<T>|
        #[trigger] seed.interpolated(epoch, states, Ok(a)) && #[trigger] seed.interpolated(
            epoch,
            states,
            Ok(b),
        ) implies a == b by {
        lemma_one_interpolated_orbit(seed, epoch, states, Ok(a), Ok(b));
    }
}

/// Spacecraft have one interpolation at most, where the scalars compute
/// functions; so a trajectory of spacecraft has one state at each instant.
pub proof fn lemma_spacecraft_interpolate_once<T: Scalar>()
    requires
        single_valued::<T>(),
    ensures
        Traj::<Spacecraft<T>>::one_interpolation(),
{
    assert forall|
        seed: Spacecraft<T>,
        epoch: Epoch,
        states: Seq<Spacecraft<T>>,
        a: Spacecraft<T>,
        b: Spacecraft<T>,
    |
        #[trigger] seed.interpolated(epoch, states, Ok(a)) && #[trigger] seed.interpolated(
            epoch,
            states,
            Ok(b),
        ) implies a == b by {
        lemma_one_interpolated_spacecraft(seed, epoch, states, a, b);
    }
}

/// The state of a trajectory of orbits at the instant of one of its states
/// is that state again, be it a sample or interpolated, where the trajectory
/// holds each sample under the instant of that sample and the scalars
/// compute functions.
pub proof fn lemma_orbit_again_at_its_instant<T: Scalar>(
    traj: Traj<Orbit<T>>,
    epoch: Epoch,
    state: Orbit<T>,
    again: Orbit<T>,
)
    requires
        traj.wf(),
        single_valued::<T>(),
        forall|i: int|
            0 <= i < traj.states@.len() ==> (#[trigger] traj.states@[i]).1.dt == traj.states@[i].0,
        traj.has_state(epoch, state),
        traj.has_state(state.dt, again),
    ensures
        again == state,
{
    lemma_orbit_at_its_instant(traj, epoch, state);
    lemma_orbits_interpolate_once::<T>();
    traj.lemma_one_state_at_each_instant();
}

/// The state of a trajectory of spacecraft at the instant of one of its
/// states is that state again, under the same conditions.
pub proof fn lemma_spacecraft_again_at_its_instant<T: Scalar>(
    traj: Traj<Spacecraft<T>>,
    epoch: Epoch,
    state: Spacecraft<T>,
    again: Spacecraft<T>,
)
    requires
        traj.wf(),
        single_valued::<T>(),
        forall|i: int|
            0 <= i < traj.states@.len() ==> (#[trigger] traj.states@[i]).1.orbit.dt
                == traj.states@[i].0,
        traj.has_state(epoch, state),
        traj.has_state(state.orbit.dt, again),
    ensures
        again == state,
{
    lemma_spacecraft_at_its_instant(traj, epoch, state);
    lemma_spacecraft_interpolate_once::<T>();
    traj.lemma_one_state_at_each_instant();
}

} // verus!
