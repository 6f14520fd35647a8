//! Instants and spans of time as plain integers, and the `hifitime`
//! operations that the library relies on.
//!
//! A span is held as the two parts of a `hifitime::Duration`, an instant as
//! its span since the TAI reference epoch of 1900. Comparisons are done here;
//! everything else is done by `hifitime`, and each function that calls it
//! says in its contract what the library assumes of the call.

use vstd::prelude::*;

verus! {

/// Number of nanoseconds in one Julian century of 36 525 days.
pub const NANOSECONDS_PER_CENTURY: u64 = 3_155_760_000_000_000_000;

/// A signed span of time: a number of centuries and the nanoseconds into
/// that century.
#[derive(Clone, Copy, Debug, PartialEq, Eq, Structural)]
pub struct Duration {
    pub centuries: i16,
    pub nanoseconds: u64,
}

/// An instant: the span since the TAI reference epoch of 1900.
#[derive(Clone, Copy, Debug, PartialEq, Eq, Structural)]
pub struct Epoch {
    pub duration_since_j1900_tai: Duration,
}

/// The least value of `Duration::total` on a normalised span.
pub open spec fn min_total() -> int {
    -32768 * (NANOSECONDS_PER_CENTURY as int)
}

/// The greatest value of `Duration::total` on a normalised span.
pub open spec fn max_total() -> int {
    32768 * (NANOSECONDS_PER_CENTURY as int)
}

impl Duration {
    /// A span is normalised when its nanoseconds stay within the century;
    /// the one exception is the greatest span of all.
    pub open spec fn wf(self) -> bool {
        self.nanoseconds < NANOSECONDS_PER_CENTURY || (self.centuries == i16::MAX
            && self.nanoseconds == NANOSECONDS_PER_CENTURY)
    }

    /// The span in nanoseconds.
    pub open spec fn total(self) -> int {
        self.centuries * (NANOSECONDS_PER_CENTURY as int) + self.nanoseconds
    }

    /// The order of spans: by centuries, then by nanoseconds.
    pub open spec fn spec_lt(self, other: Duration) -> bool {
        self.centuries < other.centuries || (self.centuries == other.centuries && self.nanoseconds
            < other.nanoseconds)
    }

    /// What `truncated_nanoseconds` gives for a normalised span: its total
    /// where the span lies within three centuries of zero and the total fits
    /// 64 bits, and else the 64-bit bound on the side of its sign.
    pub open spec fn spec_truncated_nanoseconds(self) -> int {
        if self.centuries < -2 {
            i64::MIN as int
        } else if self.centuries > 2 || self.total() > i64::MAX {
            i64::MAX as int
        } else {
            self.total()
        }
    }

    /// Whether `self` is strictly shorter than `other`.
    pub fn lt(&self, other: &Duration) -> (r: bool)
        ensures
            r == self.spec_lt(*other),
    {
        self.centuries < other.centuries || (self.centuries == other.centuries && self.nanoseconds
            < other.nanoseconds)
    }

    /// Whether `self` is at most as long as `other`.
    pub fn le(&self, other: &Duration) -> (r: bool)
        ensures
            r == !other.spec_lt(*self),
    {
        !other.lt(self)
    }

    /// Whether `self` is strictly longer than `other`.
    pub fn gt(&self, other: &Duration) -> (r: bool)
        ensures
            r == other.spec_lt(*self),
    {
        other.lt(self)
    }

    /// The span in nanoseconds, as a machine integer.
    pub fn total_nanoseconds(&self) -> (t: i128)
        ensures
            t == self.total(),
    {
        let c: i128 = self.centuries as i128;
        let n: i128 = self.nanoseconds as i128;
        let per: i128 = NANOSECONDS_PER_CENTURY as i128;
        assert(-32768 * 3_155_760_000_000_000_000 <= c * per <= 32767 * 3_155_760_000_000_000_000)
            by (nonlinear_arith)
            requires
                -32768 <= c <= 32767,
                per == 3_155_760_000_000_000_000,
        ;
        c * per + n
    }

    /// Whether the span is normalised.
    pub fn is_wf(&self) -> (r: bool)
        ensures
            r == self.wf(),
    {
        self.nanoseconds < NANOSECONDS_PER_CENTURY || (self.centuries == i16::MAX
            && self.nanoseconds == NANOSECONDS_PER_CENTURY)
    }
}

impl Epoch {
    /// An instant is well formed when its span since the reference is
    /// normalised.
    pub open spec fn wf(self) -> bool {
        self.duration_since_j1900_tai.wf()
    }

    /// Nanoseconds since the reference epoch.
    pub open spec fn total(self) -> int {
        self.duration_since_j1900_tai.total()
    }

    /// The order of instants: that of their spans since the reference.
    pub open spec fn spec_lt(self, other: Epoch) -> bool {
        self.duration_since_j1900_tai.spec_lt(other.duration_since_j1900_tai)
    }

    /// What subtracting `other` from `self` gives, for well-formed instants:
    /// the span between them, held at the least span from below. Where the
    /// centuries alone differ by more than 32 767 upwards, it is the least
    /// span too.
    pub open spec fn spec_sub(self, other: Epoch) -> Duration {
        let d = self.total() - other.total();
        if self.duration_since_j1900_tai.centuries - other.duration_since_j1900_tai.centuries
            > i16::MAX || d <= min_total() {
            Duration { centuries: i16::MIN, nanoseconds: 0 }
        } else {
            duration_of_total(d)
        }
    }

    /// Whether `self` lies strictly before `other`.
    pub fn lt(&self, other: &Epoch) -> (r: bool)
        ensures
            r == self.spec_lt(*other),
    {
        self.duration_since_j1900_tai.lt(&other.duration_since_j1900_tai)
    }

    /// Whether `self` lies strictly after `other`.
    pub fn gt(&self, other: &Epoch) -> (r: bool)
        ensures
            r == other.spec_lt(*self),
    {
        other.duration_since_j1900_tai.lt(&self.duration_since_j1900_tai)
    }

    /// Nanoseconds since the reference epoch, as a machine integer.
    pub fn total_nanoseconds(&self) -> (t: i128)
        ensures
            t == self.total(),
    {
        self.duration_since_j1900_tai.total_nanoseconds()
    }

    /// Whether the instant is well formed.
    pub fn is_wf(&self) -> (r: bool)
        ensures
            r == self.wf(),
    {
        self.duration_since_j1900_tai.is_wf()
    }
}

/// The normalised span of `t` nanoseconds, for `t` from `min_total()` to
/// `max_total()`.
pub open spec fn duration_of_total(t: int) -> Duration {
    if t >= max_total() {
        Duration { centuries: i16::MAX, nanoseconds: NANOSECONDS_PER_CENTURY }
    } else {
        Duration {
            centuries: (t / (NANOSECONDS_PER_CENTURY as int)) as i16,
            nanoseconds: (t % (NANOSECONDS_PER_CENTURY as int)) as u64,
        }
    }
}

/// The instant that lies `t` nanoseconds after the reference epoch.
pub open spec fn epoch_of_total(t: int) -> Epoch {
    Epoch { duration_since_j1900_tai: duration_of_total(t) }
}

/// The instants of an evenly spaced series that starts at `start`, advances
/// by `step` and stops with the last instant that is not after `end`.
pub open spec fn ticks(start: Epoch, end: Epoch, step: Duration) -> Seq<Epoch> {
    Seq::new(
        ((end.total() - start.total()) / step.total() + 1) as nat,
        |k: int| epoch_of_total(start.total() + k * step.total()),
    )
}

/// Whether `hifitime` can walk the series from `start` to `end` by `step`
/// without reaching the bounds of its spans or of its 64-bit counter.
pub open spec fn series_in_range(start: Epoch, end: Epoch, step: Duration) -> bool {
    &&& start.wf()
    &&& end.wf()
    &&& step.wf()
    &&& step.total() > 0
    &&& start.total() <= end.total()
    &&& end.total() - start.total() < 32767 * (NANOSECONDS_PER_CENTURY as int)
    &&& (end.total() - start.total()) / step.total() < i64::MAX
}

/// The text that `hifitime` prints for the instant whose TAI span since 1900
/// is built from these parts.
pub uninterp spec fn epoch_display(centuries: i16, nanoseconds: u64) -> Seq<char>;

/// The text that `hifitime` prints for the span built from these parts.
pub uninterp spec fn duration_display(centuries: i16, nanoseconds: u64) -> Seq<char>;

/// The text that `hifitime` prints for a series of instants.
pub uninterp spec fn time_series_display(series: hifitime::TimeSeries) -> Seq<char>;

/// The instants that a `hifitime::TimeSeries` has yet to yield, in order.
pub uninterp spec fn remaining_epochs(series: hifitime::TimeSeries) -> Seq<Epoch>;

/// Whether a `hifitime::TimeSeries` comes to an end: whether it yields
/// finitely many instants, as a series with a positive step does.
pub uninterp spec fn series_ends(series: hifitime::TimeSeries) -> bool;

/// `hifitime::TimeSeries`, an iterator over evenly spaced instants, of which
/// the library sees nothing but what the three names above say.
#[verifier::external_type_specification]
#[verifier::external_body]
pub struct ExTimeSeries(hifitime::TimeSeries);

/// Calls `hifitime::Duration::truncated_nanoseconds`. Assumed: a normalised
/// span within three centuries of zero whose total fits 64 bits gives that
/// total, any other the 64-bit bound on the side of its sign.
#[verifier::external_body]
pub(crate) fn truncated_nanoseconds(d: Duration) -> (ns: i64)
    requires
        d.wf(),
    ensures
        ns == d.spec_truncated_nanoseconds(),
{
    hifitime::Duration::from_parts(d.centuries, d.nanoseconds).truncated_nanoseconds()
}

/// Calls `hifitime::Duration::from_truncated_nanoseconds`. Assumed: the
/// result is the normalised span of exactly `ns` nanoseconds.
#[verifier::external_body]
pub(crate) fn from_truncated_nanoseconds(ns: i64) -> (d: Duration)
    ensures
        d.wf(),
        d.total() == ns,
{
    let (centuries, nanoseconds) = hifitime::Duration::from_truncated_nanoseconds(ns).to_parts();
    Duration { centuries, nanoseconds }
}

/// Calls the subtraction of two `hifitime::Epoch`s. Assumed: the result is
/// the normalised span between the two instants, held at the least span from
/// below; and it is the least span as well where the centuries of the two
/// differ by more than 32 767 upwards, in which case `hifitime` returns
/// early.
#[verifier::external_body]
pub(crate) fn epoch_sub(a: Epoch, b: Epoch) -> (d: Duration)
    requires
        a.wf(),
        b.wf(),
    ensures
        d == a.spec_sub(b),
{
    let lhs = hifitime::Epoch::from_tai_duration(
        hifitime::Duration::from_parts(
            a.duration_since_j1900_tai.centuries,
            a.duration_since_j1900_tai.nanoseconds,
        ),
    );
    let rhs = hifitime::Epoch::from_tai_duration(
        hifitime::Duration::from_parts(
            b.duration_since_j1900_tai.centuries,
            b.duration_since_j1900_tai.nanoseconds,
        ),
    );
    let (centuries, nanoseconds) = (lhs - rhs).to_parts();
    Duration { centuries, nanoseconds }
}

/// Calls `hifitime::TimeSeries::inclusive` on instants in the TAI scale.
/// Assumed: within `series_in_range` the series comes to an end, and yields
/// `start`, then every instant a whole number of steps later, up to and
/// including `end`.
#[verifier::external_body]
pub(crate) fn time_series_inclusive(start: Epoch, end: Epoch, step: Duration) -> (series:
    hifitime::TimeSeries)
    requires
        series_in_range(start, end, step),
    ensures
        series_ends(series),
        remaining_epochs(series) == ticks(start, end, step),
{
    let s = start.duration_since_j1900_tai;
    let e = end.duration_since_j1900_tai;
    hifitime::TimeSeries::inclusive(
        hifitime::Epoch::from_tai_duration(hifitime::Duration::from_parts(s.centuries, s.nanoseconds)),
        hifitime::Epoch::from_tai_duration(hifitime::Duration::from_parts(e.centuries, e.nanoseconds)),
        hifitime::Duration::from_parts(step.centuries, step.nanoseconds),
    )
}

/// Calls `clone` on a `hifitime::TimeSeries`. Assumed: the copy has the same
/// instants left to yield, and comes to an end if the series does.
#[verifier::external_body]
pub(crate) fn time_series_clone(series: &hifitime::TimeSeries) -> (copy: hifitime::TimeSeries)
    ensures
        series_ends(copy) == series_ends(*series),
        remaining_epochs(copy) == remaining_epochs(*series),
{
    series.clone()
}

/// Calls `next` on a `hifitime::TimeSeries` that comes to an end. Assumed:
/// it yields the first of the instants that are left and drops it from the
/// series, or yields nothing when none is left; and the series still comes
/// to an end. A series that never ends is left out: nothing finite says what
/// it has left.
#[verifier::external_body]
pub(crate) fn time_series_next(series: &mut hifitime::TimeSeries) -> (next: Option<Epoch>)
    requires
        series_ends(*old(series)),
    ensures
        series_ends(*final(series)),
        remaining_epochs(*old(series)).len() == 0 ==> next.is_none() && remaining_epochs(
            *final(series),
        ) == remaining_epochs(*old(series)),
        remaining_epochs(*old(series)).len() > 0 ==> next == Some(
            remaining_epochs(*old(series))[0],
        ) && remaining_epochs(*final(series)) == remaining_epochs(*old(series)).skip(1),
{
    match series.next() {
        Some(epoch) => {
            let (centuries, nanoseconds) = epoch.to_tai_parts();
            Some(Epoch { duration_since_j1900_tai: Duration { centuries, nanoseconds } })
        },
        None => None,
    }
}

/// Prints a series of instants with `hifitime`, which writes its first
/// instant, its end and its step. Assumed: the text depends on the series
/// alone.
#[verifier::external_body]
pub(crate) fn time_series_to_string(series: &hifitime::TimeSeries) -> (text: String)
    ensures
        text@ == time_series_display(*series),
{
    format!("{}", series)
}

/// Prints an instant with `hifitime`, which writes it as a UTC calendar
/// date. Assumed: the text depends on the instant alone.
#[verifier::external_body]
pub(crate) fn epoch_to_string(e: Epoch) -> (text: String)
    ensures
        text@ == epoch_display(
            e.duration_since_j1900_tai.centuries,
            e.duration_since_j1900_tai.nanoseconds,
        ),
{
    let d = e.duration_since_j1900_tai;
    format!(
        "{}",
        hifitime::Epoch::from_tai_duration(hifitime::Duration::from_parts(d.centuries, d.nanoseconds))
    )
}

/// Prints a span with `hifitime`, which writes it in days, hours and
/// smaller units. Assumed: the text depends on the span alone.
#[verifier::external_body]
pub(crate) fn duration_to_string(d: Duration) -> (text: String)
    ensures
        text@ == duration_display(d.centuries, d.nanoseconds),
{
    format!("{}", hifitime::Duration::from_parts(d.centuries, d.nanoseconds))
}

/// Instants in strictly increasing order, all well formed, and close enough
/// to each other for `hifitime` to tell the span between any two of them.
pub open spec fn series_wf(epochs: Seq<Epoch>) -> bool {
    &&& forall|i: int| 0 <= i < epochs.len() ==> (#[trigger] epochs[i]).wf()
    &&& forall|i: int, j: int|
        0 <= i < j < epochs.len() ==> 0 < (#[trigger] epochs[j]).total() - (
        #[trigger] epochs[i]).total() < 32767 * (NANOSECONDS_PER_CENTURY as int)
}

/// On normalised spans the order by centuries, then nanoseconds, is the
/// order of the totals, and equal totals mean equal spans.
pub proof fn lemma_order_is_total_order(a: Duration, b: Duration)
    requires
        a.wf(),
        b.wf(),
    ensures
        a.spec_lt(b) == (a.total() < b.total()),
        (a == b) == (a.total() == b.total()),
        min_total() <= a.total() <= max_total(),
{
    let n = NANOSECONDS_PER_CENTURY as int;
    if a.centuries < b.centuries {
        assert(b.centuries * n - a.centuries * n >= n) by (nonlinear_arith)
            requires
                b.centuries - a.centuries >= 1,
                n > 0,
        ;
    } else if b.centuries < a.centuries {
        assert(a.centuries * n - b.centuries * n >= n) by (nonlinear_arith)
            requires
                a.centuries - b.centuries >= 1,
                n > 0,
        ;
    }
    assert(-32768 * n <= a.centuries * n <= 32767 * n) by (nonlinear_arith)
        requires
            -32768 <= a.centuries <= 32767,
            n > 0,
    ;
}

/// `duration_of_total` gives the one normalised span with the given total.
pub proof fn lemma_duration_of_total(t: int)
    requires
        min_total() <= t <= max_total(),
    ensures
        duration_of_total(t).wf(),
        duration_of_total(t).total() == t,
{
    let n = NANOSECONDS_PER_CENTURY as int;
    if t < max_total() {
        let q = t / n;
        let r = t % n;
        assert(t == n * q + r && 0 <= r < n) by {
            vstd::arithmetic::div_mod::lemma_fundamental_div_mod(t, n);
            vstd::arithmetic::div_mod::lemma_mod_bound(t, n);
        }
        assert(-32768 <= q < 32768) by (nonlinear_arith)
            requires
                t == n * q + r,
                0 <= r < n,
                -32768 * n <= t < 32768 * n,
                n > 0,
        ;
        assert(q * n == n * q) by (nonlinear_arith);
    }
}

/// A normalised span is the one that `duration_of_total` gives for its total.
pub proof fn lemma_of_total_is_inverse(d: Duration)
    requires
        d.wf(),
    ensures
        duration_of_total(d.total()) == d,
{
    lemma_order_is_total_order(d, d);
    lemma_duration_of_total(d.total());
    lemma_order_is_total_order(duration_of_total(d.total()), d);
}

/// Between two well-formed instants that lie less than 32 767 centuries
/// apart, the later minus the earlier is exactly the span between them.
pub proof fn lemma_sub_exact(a: Epoch, b: Epoch)
    requires
        a.wf(),
        b.wf(),
        0 <= a.total() - b.total() < 32767 * (NANOSECONDS_PER_CENTURY as int),
    ensures
        a.spec_sub(b).wf(),
        a.spec_sub(b).total() == a.total() - b.total(),
{
    let n = NANOSECONDS_PER_CENTURY as int;
    let ac = a.duration_since_j1900_tai.centuries as int;
    let bc = b.duration_since_j1900_tai.centuries as int;
    let d = a.total() - b.total();
    assert(ac - bc <= 32767) by (nonlinear_arith)
        requires
            ac * n - bc * n <= d + n,
            d < 32767 * n,
            n > 0,
    ;
    lemma_duration_of_total(d);
}

/// The instants of a series that `hifitime` can walk are in strictly
/// increasing order, well formed, and none lies after the end.
pub proof fn lemma_ticks_series_wf(start: Epoch, end: Epoch, step: Duration)
    requires
        series_in_range(start, end, step),
    ensures
        series_wf(ticks(start, end, step)),
        ticks(start, end, step).len() > 0,
        ticks(start, end, step)[0] == start,
        forall|k: int|
            0 <= k < ticks(start, end, step).len() ==> (#[trigger] ticks(start, end, step)[k]).total()
                == start.total() + k * step.total() && ticks(start, end, step)[k].total()
                <= end.total(),
{
    let s = ticks(start, end, step);
    let span = end.total() - start.total();
    let st = step.total();
    lemma_order_is_total_order(start.duration_since_j1900_tai, end.duration_since_j1900_tai);
    assert(span == st * (span / st) + span % st && 0 <= span % st < st) by {
        vstd::arithmetic::div_mod::lemma_fundamental_div_mod(span, st);
        vstd::arithmetic::div_mod::lemma_mod_bound(span, st);
    }
    assert(span / st >= 0) by (nonlinear_arith)
        requires
            span == st * (span / st) + span % st,
            0 <= span % st < st,
            span >= 0,
            st > 0,
    ;
    assert forall|k: int| 0 <= k < s.len() implies (#[trigger] s[k]).wf() && s[k].total()
        == start.total() + k * st && s[k].total() <= end.total() by {
        assert(0 <= k * st <= span) by (nonlinear_arith)
            requires
                0 <= k <= span / st,
                span == st * (span / st) + span % st,
                0 <= span % st,
                st > 0,
        ;
        lemma_duration_of_total(start.total() + k * st);
    }
    assert forall|i: int, j: int| 0 <= i < j < s.len() implies 0 < (#[trigger] s[j]).total() - (
    #[trigger] s[i]).total() < 32767 * (NANOSECONDS_PER_CENTURY as int) by {
        assert(s[i].total() == start.total() + i * st);
        assert(s[j].total() == start.total() + j * st);
        assert(0 < j * st - i * st) by (nonlinear_arith)
            requires
                i < j,
                st > 0,
        ;
        assert(0 <= i * st) by (nonlinear_arith)
            requires
                0 <= i,
                st > 0,
        ;
    }
    lemma_of_total_is_inverse(start.duration_since_j1900_tai);
    assert(0 * st == 0);
}

} // verus!
