//! What the library takes for granted of the crates that it calls, held
//! against these crates.

use nyx_space::time::{Duration, NANOSECONDS_PER_CENTURY};

const NPC: i128 = NANOSECONDS_PER_CENTURY as i128;
const MIN_TOTAL: i128 = -32768 * NPC;
const MAX_TOTAL: i128 = 32768 * NPC;

fn total(parts: (i16, u64)) -> i128 {
    Duration { centuries: parts.0, nanoseconds: parts.1 }.total_nanoseconds()
}

// The normalised span of a total.
fn of_total(t: i128) -> (i16, u64) {
    if t >= MAX_TOTAL {
        (i16::MAX, NANOSECONDS_PER_CENTURY)
    } else {
        (t.div_euclid(NPC) as i16, t.rem_euclid(NPC) as u64)
    }
}

// Normalised spans: around zero, around the turns of centuries, at the bounds.
fn samples() -> Vec<(i16, u64)> {
    let mut parts = Vec::new();
    for centuries in [i16::MIN, i16::MIN + 1, -3, -2, -1, 0, 1, 2, 3, i16::MAX - 1, i16::MAX] {
        for nanoseconds in [
            0,
            1,
            59_999_999_999,
            60_000_000_000,
            NANOSECONDS_PER_CENTURY / 2,
            NANOSECONDS_PER_CENTURY - 1,
        ] {
            parts.push((centuries, nanoseconds));
        }
    }
    parts.push((i16::MAX, NANOSECONDS_PER_CENTURY));
    parts
}

#[test]
fn normalised_parts_pass_through_hifitime_unchanged() {
    for parts in samples() {
        assert_eq!(hifitime::Duration::from_parts(parts.0, parts.1).to_parts(), parts);
        assert!(Duration { centuries: parts.0, nanoseconds: parts.1 }.is_wf());
        assert_eq!(of_total(total(parts)), parts);
    }
}

#[test]
fn the_difference_of_two_instants_is_their_span_held_at_the_least_span() {
    for a in samples() {
        for b in samples() {
            let lhs = hifitime::Epoch::from_tai_duration(hifitime::Duration::from_parts(a.0, a.1));
            let rhs = hifitime::Epoch::from_tai_duration(hifitime::Duration::from_parts(b.0, b.1));
            let d = total(a) - total(b);
            let expected = if a.0 as i32 - b.0 as i32 > i16::MAX as i32 || d <= MIN_TOTAL {
                (i16::MIN, 0)
            } else {
                of_total(d)
            };
            assert_eq!((lhs - rhs).to_parts(), expected, "{a:?} - {b:?}");
        }
    }
}

#[test]
fn truncated_nanoseconds_are_the_total_within_64_bits() {
    for parts in samples() {
        let expected = if parts.0 < -2 {
            i64::MIN
        } else if parts.0 > 2 || total(parts) > i64::MAX as i128 {
            i64::MAX
        } else {
            total(parts) as i64
        };
        assert_eq!(
            hifitime::Duration::from_parts(parts.0, parts.1).truncated_nanoseconds(),
            expected,
            "{parts:?}"
        );
    }
}

#[test]
fn a_span_of_truncated_nanoseconds_has_them_for_its_total() {
    for ns in [
        i64::MIN,
        i64::MIN + 1,
        -2 * NANOSECONDS_PER_CENTURY as i64,
        -(NANOSECONDS_PER_CENTURY as i64) - 1,
        -(NANOSECONDS_PER_CENTURY as i64),
        -1,
        0,
        1,
        60_000_000_000,
        NANOSECONDS_PER_CENTURY as i64,
        i64::MAX,
    ] {
        let parts = hifitime::Duration::from_truncated_nanoseconds(ns).to_parts();
        assert!(Duration { centuries: parts.0, nanoseconds: parts.1 }.is_wf(), "{ns}");
        assert_eq!(total(parts), ns as i128, "{ns}");
    }
}

#[test]
fn a_series_yields_every_step_from_its_start_up_to_its_end() {
    let cases: [((i16, u64), (i16, u64), (i16, u64)); 6] = [
        ((1, 0), (1, 100_000_000_000), (0, 10_000_000_000)),
        ((1, 0), (1, 95_000_000_000), (0, 10_000_000_000)),
        ((1, 5), (1, 5), (0, 1)),
        ((0, NANOSECONDS_PER_CENTURY - 25_000_000_000), (1, 25_000_000_000), (0, 10_000_000_000)),
        ((-2, 7), (2, 7), (1, 0)),
        ((i16::MAX - 3, 0), (i16::MAX, NANOSECONDS_PER_CENTURY), (1, 0)),
    ];
    for (start, end, step) in cases {
        let tai = |p: (i16, u64)| {
            hifitime::Epoch::from_tai_duration(hifitime::Duration::from_parts(p.0, p.1))
        };
        let series = hifitime::TimeSeries::inclusive(
            tai(start),
            tai(end),
            hifitime::Duration::from_parts(step.0, step.1),
        );
        let yielded: Vec<(i16, u64)> = series.map(|e| e.to_tai_parts()).collect();
        let count = (total(end) - total(start)) / total(step) + 1;
        let expected: Vec<(i16, u64)> =
            (0..count).map(|k| of_total(total(start) + k * total(step))).collect();
        assert_eq!(yielded, expected, "{start:?} to {end:?} by {step:?}");
    }
}

#[test]
fn a_copy_of_a_series_yields_what_the_series_has_left() {
    let tai = |s: u64| hifitime::Epoch::from_tai_duration(hifitime::Duration::from_parts(1, s));
    let mut series =
        hifitime::TimeSeries::inclusive(tai(0), tai(50), hifitime::Duration::from_parts(0, 10));
    assert_eq!(series.next(), Some(tai(0)));
    assert_eq!(series.next(), Some(tai(10)));
    let copy = series.clone();
    let left: Vec<hifitime::Epoch> = series.collect();
    assert_eq!(left, vec![tai(20), tai(30), tai(40), tai(50)]);
    assert_eq!(copy.collect::<Vec<hifitime::Epoch>>(), left);
}

#[test]
fn the_greatest_common_divisor_divides_and_is_divided() {
    let values: [i64; 9] = [0, 1, -1, 12, 18, -30, 1_000_000_007, i64::MAX, i64::MIN + 1];
    for a in values {
        for b in values {
            let g = num::integer::gcd(a, b);
            assert!(g >= 0);
            assert_eq!(g == 0, a == 0 && b == 0);
            if g > 0 {
                assert_eq!(a % g, 0);
                assert_eq!(b % g, 0);
                // Every common divisor divides it.
                for d in [1, 2, 3, 5, 6, 7, 12, 18, 30] {
                    if a % d == 0 && b % d == 0 {
                        assert_eq!(g % d, 0, "gcd({a}, {b})");
                    }
                }
            }
        }
    }
    assert_eq!(num::integer::gcd(20_000_000_000i64, 30_000_000_000i64), 10_000_000_000);
}
