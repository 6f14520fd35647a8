//! The step of the instants of a simulation: the greatest span that the
//! sampling of every device is a multiple of.

use crate::od::simulator::registry::lookup;
use crate::od::simulator::TrkConfig;
use vstd::prelude::*;

verus! {

/// `g` is the greatest common divisor of `a` and `b`: it is zero where both
/// are, and else the positive divisor of both that every common divisor
/// divides.
pub open spec fn is_gcd(g: int, a: int, b: int) -> bool {
    &&& g >= 0
    &&& g == 0 <==> a == 0 && b == 0
    &&& g > 0 ==> a % g == 0 && b % g == 0
    &&& forall|d: int| d > 0 && a % d == 0 && b % d == 0 ==> #[trigger] (g % d) == 0
}

/// `g` is the common sampling of devices that sample every `samplings[i]`
/// nanoseconds: the greatest span, in nanoseconds, that all these spans are
/// multiples of.
pub open spec fn is_common_sampling(g: int, samplings: Seq<int>) -> bool {
    &&& g > 0
    &&& forall|i: int| 0 <= i < samplings.len() ==> #[trigger] samplings[i] % g == 0
    &&& forall|d: int|
        d > 0 && (forall|i: int| 0 <= i < samplings.len() ==> #[trigger] samplings[i] % d == 0)
            ==> #[trigger] (g % d) == 0
}

/// The common sampling of `samplings`, where there is one.
pub open spec fn common_sampling(samplings: Seq<int>) -> int {
    choose|g: int| is_common_sampling(g, samplings)
}

/// Calls `num::integer::gcd` on two 64-bit integers. Assumed: the result is
/// the greatest common divisor of the two, which is not negative. The least
/// 64-bit integer is left out, because its absolute value does not exist.
#[verifier::external_body]
pub(crate) fn gcd(a: i64, b: i64) -> (g: i64)
    requires
        a != i64::MIN,
        b != i64::MIN,
    ensures
        is_gcd(g as int, a as int, b as int),
{
    num::integer::gcd(a, b)
}

/// Divisibility is transitive.
pub proof fn lemma_divides_trans(a: int, b: int, c: int)
    requires
        b > 0,
        c > 0,
        a % b == 0,
        b % c == 0,
    ensures
        a % c == 0,
{
    vstd::arithmetic::div_mod::lemma_fundamental_div_mod(a, b);
    vstd::arithmetic::div_mod::lemma_fundamental_div_mod(b, c);
    let q = a / b;
    let r = b / c;
    assert(a == c * (r * q)) by (nonlinear_arith)
        requires
            a == b * q,
            b == c * r,
    ;
    vstd::arithmetic::div_mod::lemma_mod_multiples_basic(r * q, c);
    assert((r * q) * c == c * (r * q)) by (nonlinear_arith);
}

/// There is at most one common sampling.
pub proof fn lemma_common_sampling_unique(g: int, samplings: Seq<int>)
    requires
        is_common_sampling(g, samplings),
    ensures
        common_sampling(samplings) == g,
{
    let h = common_sampling(samplings);
    assert(is_common_sampling(h, samplings));
    assert(g % h == 0);
    assert(h % g == 0);
    if g < h {
        vstd::arithmetic::div_mod::lemma_small_mod(g as nat, h as nat);
    } else if h < g {
        vstd::arithmetic::div_mod::lemma_small_mod(h as nat, g as nat);
    }
}

/// The sampling of each device in nanoseconds, as a 64-bit integer.
pub open spec fn samplings(names: Seq<Seq<char>>, configs: Seq<(String, TrkConfig)>) -> Seq<int> {
    Seq::new(
        names.len(),
        |i: int| lookup(configs, names[i]).unwrap().sampling.spec_truncated_nanoseconds(),
    )
}

} // verus!
