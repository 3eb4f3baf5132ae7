//! The two evaluations of a Bézier curve, in exact arithmetic.
//!
//! A parameter between 0 and 1 is a fraction `t / (t + s)`, so that `s` takes
//! the place of `1 - t`, and a control polygon is given one homogeneous
//! coordinate at a time, as a sequence of integers. Both evaluations then stay
//! within the integers: each yields its coordinate scaled by `(t + s)` to the
//! power of the degree, a factor that all three coordinates share and that
//! leaves when the point is projected. The two evaluations yield the same.
//! Rounding, which any evaluation in floating point adds, is no part of this.
use vstd::prelude::*;
use vstd::arithmetic::mul::lemma_mul_strictly_positive;
use vstd::arithmetic::power::{lemma0_pow, lemma_pow0, lemma_pow_positive, pow};
use crate::binomial::{binomial, lemma_binomial_full, lemma_binomial_positive};

verus! {

/// The weight of control value `k` in the Bernstein form of degree `n`.
pub open spec fn bernstein_weight(n: nat, k: nat, t: int, s: int) -> int {
    binomial(n, k) * pow(t, k) * pow(s, (n - k) as nat)
}

/// The share of control value `k` in the Bernstein form: the value times its
/// weight.
pub open spec fn bernstein_term(values: Seq<int>, t: int, s: int, k: int) -> int {
    bernstein_weight((values.len() - 1) as nat, k as nat, t, s) * values[k]
}

/// Homogeneous coordinates: each coordinate times the weight of its point.
pub open spec fn weighted(coordinates: Seq<int>, weights: Seq<int>) -> Seq<int> {
    Seq::new(coordinates.len(), |k: int| weights[k] * coordinates[k])
}

/// The shares of the first `count` control values, added up.
pub open spec fn bernstein_sum(values: Seq<int>, t: int, s: int, count: nat) -> int
    decreases count,
{
    if count == 0 {
        0
    } else {
        bernstein_sum(values, t, s, (count - 1) as nat) + bernstein_term(values, t, s, count - 1)
    }
}

/// The direct evaluation: the control values, each weighted by a binomial
/// coefficient, a power of `t` and a power of `s`.
pub open spec fn direct(values: Seq<int>, t: int, s: int) -> int {
    bernstein_sum(values, t, s, values.len())
}

/// One round of De Casteljau's evaluation: each value but the last gives way
/// to the blend of itself and its successor at the parameter, `s` times
/// itself and `t` times the successor.
pub open spec fn collapse(values: Seq<int>, t: int, s: int) -> Seq<int> {
    Seq::new((values.len() - 1) as nat, |i: int| s * values[i] + t * values[i + 1])
}

/// De Casteljau's evaluation: rounds of `collapse` until one value is left.
pub open spec fn de_casteljau(values: Seq<int>, t: int, s: int) -> int
    decreases values.len(),
{
    if values.len() <= 1 {
        values[0]
    } else {
        de_casteljau(collapse(values, t, s), t, s)
    }
}

proof fn lemma_pow_next(base: int, exponent: nat)
    ensures
        pow(base, exponent + 1) == base * pow(base, exponent),
{
    reveal(pow);
}

proof fn lemma_regroup(weight: int, lower: int, s: int, upper: int, value: int)
    ensures
        weight * lower * (s * upper) * value == weight * (lower * upper * (s * value)),
{
    assert(weight * lower * (s * upper) * value == weight * (lower * upper * (s * value)))
        by (nonlinear_arith);
}

/// What the first `count` shares of a collapsed polygon have beyond those of
/// the polygon itself: the part of share `count` that the value at `count`
/// has from its predecessor.
spec fn carry(values: Seq<int>, t: int, s: int, count: nat) -> int {
    if count == 0 {
        0
    } else {
        binomial((values.len() - 2) as nat, (count - 1) as nat) * pow(t, count) * pow(
            s,
            (values.len() - 1 - count) as nat,
        ) * values[count as int]
    }
}

proof fn lemma_collapsed_sum(values: Seq<int>, t: int, s: int, count: nat)
    requires
        values.len() >= 2,
        count <= values.len() - 1,
    ensures
        bernstein_sum(collapse(values, t, s), t, s, count) == bernstein_sum(values, t, s, count)
            + carry(values, t, s, count),
    decreases count,
{
    if count > 0 {
        let m = (count - 1) as nat;
        let n = (values.len() - 1) as nat;
        let collapsed = collapse(values, t, s);
        lemma_collapsed_sum(values, t, s, m);
        let lower = pow(t, m);
        let upper = pow(s, (n - 1 - m) as nat);
        let here = values[m as int];
        let next = values[m as int + 1];
        let beside = binomial((n - 1) as nat, m);
        let before = if m == 0 {
            0
        } else {
            binomial((n - 1) as nat, (m - 1) as nat)
        };
        assert(pow(t, m + 1) == t * lower) by {
            lemma_pow_next(t, m);
        }
        assert(pow(s, (n - m) as nat) == s * upper) by {
            lemma_pow_next(s, (n - 1 - m) as nat);
        }
        let both = lower * upper;
        let first = both * (s * here);
        let second = both * (t * next);
        assert(carry(values, t, s, m) == before * first) by {
            if m > 0 {
                lemma_regroup(before as int, lower, s, upper, here);
            }
        }
        assert(bernstein_term(collapsed, t, s, m as int) == beside * (first + second)) by {
            let blend = s * here + t * next;
            assert(beside * lower * upper * blend == beside * (lower * upper * blend))
                by (nonlinear_arith);
            assert(both * (s * here + t * next) == both * (s * here) + both * (t * next))
                by (nonlinear_arith);
        }
        assert(bernstein_term(values, t, s, m as int) == (before + beside) * first) by {
            lemma_regroup((before + beside) as int, lower, s, upper, here);
        }
        assert(carry(values, t, s, count) == beside * second) by {
            assert(beside * (t * lower) * upper * next == beside * (lower * upper * (t * next)))
                by (nonlinear_arith);
        }
        assert(before * first + beside * (first + second) == (before + beside) * first + beside
            * second) by (nonlinear_arith);
    }
}

/// De Casteljau's evaluation yields what the direct evaluation yields: the
/// two ways to evaluate a curve give the same point at every parameter.
pub proof fn lemma_de_casteljau_is_direct(values: Seq<int>, t: int, s: int)
    requires
        values.len() >= 1,
    ensures
        de_casteljau(values, t, s) == direct(values, t, s),
    decreases values.len(),
{
    if values.len() == 1 {
        lemma_pow0(t);
        lemma_pow0(s);
        assert(bernstein_sum(values, t, s, 0) == 0);
        assert(1 * 1 * 1 * values[0] == values[0]) by (nonlinear_arith);
    } else {
        let n = (values.len() - 1) as nat;
        let collapsed = collapse(values, t, s);
        lemma_de_casteljau_is_direct(collapsed, t, s);
        lemma_collapsed_sum(values, t, s, n);
        lemma_binomial_full(n);
        lemma_binomial_full((n - 1) as nat);
    }
}

/// At the parameter 0 either evaluation yields the first control value, and
/// at the parameter 1 the last one, each scaled as every coordinate is.
pub proof fn lemma_curve_ends(values: Seq<int>, scale: int)
    requires
        values.len() >= 1,
    ensures
        direct(values, 0, scale) == pow(scale, (values.len() - 1) as nat) * values[0],
        direct(values, scale, 0) == pow(scale, (values.len() - 1) as nat) * values.last(),
        de_casteljau(values, 0, scale) == pow(scale, (values.len() - 1) as nat) * values[0],
        de_casteljau(values, scale, 0) == pow(scale, (values.len() - 1) as nat) * values.last(),
{
    lemma_de_casteljau_is_direct(values, 0, scale);
    lemma_de_casteljau_is_direct(values, scale, 0);
    let n = (values.len() - 1) as nat;
    lemma_first_term_only(values, scale, values.len());
    lemma_last_term_only(values, scale, n);
    lemma_binomial_full(n);
    lemma_pow0(0);
}

proof fn lemma_first_term_only(values: Seq<int>, scale: int, count: nat)
    requires
        1 <= count <= values.len(),
    ensures
        bernstein_sum(values, 0, scale, count) == pow(scale, (values.len() - 1) as nat)
            * values[0],
    decreases count,
{
    let n = (values.len() - 1) as nat;
    if count == 1 {
        lemma_pow0(0);
        assert(bernstein_sum(values, 0, scale, 0) == 0);
        assert(1 * 1 * pow(scale, n) * values[0] == pow(scale, n) * values[0])
            by (nonlinear_arith);
    } else {
        lemma_first_term_only(values, scale, (count - 1) as nat);
        let k = (count - 1) as nat;
        lemma0_pow(k);
        let coefficient = binomial(n, k);
        let rest = pow(scale, (n - k) as nat);
        let value = values[k as int];
        assert(coefficient * 0 * rest * value == 0) by (nonlinear_arith);
    }
}

proof fn lemma_last_term_only(values: Seq<int>, scale: int, count: nat)
    requires
        count <= values.len() - 1,
    ensures
        bernstein_sum(values, scale, 0, count) == 0,
    decreases count,
{
    if count > 0 {
        lemma_last_term_only(values, scale, (count - 1) as nat);
        let n = (values.len() - 1) as nat;
        let k = (count - 1) as nat;
        lemma0_pow((n - k) as nat);
        let coefficient = binomial(n, k);
        let rest = pow(scale, k);
        let value = values[k as int];
        assert(coefficient * rest * 0 * value == 0) by (nonlinear_arith);
    }
}

proof fn lemma_de_casteljau_of_constant(value: int, count: nat, t: int, s: int)
    requires
        count >= 1,
    ensures
        de_casteljau(Seq::new(count, |k: int| value), t, s) == pow(t + s, (count - 1) as nat)
            * value,
    decreases count,
{
    let values = Seq::new(count, |k: int| value);
    if count == 1 {
        lemma_pow0(t + s);
    } else {
        let blend = s * value + t * value;
        let rest = pow(t + s, (count - 2) as nat);
        assert(collapse(values, t, s) =~= Seq::new((count - 1) as nat, |k: int| blend));
        lemma_de_casteljau_of_constant(blend, (count - 1) as nat, t, s);
        lemma_pow_next(t + s, (count - 2) as nat);
        assert(rest * (s * value + t * value) == ((t + s) * rest) * value) by (nonlinear_arith);
    }
}

/// The weights of the Bernstein form add up to `t + s` to the power of the
/// degree, which stands for one: where all control values are alike, the
/// curve stays at that value, whichever way it is evaluated.
pub proof fn lemma_curve_of_constant(value: int, count: nat, t: int, s: int)
    requires
        count >= 1,
    ensures
        direct(Seq::new(count, |k: int| value), t, s) == pow(t + s, (count - 1) as nat) * value,
        de_casteljau(Seq::new(count, |k: int| value), t, s) == pow(t + s, (count - 1) as nat)
            * value,
{
    let values = Seq::new(count, |k: int| value);
    lemma_de_casteljau_is_direct(values, t, s);
    lemma_de_casteljau_of_constant(value, count, t, s);
}

proof fn lemma_weight_positive(n: nat, k: nat, t: int, s: int)
    requires
        k <= n,
        t > 0,
        s > 0,
    ensures
        bernstein_weight(n, k, t, s) > 0,
{
    lemma_binomial_positive(n, k);
    lemma_pow_positive(t, k);
    lemma_pow_positive(s, (n - k) as nat);
    lemma_mul_strictly_positive(binomial(n, k) as int, pow(t, k));
    lemma_mul_strictly_positive(binomial(n, k) * pow(t, k), pow(s, (n - k) as nat));
}

proof fn lemma_sum_positive(values: Seq<int>, t: int, s: int, count: nat)
    requires
        1 <= count <= values.len(),
        forall|k: int| 0 <= k < values.len() ==> values[k] > 0,
        t > 0,
        s > 0,
    ensures
        bernstein_sum(values, t, s, count) > 0,
    decreases count,
{
    let k = (count - 1) as nat;
    lemma_weight_positive((values.len() - 1) as nat, k, t, s);
    lemma_mul_strictly_positive(
        bernstein_weight((values.len() - 1) as nat, k, t, s),
        values[k as int],
    );
    if count > 1 {
        lemma_sum_positive(values, t, s, k);
    } else {
        assert(bernstein_sum(values, t, s, 0) == 0);
    }
}

proof fn lemma_sum_of_update(values: Seq<int>, j: int, gain: int, t: int, s: int, count: nat)
    requires
        0 <= j < values.len(),
        count <= values.len(),
    ensures
        bernstein_sum(values.update(j, values[j] + gain), t, s, count) == bernstein_sum(
            values,
            t,
            s,
            count,
        ) + if j < count {
            bernstein_weight((values.len() - 1) as nat, j as nat, t, s) * gain
        } else {
            0
        },
    decreases count,
{
    if count > 0 {
        let k = count - 1;
        lemma_sum_of_update(values, j, gain, t, s, k as nat);
        if k == j {
            let weight = bernstein_weight((values.len() - 1) as nat, j as nat, t, s);
            assert(weight * (values[j] + gain) == weight * values[j] + weight * gain)
                by (nonlinear_arith);
        }
    }
}

/// A heavier control point pulls the curve towards itself. Where the weight
/// of control point `j` grows and nothing else changes, a sample at a
/// parameter strictly between 0 and 1 keeps the numerator of its offset from
/// that control point, while the denominator, the sample's weight, grows. So
/// in every coordinate the offset shrinks by the same factor between 0 and 1:
/// the sample moves straight towards the control point, unless it lies there
/// already. By `lemma_de_casteljau_is_direct` this holds of either evaluation.
pub proof fn lemma_heavier_weight_pulls(
    coordinates: Seq<int>,
    weights: Seq<int>,
    j: int,
    gain: int,
    t: int,
    s: int,
)
    requires
        coordinates.len() == weights.len(),
        0 <= j < weights.len(),
        forall|k: int| 0 <= k < weights.len() ==> weights[k] > 0,
        gain > 0,
        t > 0,
        s > 0,
    ensures
        ({
            let heavier = weights.update(j, weights[j] + gain);
            let place = direct(weighted(coordinates, weights), t, s);
            let weight = direct(weights, t, s);
            let pulled_place = direct(weighted(coordinates, heavier), t, s);
            let pulled_weight = direct(heavier, t, s);
            &&& 0 < weight < pulled_weight
            &&& pulled_place - coordinates[j] * pulled_weight == place - coordinates[j] * weight
        }),
{
    let n = (weights.len() - 1) as nat;
    let heavier = weights.update(j, weights[j] + gain);
    let before = weighted(coordinates, weights);
    let share = bernstein_weight(n, j as nat, t, s);
    assert(weighted(coordinates, heavier) =~= before.update(j, before[j] + gain * coordinates[j]))
        by {
        assert((weights[j] + gain) * coordinates[j] == weights[j] * coordinates[j] + gain
            * coordinates[j]) by (nonlinear_arith);
    }
    lemma_sum_of_update(before, j, gain * coordinates[j], t, s, before.len());
    lemma_sum_of_update(weights, j, gain, t, s, weights.len());
    lemma_sum_positive(weights, t, s, weights.len());
    lemma_weight_positive(n, j as nat, t, s);
    lemma_mul_strictly_positive(share, gain);
    assert(share * (gain * coordinates[j]) == coordinates[j] * (share * gain))
        by (nonlinear_arith);
    assert(coordinates[j] * (direct(weights, t, s) + share * gain) == coordinates[j] * direct(
        weights,
        t,
        s,
    ) + coordinates[j] * (share * gain)) by (nonlinear_arith);
}

proof fn lemma_sum_scales(values: Seq<int>, factor: int, t: int, s: int, count: nat)
    requires
        count <= values.len(),
    ensures
        bernstein_sum(Seq::new(values.len(), |k: int| factor * values[k]), t, s, count) == factor
            * bernstein_sum(values, t, s, count),
    decreases count,
{
    if count > 0 {
        let k = count - 1;
        lemma_sum_scales(values, factor, t, s, k as nat);
        let weight = bernstein_weight((values.len() - 1) as nat, k as nat, t, s);
        let rest = bernstein_sum(values, t, s, k as nat);
        assert(factor * rest + weight * (factor * values[k]) == factor * (rest + weight
            * values[k])) by (nonlinear_arith);
    }
}

/// Only the ratios of the weights matter. Where every weight is multiplied
/// by the same factor, the place and the weight of a sample are multiplied
/// by it too, and the point that they project to stays where it is.
pub proof fn lemma_weights_matter_by_ratio(
    coordinates: Seq<int>,
    weights: Seq<int>,
    factor: int,
    t: int,
    s: int,
)
    requires
        coordinates.len() == weights.len(),
    ensures
        ({
            let scaled = Seq::new(weights.len(), |k: int| factor * weights[k]);
            &&& direct(weighted(coordinates, scaled), t, s) == factor * direct(
                weighted(coordinates, weights),
                t,
                s,
            )
            &&& direct(scaled, t, s) == factor * direct(weights, t, s)
        }),
{
    let scaled = Seq::new(weights.len(), |k: int| factor * weights[k]);
    let places = weighted(coordinates, weights);
    assert(weighted(coordinates, scaled) =~= Seq::new(places.len(), |k: int| factor * places[k]))
        by {
        assert forall|k: int| 0 <= k < places.len() implies (factor * weights[k])
            * coordinates[k] == factor * (weights[k] * coordinates[k]) by {
            assert((factor * weights[k]) * coordinates[k] == factor * (weights[k]
                * coordinates[k])) by (nonlinear_arith);
        }
    }
    lemma_sum_scales(places, factor, t, s, places.len());
    lemma_sum_scales(weights, factor, t, s, weights.len());
}

/// One homogeneous coordinate of the vertex that stands at `step` of `last`
/// steps along a curve, at the parameter `step / last`. It is scaled by
/// `last` to the power of the degree.
pub open spec fn sample(values: Seq<int>, step: int, last: int) -> int {
    direct(values, step, last - step)
}

/// The first sample of a curve is its first control value and the last
/// sample its last one, each scaled as every coordinate is: a polyline starts
/// and ends where the control polygon does, whichever way it is evaluated.
pub proof fn lemma_samples_end_in_control_points(values: Seq<int>, last: int)
    requires
        values.len() >= 1,
    ensures
        sample(values, 0, last) == pow(last, (values.len() - 1) as nat) * values[0],
        sample(values, last, last) == pow(last, (values.len() - 1) as nat) * values.last(),
        sample(values, 0, last) == de_casteljau(values, 0, last),
        sample(values, last, last) == de_casteljau(values, last, 0),
{
    lemma_curve_ends(values, last);
}

} // verus!
