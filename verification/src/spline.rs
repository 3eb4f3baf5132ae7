//! The Catmull-Rom segment over uniform knots, in exact arithmetic.
//!
//! Four neighbouring points stand at the knots 0, 1, 2 and 3, and the segment
//! between the second and the third of them is evaluated at the knot
//! `1 + step / steps`. The points are given one coordinate at a time, as
//! integers, and each level of the evaluation is scaled so that its results
//! are integers too: by `steps`, by `2 * steps` and by `steps` again. A
//! coordinate of the segment is therefore `segment(..) / (2 * steps³)`.
//! Rounding, which any evaluation in floating point adds, is no part of this.
use vstd::prelude::*;

verus! {

/// The blend of `from` and `to` at the ratio `part / whole`, times `whole`.
pub open spec fn blend(from: int, to: int, part: int, whole: int) -> int {
    (whole - part) * from + part * to
}

/// The first level: each pair of neighbouring points, blended over the knot
/// interval between them. The result is scaled by `steps`.
pub open spec fn first_level(points: Seq<int>, i: int, step: int, steps: int) -> int {
    blend(points[i], points[i + 1], (1 - i) * steps + step, steps)
}

/// The second level: each pair of neighbouring blends of the first level,
/// blended over the two knot intervals that they span. The result is scaled
/// by `2 * steps²`.
pub open spec fn second_level(points: Seq<int>, i: int, step: int, steps: int) -> int {
    blend(
        first_level(points, i, step, steps),
        first_level(points, i + 1, step, steps),
        (1 - i) * steps + step,
        2 * steps,
    )
}

/// The segment at `step / steps` of its way: the two blends of the second
/// level, blended over the knot interval of the segment. The result is
/// scaled by `2 * steps³`.
pub open spec fn segment(points: Seq<int>, step: int, steps: int) -> int {
    blend(second_level(points, 0, step, steps), second_level(points, 1, step, steps), step, steps)
}

/// The segment starts in the second of its four points.
pub proof fn lemma_segment_starts_at_second_point(points: Seq<int>, steps: int)
    requires
        points.len() == 4,
    ensures
        segment(points, 0, steps) == 2 * (steps * steps * steps) * points[1],
{
    let second = points[1];
    assert(first_level(points, 0, 0, steps) == steps * second) by (nonlinear_arith)
        requires
            first_level(points, 0, 0, steps) == (steps - steps) * points[0] + steps * second,
    ;
    assert(first_level(points, 1, 0, steps) == steps * second) by (nonlinear_arith)
        requires
            first_level(points, 1, 0, steps) == (steps - 0) * second + 0 * points[2],
    ;
    let level = steps * second;
    assert(second_level(points, 0, 0, steps) == 2 * steps * level) by (nonlinear_arith)
        requires
            second_level(points, 0, 0, steps) == (2 * steps - steps) * level + steps * level,
    ;
    assert(steps * (2 * steps * (steps * second)) == 2 * (steps * steps * steps) * second)
        by (nonlinear_arith);
}

/// Through four points in a row that are equally far apart the segment runs
/// straight: at `step / steps` of its way it has gone that part of the way
/// from the second point to the third. Both coordinates of a sample are
/// therefore the same mix of the two points, and the sample lies on the line
/// through them.
pub proof fn lemma_segment_of_equal_strides(points: Seq<int>, stride: int, step: int, steps: int)
    requires
        points.len() == 4,
        points[1] == points[0] + stride,
        points[2] == points[1] + stride,
        points[3] == points[2] + stride,
    ensures
        segment(points, step, steps) == 2 * (steps * steps) * blend(
            points[1],
            points[2],
            step,
            steps,
        ),
{
    let start = points[0];
    let level = steps * (start + stride) + step * stride;
    assert(first_level(points, 0, step, steps) == level) by (nonlinear_arith)
        requires
            first_level(points, 0, step, steps) == (steps - (steps + step)) * start + (steps
                + step) * (start + stride),
            level == steps * (start + stride) + step * stride,
    ;
    assert(first_level(points, 1, step, steps) == level) by (nonlinear_arith)
        requires
            first_level(points, 1, step, steps) == (steps - step) * (start + stride) + step * (
            start + stride + stride),
            level == steps * (start + stride) + step * stride,
    ;
    assert(first_level(points, 2, step, steps) == level) by (nonlinear_arith)
        requires
            first_level(points, 2, step, steps) == (steps - (step - steps)) * (start + stride
                + stride) + (step - steps) * (start + stride + stride + stride),
            level == steps * (start + stride) + step * stride,
    ;
    assert(second_level(points, 0, step, steps) == 2 * steps * level) by (nonlinear_arith)
        requires
            second_level(points, 0, step, steps) == (2 * steps - (steps + step)) * level + (steps
                + step) * level,
    ;
    assert(second_level(points, 1, step, steps) == 2 * steps * level) by (nonlinear_arith)
        requires
            second_level(points, 1, step, steps) == (2 * steps - step) * level + step * level,
    ;
    let both = 2 * steps * level;
    assert(segment(points, step, steps) == steps * both) by (nonlinear_arith)
        requires
            segment(points, step, steps) == (steps - step) * both + step * both,
    ;
    assert(steps * (2 * steps * level) == 2 * (steps * steps) * ((steps - step) * (start + stride)
        + step * (start + stride + stride))) by (nonlinear_arith)
        requires
            level == steps * (start + stride) + step * stride,
    ;
}

/// One coordinate of the vertex that stands at `step` of `steps` steps in
/// the run of four points that starts at `window`, in a spline through
/// `points`. It is scaled by `2 * steps³`.
pub open spec fn sample(points: Seq<int>, window: int, step: int, steps: int) -> int {
    segment(points.subrange(window, window + 4), step, steps)
}

/// A spline passes through its points: the first sample of the run that
/// starts at `window` is the point after it.
pub proof fn lemma_spline_passes_through_points(points: Seq<int>, window: int, steps: int)
    requires
        0 <= window,
        window + 4 <= points.len(),
    ensures
        sample(points, window, 0, steps) == 2 * (steps * steps * steps) * points[window + 1],
{
    lemma_segment_starts_at_second_point(points.subrange(window, window + 4), steps);
}

/// A spline through points in a row that are equally far apart runs straight.
/// Each sample has gone its part of one stride from the second point of its
/// run, in every coordinate: it lies on the line of the points, at
/// `points[window + 1] + (step / steps) * stride`.
pub proof fn lemma_spline_of_equal_strides(
    points: Seq<int>,
    stride: int,
    window: int,
    step: int,
    steps: int,
)
    requires
        forall|i: int|
            0 <= i < points.len() - 1 ==> points[i + 1] == #[trigger] points[i] + stride,
        0 <= window,
        window + 4 <= points.len(),
    ensures
        sample(points, window, step, steps) == 2 * (steps * steps) * (steps * points[window + 1]
            + step * stride),
{
    let run = points.subrange(window, window + 4);
    assert(run[1] == points[window] + stride);
    assert(run[2] == points[window + 1] + stride);
    assert(run[3] == points[window + 2] + stride);
    lemma_segment_of_equal_strides(run, stride, step, steps);
    assert((steps - step) * run[1] + step * (run[1] + stride) == steps * run[1] + step * stride)
        by (nonlinear_arith);
}

} // verus!
