//! From a shape to the layout of its polyline.
use vstd::prelude::*;
use vstd::arithmetic::div_mod::lemma_fundamental_div_mod_converse;
use crate::input::{Curve, Shape};
use crate::output::LineStrip;

verus! {

/// Why a shape cannot be turned into a polyline.
#[derive(Clone, Copy, Debug, PartialEq, Eq, Structural)]
pub enum TessellationError {
    /// A Bézier curve has no control point.
    EmptyControlPoints,
    /// A Catmull-Rom spline has fewer than four points.
    InsufficientSplinePoints,
    /// A Bézier curve is to be sampled fewer than two times.
    DegenerateSampleCount,
    /// Two neighbouring points of a spline are no distance apart, where the
    /// knot spacing is taken from the distances.
    DegenerateSpacing,
}

impl TessellationError {
    /// The error in words.
    pub open spec fn description(&self) -> Seq<char> {
        match self {
            TessellationError::EmptyControlPoints => "need at least one point to draw a bezier curve"@,
            TessellationError::InsufficientSplinePoints => "need at least four points to draw a catmull rom spline"@,
            TessellationError::DegenerateSampleCount => "need at least two samples to draw a bezier curve"@,
            TessellationError::DegenerateSpacing => "need distinct neighbouring points to draw a catmull rom spline"@,
        }
    }

    /// The error in words, for the user to read.
    pub fn message(&self) -> (text: &'static str)
        ensures
            text@ == self.description(),
    {
        match self {
            TessellationError::EmptyControlPoints => "need at least one point to draw a bezier curve",
            TessellationError::InsufficientSplinePoints => "need at least four points to draw a catmull rom spline",
            TessellationError::DegenerateSampleCount => "need at least two samples to draw a bezier curve",
            TessellationError::DegenerateSpacing => "need distinct neighbouring points to draw a catmull rom spline",
        }
    }
}

/// A rejected shape, with the place of its curve in the drawing.
#[derive(Clone, Copy, Debug, PartialEq, Eq, Structural)]
pub struct CurveError {
    pub curve: usize,
    pub kind: TessellationError,
}

/// One vertex of a polyline: either a point that is known already, or the
/// place on the curve where a point has to be evaluated.
#[derive(Clone, Copy, Debug, PartialEq)]
pub enum Vertex<T> {
    /// An input point, taken over unchanged.
    Given { point: [T; 2] },
    /// The point of a Bézier curve at the parameter `step / last`, where
    /// `0 <= step <= last` and `last > 0`. In exact arithmetic each of its
    /// homogeneous coordinates is [`crate::bezier::sample`], whichever way the
    /// curve is evaluated.
    Bezier { step: usize, last: usize },
    /// A point on the segment between the second and the third of the four
    /// input points that start at index `window`, `step / steps` of the way
    /// along the segment's knot interval, where `0 <= step < steps`. Over
    /// uniform knots and in exact arithmetic each of its coordinates is
    /// [`crate::spline::sample`].
    Spline { window: usize, step: usize, steps: usize },
}

/// The polyline of one curve, laid out, and the colour of the curve.
#[derive(Clone, Debug, PartialEq)]
pub struct Outline<T> {
    pub vertices: Vec<Vertex<T>>,
    pub color: u32,
}

impl<T> Shape<T> {
    /// The invariant that the shape breaks, if it breaks one.
    pub open spec fn violation(&self) -> Option<TessellationError> {
        match self {
            Shape::Lines { .. } => None,
            Shape::Bezier { points, samples, .. } => if points@.len() == 0 {
                Some(TessellationError::EmptyControlPoints)
            } else if *samples < 2 {
                Some(TessellationError::DegenerateSampleCount)
            } else {
                None
            },
            Shape::CatmullRom { points, .. } => if points@.len() < 4 {
                Some(TessellationError::InsufficientSplinePoints)
            } else {
                None
            },
        }
    }

    /// The number of vertices of the shape's polyline.
    pub open spec fn vertex_count(&self) -> nat {
        match self {
            Shape::Lines { points } => points@.len(),
            Shape::Bezier { samples, .. } => *samples as nat,
            Shape::CatmullRom { points, samples, .. } => if points@.len() >= 4 {
                ((points@.len() - 3) * *samples + 1) as nat
            } else {
                0
            },
        }
    }

    /// The vertex at `position` of the shape's polyline.
    pub open spec fn vertex(&self, position: int) -> Vertex<T> {
        match self {
            Shape::Lines { points } => Vertex::Given { point: points@[position] },
            Shape::Bezier { samples, .. } => Vertex::Bezier {
                step: position as usize,
                last: (*samples - 1) as usize,
            },
            Shape::CatmullRom { points, samples, .. } => if position < (points@.len() - 3)
                * *samples {
                Vertex::Spline {
                    window: (position / *samples as int) as usize,
                    step: (position % *samples as int) as usize,
                    steps: *samples,
                }
            } else {
                Vertex::Given { point: points@[points@.len() - 2] }
            },
        }
    }

    /// The polyline of a shape that breaks no invariant.
    pub open spec fn outline(&self) -> Seq<Vertex<T>> {
        Seq::new(self.vertex_count(), |position: int| self.vertex(position))
    }

    /// Counts the vertices of the shape's polyline. There is no count where
    /// they are more than a vector can hold.
    pub fn count_vertices(&self) -> (count: Option<usize>)
        ensures
            count == if self.vertex_count() <= usize::MAX {
                Some(self.vertex_count() as usize)
            } else {
                None
            },
    {
        match self {
            Shape::Lines { points } => Some(points.len()),
            Shape::Bezier { samples, .. } => Some(*samples),
            Shape::CatmullRom { points, samples, .. } => {
                if points.len() < 4 {
                    return Some(0);
                }
                match (points.len() - 3).checked_mul(*samples) {
                    Some(sampled) => sampled.checked_add(1),
                    None => None,
                }
            },
        }
    }
}

/// Lays out the polyline of `shape`.
///
/// Straight segments are taken over point by point. A Bézier curve gets one
/// vertex for each of its `samples` parameters, from 0 to 1 in equal steps. A
/// Catmull-Rom spline gets `samples` vertices for each run of four
/// neighbouring points, in the order of the runs, and then its last but one
/// point. A shape that breaks an invariant is rejected with the invariant.
pub fn to_line_strip<T: Copy>(shape: &Shape<T>) -> (result: Result<
    Vec<Vertex<T>>,
    TessellationError,
>)
    requires
        shape.vertex_count() <= usize::MAX,
    ensures
        match shape.violation() {
            Some(kind) => result == Err::<Vec<Vertex<T>>, TessellationError>(kind),
            None => result is Ok && result.unwrap()@ == shape.outline(),
        },
        result matches Ok(vertices) ==> vertices@.len() == shape.vertex_count(),
{
    match shape {
        Shape::Lines { points } => {
            let mut vertices: Vec<Vertex<T>> = Vec::new();
            let mut index: usize = 0;
            while index < points.len()
                invariant
                    index <= points.len(),
                    vertices@.len() == index,
                    forall|p: int| 0 <= p < index ==> vertices@[p] == shape.vertex(p),
                    *shape == (Shape::Lines { points: *points }),
                decreases points.len() - index,
            {
                vertices.push(Vertex::Given { point: points[index] });
                index += 1;
            }
            Ok(vertices)
        },
        Shape::Bezier { points, samples, mode } => {
            if points.len() == 0 {
                return Err(TessellationError::EmptyControlPoints);
            }
            if *samples < 2 {
                return Err(TessellationError::DegenerateSampleCount);
            }
            let last: usize = *samples - 1;
            let mut vertices: Vec<Vertex<T>> = Vec::new();
            let mut step: usize = 0;
            while step < *samples
                invariant
                    step <= *samples,
                    last == *samples - 1,
                    vertices@.len() == step,
                    forall|p: int| 0 <= p < step ==> vertices@[p] == shape.vertex(p),
                    *shape == (Shape::Bezier { points: *points, samples: *samples, mode: *mode }),
                decreases *samples - step,
            {
                vertices.push(Vertex::Bezier { step, last });
                step += 1;
            }
            Ok(vertices)
        },
        Shape::CatmullRom { points, samples, mode } => {
            if points.len() < 4 {
                return Err(TessellationError::InsufficientSplinePoints);
            }
            let windows: usize = points.len() - 3;
            let mut vertices: Vec<Vertex<T>> = Vec::new();
            let mut window: usize = 0;
            while window < windows
                invariant
                    window <= windows,
                    windows == points.len() - 3,
                    windows * *samples + 1 <= usize::MAX,
                    vertices@.len() == window * *samples,
                    forall|p: int| 0 <= p < vertices@.len() ==> vertices@[p] == shape.vertex(p),
                    *shape == (Shape::CatmullRom {
                        points: *points,
                        samples: *samples,
                        mode: *mode,
                    }),
                decreases windows - window,
            {
                let mut step: usize = 0;
                while step < *samples
                    invariant
                        step <= *samples,
                        window < windows,
                        windows == points.len() - 3,
                        windows * *samples + 1 <= usize::MAX,
                        vertices@.len() == window * *samples + step,
                        forall|p: int|
                            0 <= p < vertices@.len() ==> vertices@[p] == shape.vertex(p),
                        *shape == (Shape::CatmullRom {
                            points: *points,
                            samples: *samples,
                            mode: *mode,
                        }),
                    decreases *samples - step,
                {
                    proof {
                        let position = window * *samples + step;
                        lemma_fundamental_div_mod_converse(
                            position,
                            *samples as int,
                            window as int,
                            step as int,
                        );
                        assert(position < windows * *samples) by (nonlinear_arith)
                            requires
                                position == window * *samples + step,
                                step < *samples,
                                window < windows,
                        ;
                    }
                    vertices.push(Vertex::Spline { window, step, steps: *samples });
                    step += 1;
                }
                assert((window + 1) * *samples == window * *samples + *samples)
                    by (nonlinear_arith);
                window += 1;
            }
            vertices.push(Vertex::Given { point: points[points.len() - 2] });
            Ok(vertices)
        },
    }
}

/// Lays out the polylines of all `curves`, each with the colour of its curve.
///
/// The first curve whose shape breaks an invariant stops the work: the
/// error names that curve and the invariant.
pub fn to_line_strips<T: Copy>(curves: &Vec<Curve<T>>) -> (result: Result<
    Vec<Outline<T>>,
    CurveError,
>)
    requires
        forall|i: int| 0 <= i < curves@.len() ==> curves@[i].shape.vertex_count() <= usize::MAX,
    ensures
        match result {
            Ok(outlines) => {
                &&& outlines@.len() == curves@.len()
                &&& forall|i: int|
                    0 <= i < curves@.len() ==> {
                        &&& curves@[i].shape.violation() is None
                        &&& outlines@[i].vertices@ == curves@[i].shape.outline()
                        &&& outlines@[i].color == curves@[i].color
                    }
            },
            Err(error) => {
                &&& error.curve < curves@.len()
                &&& curves@[error.curve as int].shape.violation() == Some(error.kind)
                &&& forall|i: int| 0 <= i < error.curve ==> curves@[i].shape.violation() is None
            },
        },
{
    let mut outlines: Vec<Outline<T>> = Vec::new();
    let mut index: usize = 0;
    while index < curves.len()
        invariant
            index <= curves@.len(),
            outlines@.len() == index,
            forall|i: int|
                0 <= i < curves@.len() ==> curves@[i].shape.vertex_count() <= usize::MAX,
            forall|i: int|
                0 <= i < index ==> {
                    &&& curves@[i].shape.violation() is None
                    &&& outlines@[i].vertices@ == curves@[i].shape.outline()
                    &&& outlines@[i].color == curves@[i].color
                },
        decreases curves@.len() - index,
    {
        match to_line_strip(&curves[index].shape) {
            Ok(vertices) => {
                outlines.push(Outline { vertices, color: curves[index].color });
            },
            Err(kind) => {
                return Err(CurveError { curve: index, kind });
            },
        }
        index += 1;
    }
    Ok(outlines)
}

/// The points of a polyline whose vertices are all known, and nothing for a
/// polyline with a vertex that is not.
pub open spec fn gathered<T>(vertices: Seq<Vertex<T>>) -> Option<Seq<[T; 2]>> {
    if forall|i: int| 0 <= i < vertices.len() ==> vertices[i] is Given {
        Some(Seq::new(vertices.len(), |i: int| vertices[i]->point))
    } else {
        None
    }
}

/// Gathers the points of a polyline once its vertices have been evaluated.
///
/// To evaluate a vertex is to put in its place the point that was found for
/// it. A vertex is left as it was where no point can be found, because the
/// knot spacing around it is degenerate, and one such vertex spoils the
/// polyline: either all the points come back, in their order, or the error
/// and no point.
pub fn collect_polyline<T: Copy>(vertices: &Vec<Vertex<T>>) -> (result: Result<
    Vec<[T; 2]>,
    TessellationError,
>)
    ensures
        match gathered(vertices@) {
            Some(points) => result is Ok && result.unwrap()@ == points,
            None => result == Err::<Vec<[T; 2]>, TessellationError>(
                TessellationError::DegenerateSpacing,
            ),
        },
{
    let mut points: Vec<[T; 2]> = Vec::with_capacity(vertices.len());
    let mut index: usize = 0;
    while index < vertices.len()
        invariant
            index <= vertices@.len(),
            points@.len() == index,
            forall|i: int|
                0 <= i < index ==> vertices@[i] == (Vertex::Given { point: points@[i] }),
        decreases vertices@.len() - index,
    {
        match vertices[index] {
            Vertex::Given { point } => {
                points.push(point);
            },
            _ => {
                return Err(TessellationError::DegenerateSpacing);
            },
        }
        index += 1;
    }
    Ok(points)
}

/// Gathers the line strips of a drawing once the vertices of its outlines
/// have been evaluated: of each outline the points and the colour.
///
/// The first outline with a vertex that has no point stops the work: the
/// error names its curve.
pub fn collect_line_strips<T: Copy>(outlines: &Vec<Outline<T>>) -> (result: Result<
    Vec<LineStrip<T>>,
    CurveError,
>)
    ensures
        match result {
            Ok(strips) => {
                &&& strips@.len() == outlines@.len()
                &&& forall|i: int|
                    0 <= i < outlines@.len() ==> {
                        &&& gathered(outlines@[i].vertices@) == Some(strips@[i].positions@)
                        &&& strips@[i].color == outlines@[i].color
                    }
            },
            Err(error) => {
                &&& error.kind == TessellationError::DegenerateSpacing
                &&& error.curve < outlines@.len()
                &&& gathered(outlines@[error.curve as int].vertices@) is None
                &&& forall|i: int|
                    0 <= i < error.curve ==> gathered(outlines@[i].vertices@) is Some
            },
        },
{
    let mut strips: Vec<LineStrip<T>> = Vec::with_capacity(outlines.len());
    let mut index: usize = 0;
    while index < outlines.len()
        invariant
            index <= outlines@.len(),
            strips@.len() == index,
            forall|i: int|
                0 <= i < index ==> {
                    &&& gathered(outlines@[i].vertices@) == Some(strips@[i].positions@)
                    &&& strips@[i].color == outlines@[i].color
                },
        decreases outlines@.len() - index,
    {
        match collect_polyline(&outlines[index].vertices) {
            Ok(positions) => {
                strips.push(LineStrip { positions, color: outlines[index].color });
            },
            Err(kind) => {
                return Err(CurveError { curve: index, kind });
            },
        }
        index += 1;
    }
    Ok(strips)
}

/// Whether `evaluated` is `outline` after an evaluation: the two are equally
/// long, and the vertices that were given are as they were.
pub open spec fn evaluates<T>(evaluated: Seq<Vertex<T>>, outline: Seq<Vertex<T>>) -> bool {
    &&& evaluated.len() == outline.len()
    &&& forall|i: int| 0 <= i < outline.len() && outline[i] is Given ==> evaluated[i] == outline[i]
}

/// However the samples of a shape are evaluated, its polyline has one point
/// for each vertex of the layout. The polyline of straight segments is their
/// points, and the polyline of a spline with `n` points and `samples`
/// samples on a segment has `(n - 3) * samples + 1` points and ends in the
/// spline's last but one point.
pub proof fn lemma_polyline_keeps_layout<T>(shape: Shape<T>, evaluated: Seq<Vertex<T>>)
    requires
        shape.violation() is None,
        evaluates(evaluated, shape.outline()),
        gathered(evaluated) is Some,
    ensures
        gathered(evaluated).unwrap().len() == shape.vertex_count(),
        shape is Lines ==> gathered(evaluated).unwrap() == shape->Lines_points@,
        shape is CatmullRom ==> {
            &&& gathered(evaluated).unwrap().len() == (shape->CatmullRom_points@.len() - 3)
                * shape->CatmullRom_samples + 1
            &&& gathered(evaluated).unwrap().last()
                == shape->CatmullRom_points@[shape->CatmullRom_points@.len() - 2]
        },
{
}

/// The vertices of a Bézier curve step through the parameters from 0 to 1:
/// vertex `step` stands for the parameter `step / (samples - 1)`, so the
/// first one for 0 and the last one for 1.
pub proof fn lemma_bezier_parameters<T>(shape: Shape<T>, step: int)
    requires
        shape is Bezier,
        shape.violation() is None,
        0 <= step < shape->Bezier_samples,
    ensures
        shape.outline().len() == shape->Bezier_samples,
        shape.outline()[step] == (Vertex::<T>::Bezier {
            step: step as usize,
            last: (shape->Bezier_samples - 1) as usize,
        }),
{
}

/// Both ways of evaluating a Bézier curve are asked for the same parameters
/// in the same order, and so, with `bezier::lemma_de_casteljau_is_direct`,
/// for the same points.
pub proof fn lemma_bezier_modes_share_outline<T>(direct: Shape<T>, de_casteljau: Shape<T>)
    requires
        direct is Bezier,
        de_casteljau is Bezier,
        direct->Bezier_points == de_casteljau->Bezier_points,
        direct->Bezier_samples == de_casteljau->Bezier_samples,
    ensures
        direct.violation() == de_casteljau.violation(),
        direct.outline() == de_casteljau.outline(),
{
}

/// The polyline of a spline with `n` points and `samples` samples on a
/// segment has `(n - 3) * samples + 1` vertices, and the last of them is the
/// spline's last but one point.
pub proof fn lemma_spline_ends<T>(shape: Shape<T>)
    requires
        shape is CatmullRom,
        shape.violation() is None,
    ensures
        shape.outline().len() == (shape->CatmullRom_points@.len() - 3) * shape->CatmullRom_samples
            + 1,
        shape.outline().last() == (Vertex::<T>::Given {
            point: shape->CatmullRom_points@[shape->CatmullRom_points@.len() - 2],
        }),
{
}

/// Sample `step` of the run of four points that starts at `window` stands at
/// `window * samples + step` of a spline's polyline: the samples keep the
/// order of the runs and, within a run, their own, and all of them come
/// before the last vertex.
pub proof fn lemma_spline_sample<T>(shape: Shape<T>, window: int, step: int)
    requires
        shape is CatmullRom,
        shape.violation() is None,
        0 <= window < shape->CatmullRom_points@.len() - 3,
        0 <= step < shape->CatmullRom_samples,
    ensures
        0 <= window * shape->CatmullRom_samples + step < shape.outline().len() - 1,
        shape.outline()[window * shape->CatmullRom_samples + step] == (Vertex::<T>::Spline {
            window: window as usize,
            step: step as usize,
            steps: shape->CatmullRom_samples,
        }),
{
    let samples = shape->CatmullRom_samples as int;
    let windows = shape->CatmullRom_points@.len() - 3;
    let position = window * samples + step;
    lemma_fundamental_div_mod_converse(position, samples, window, step);
    assert(0 <= position < windows * samples) by (nonlinear_arith)
        requires
            position == window * samples + step,
            0 <= step < samples,
            0 <= window < windows,
    ;
}

} // verus!
