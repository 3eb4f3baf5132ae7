//! The description of a drawing: a canvas and the curves on it.
use vstd::prelude::*;

verus! {

/// The strategy by which a Bézier curve is evaluated.
#[derive(Clone, Copy, Debug, PartialEq, Eq)]
pub enum BezierMode {
    /// The weighted sum of the control points in Bernstein form.
    Direct,
    /// Repeated linear interpolation between neighbouring control points.
    DeCasteljau,
}

/// The knot spacing of a Catmull-Rom spline.
#[derive(Clone, Copy, Debug, PartialEq, Eq)]
pub enum CatmullRomMode {
    /// Every knot interval has length one.
    Uniform,
    /// A knot interval is as long as the distance between its two points.
    Chordal,
    /// A knot interval is as long as the square root of that distance.
    Centripetal,
}

/// A curve, generic over the type `T` of a coordinate.
#[derive(Clone, Debug, PartialEq)]
#[allow(inconsistent_fields)]
pub enum Shape<T> {
    /// A polyline that is given point by point.
    Lines { points: Vec<[T; 2]> },
    /// A rational Bézier curve. A control point is `[x, y, w]` with a positive
    /// weight `w`; the curve is sampled at `samples` parameters from 0 to 1.
    Bezier { points: Vec<[T; 3]>, samples: usize, mode: BezierMode },
    /// A Catmull-Rom spline through `points`, with `samples` samples on each of
    /// its segments.
    CatmullRom { points: Vec<[T; 2]>, samples: usize, mode: CatmullRomMode },
}

/// A shape and the colour it is drawn in, as `0x00RRGGBB`.
#[derive(Clone, Debug, PartialEq)]
pub struct Curve<T> {
    pub shape: Shape<T>,
    pub color: u32,
}

/// The image that the curves are drawn on: its width and height in pixels and
/// its background colour, as `0x00RRGGBB`.
#[derive(Clone, Copy, Debug, PartialEq, Eq)]
pub struct Canvas {
    pub size: [u32; 2],
    pub color: u32,
}

/// A whole drawing.
#[derive(Clone, Debug, PartialEq)]
pub struct Input<T> {
    pub canvas: Canvas,
    pub curve: Vec<Curve<T>>,
}

impl Canvas {
    /// Whether the canvas has any pixel at all.
    pub open spec fn has_area(&self) -> bool {
        self.size[0] != 0 && self.size[1] != 0
    }

    /// Tells whether neither side of the canvas is zero.
    pub fn is_drawable(&self) -> (drawable: bool)
        ensures
            drawable == self.has_area(),
    {
        self.size[0] != 0 && self.size[1] != 0
    }
}

} // verus!
