//! Tessellation of two-dimensional curves into line strips, and what it takes
//! to draw the strips into an image.
//!
//! A curve is described by a [`input::Shape`]: straight segments, a rational
//! Bézier curve or a Catmull-Rom spline. [`curve::to_line_strip`] checks the
//! description and lays out the polyline vertex by vertex: which vertices are
//! input points taken over unchanged, and at which parameter each of the
//! others has to be sampled. [`binomial::BinomialTable`] holds the exact
//! coefficients of the Bernstein form, and [`bezier`] and [`spline`] state
//! what the evaluations yield in exact arithmetic.
//!
//! The library is generic over the type of a coordinate and never computes
//! with coordinates itself: whoever evaluates the samples is free in the
//! choice of the number type, and hands the points back to
//! [`curve::collect_polyline`].
//!
//! [`output`] prepares the drawing: colours, the segments of a line list, the
//! layout of the rows of a texture, and the encoding of the pixels as a file.
pub mod args;
pub mod input;
pub mod output;
pub mod bezier;
pub mod binomial;
pub mod curve;
pub mod spline;
pub mod status;
pub mod term;
