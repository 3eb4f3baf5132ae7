use linestrip::binomial::BinomialTable;
use linestrip::curve::{collect_polyline, to_line_strip, TessellationError, Vertex};
use linestrip::input::{BezierMode, CatmullRomMode, Shape};

fn power(base: f32, exponent: usize) -> f32 {
    if exponent == 0 {
        1.0
    } else {
        base.powf(exponent as f32)
    }
}

fn homogeneous(point: &[f32; 3]) -> [f32; 3] {
    [point[2] * point[0], point[2] * point[1], point[2]]
}

fn direct(points: &[[f32; 3]], t: f32) -> [f32; 2] {
    let table = BinomialTable::new(points.len() - 1);
    let degree = table.degree();
    let mut sum = [0.0f32; 3];
    for (k, point) in points.iter().enumerate() {
        let weight = table.coefficient(k) as f32 * power(t, k) * power(1.0 - t, degree - k);
        let point = homogeneous(point);
        for axis in 0..3 {
            sum[axis] += weight * point[axis];
        }
    }
    [sum[0] / sum[2], sum[1] / sum[2]]
}

fn de_casteljau(points: &[[f32; 3]], t: f32) -> [f32; 2] {
    let mut buffer: Vec<[f32; 3]> = points.iter().map(homogeneous).collect();
    while buffer.len() > 1 {
        for i in 0..buffer.len() - 1 {
            for axis in 0..3 {
                buffer[i][axis] = (1.0 - t) * buffer[i][axis] + t * buffer[i + 1][axis];
            }
        }
        buffer.pop();
    }
    [buffer[0][0] / buffer[0][2], buffer[0][1] / buffer[0][2]]
}

fn distance(a: [f32; 2], b: [f32; 2]) -> f32 {
    ((a[0] - b[0]).powi(2) + (a[1] - b[1]).powi(2)).sqrt()
}

fn blend(a: [f32; 2], b: [f32; 2], r: f32) -> [f32; 2] {
    [(1.0 - r) * a[0] + r * b[0], (1.0 - r) * a[1] + r * b[1]]
}

fn catmull_rom(
    points: &[[f32; 2]],
    mode: CatmullRomMode,
    step: usize,
    steps: usize,
) -> Option<[f32; 2]> {
    let increments: Vec<f32> = (0..3)
        .map(|i| match mode {
            CatmullRomMode::Uniform => 1.0,
            CatmullRomMode::Chordal => distance(points[i], points[i + 1]),
            CatmullRomMode::Centripetal => distance(points[i], points[i + 1]).sqrt(),
        })
        .collect();
    if increments.iter().any(|increment| *increment == 0.0) {
        return None;
    }
    let knots: Vec<f32> = (0..4).map(|i| increments[0..i].iter().sum()).collect();
    let t = knots[1] + increments[1] * (step as f32 / steps as f32);
    let firsts: Vec<[f32; 2]> = (0..3)
        .map(|i| blend(points[i], points[i + 1], (t - knots[i]) / increments[i]))
        .collect();
    let seconds: Vec<[f32; 2]> = (0..2)
        .map(|i| {
            blend(firsts[i], firsts[i + 1], (t - knots[i]) / (increments[i] + increments[i + 1]))
        })
        .collect();
    Some(blend(seconds[0], seconds[1], (t - knots[1]) / increments[1]))
}

fn polyline(shape: &Shape<f32>) -> Result<Vec<[f32; 2]>, TessellationError> {
    let vertices = to_line_strip(shape)?;
    let evaluated: Vec<Vertex<f32>> = vertices
        .iter()
        .map(|vertex| match (*vertex, shape) {
            (Vertex::Bezier { step, last }, Shape::Bezier { points, mode, .. }) => {
                let t = step as f32 / last as f32;
                Vertex::Given {
                    point: match mode {
                        BezierMode::Direct => direct(points, t),
                        BezierMode::DeCasteljau => de_casteljau(points, t),
                    },
                }
            }
            (Vertex::Spline { window, step, steps }, Shape::CatmullRom { points, mode, .. }) => {
                match catmull_rom(&points[window..window + 4], *mode, step, steps) {
                    Some(point) => Vertex::Given { point },
                    None => *vertex,
                }
            }
            _ => *vertex,
        })
        .collect();
    collect_polyline(&evaluated)
}

fn sampled(points: &[[f32; 3]], samples: usize, mode: BezierMode) -> Vec<[f32; 2]> {
    polyline(&Shape::Bezier { points: points.to_vec(), samples, mode }).unwrap()
}

#[test]
fn constant_curve_of_one_control_point() {
    for mode in [BezierMode::Direct, BezierMode::DeCasteljau] {
        assert_eq!(sampled(&[[3.0, 4.0, 1.0]], 2, mode), vec![[3.0, 4.0], [3.0, 4.0]]);
    }
}

#[test]
fn line_between_two_control_points_ends_in_them() {
    let points = [[1.0, 2.0, 1.0], [7.0, -3.0, 1.0]];
    assert_eq!(sampled(&points, 2, BezierMode::Direct), vec![[1.0, 2.0], [7.0, -3.0]]);
    assert_eq!(
        sampled(&points, 3, BezierMode::Direct),
        vec![[1.0, 2.0], [4.0, -0.5], [7.0, -3.0]]
    );
}

#[test]
fn quadratic_curve_at_its_middle() {
    let points = [[0.0, 0.0, 1.0], [1.0, 2.0, 1.0], [2.0, 0.0, 1.0]];
    assert_eq!(
        sampled(&points, 3, BezierMode::Direct),
        vec![[0.0, 0.0], [1.0, 1.0], [2.0, 0.0]]
    );
    let heavy = [[0.0, 0.0, 1.0], [1.0, 2.0, 3.0], [2.0, 0.0, 1.0]];
    assert_eq!(sampled(&heavy, 3, BezierMode::Direct)[1], [1.0, 1.5]);
}

#[test]
fn both_modes_agree_on_every_sample() {
    let curves: Vec<Vec<[f32; 3]>> = vec![
        vec![[0.0, 0.0, 1.0], [1.0, 2.0, 1.0], [2.0, 0.0, 1.0]],
        vec![[0.0, 0.0, 1.0], [1.0, 2.0, 0.5], [3.0, 1.0, 2.0], [4.0, 0.0, 1.0]],
        vec![[5.0, 1.0, 2.0], [-1.0, 2.0, 1.0], [3.0, 3.0, 4.0], [0.0, 7.0, 1.0], [2.0, 2.0, 1.0]],
        (0..12).map(|i| [i as f32, (i * i % 7) as f32, 1.0 + (i % 3) as f32]).collect(),
    ];
    for points in &curves {
        for samples in [2, 5, 33] {
            let direct = sampled(points, samples, BezierMode::Direct);
            let other = sampled(points, samples, BezierMode::DeCasteljau);
            assert_eq!(direct.len(), samples);
            assert_eq!(other.len(), samples);
            for (a, b) in direct.iter().zip(other.iter()) {
                assert!(distance(*a, *b) < 1e-4, "{a:?} and {b:?}");
            }
        }
    }
}

#[test]
fn line_ends_in_its_control_points_in_both_modes() {
    let points = [[0.0, 0.0, 1.0], [1.0, 2.0, 1.0]];
    for mode in [BezierMode::Direct, BezierMode::DeCasteljau] {
        assert_eq!(sampled(&points, 2, mode), vec![[0.0, 0.0], [1.0, 2.0]]);
    }
}

#[test]
fn quarter_of_a_line_in_both_modes() {
    let points = [[0.0, 0.0, 1.0], [4.0, 8.0, 1.0]];
    for mode in [BezierMode::Direct, BezierMode::DeCasteljau] {
        assert_eq!(sampled(&points, 5, mode)[1], [1.0, 2.0]);
        assert_eq!(sampled(&points, 5, mode)[3], [3.0, 6.0]);
    }
    assert_eq!(de_casteljau(&points, 0.25), [1.0, 2.0]);
    assert_eq!(direct(&points, 0.25), [1.0, 2.0]);
}

#[test]
fn curves_end_in_their_control_points_in_both_modes() {
    let points = [[5.0, 1.0, 1.0], [-1.0, 2.0, 1.0], [3.0, 3.0, 1.0], [0.0, 7.0, 1.0]];
    for mode in [BezierMode::Direct, BezierMode::DeCasteljau] {
        let polyline = sampled(&points, 7, mode);
        assert_eq!(polyline[0], [5.0, 1.0]);
        assert_eq!(polyline[6], [0.0, 7.0]);
    }
}

#[test]
fn equal_factor_on_all_weights_changes_nothing() {
    let light = [[0.0, 0.0, 1.0], [1.0, 2.0, 3.0], [2.0, 0.0, 0.5]];
    let heavy = [[0.0, 0.0, 4.0], [1.0, 2.0, 12.0], [2.0, 0.0, 2.0]];
    for mode in [BezierMode::Direct, BezierMode::DeCasteljau] {
        assert_eq!(sampled(&light, 9, mode), sampled(&heavy, 9, mode));
    }
}

#[test]
fn heavier_control_point_pulls_the_curve() {
    let target = [1.0, 2.0];
    let light = sampled(&[[0.0, 0.0, 1.0], [1.0, 2.0, 1.0], [2.0, 0.0, 1.0]], 9, BezierMode::Direct);
    let heavy = sampled(&[[0.0, 0.0, 1.0], [1.0, 2.0, 4.0], [2.0, 0.0, 1.0]], 9, BezierMode::Direct);
    for i in 1..8 {
        assert!(distance(heavy[i], target) < distance(light[i], target));
    }
    assert_eq!(heavy[0], light[0]);
    assert_eq!(heavy[8], light[8]);
}

#[test]
fn spline_through_points_on_a_line_stays_on_the_line() {
    let points = vec![[0.0, 1.0], [1.0, 3.0], [2.0, 5.0], [3.0, 7.0]];
    let shape = Shape::CatmullRom { points, samples: 4, mode: CatmullRomMode::Uniform };
    let polyline = polyline(&shape).unwrap();
    assert_eq!(
        polyline,
        vec![[1.0, 3.0], [1.25, 3.5], [1.5, 4.0], [1.75, 4.5], [2.0, 5.0]]
    );
    for point in polyline {
        assert_eq!(point[1], 2.0 * point[0] + 1.0);
    }
}

#[test]
fn spline_starts_at_its_second_point() {
    let points = vec![[0.0, 0.0], [1.0, 1.0], [2.0, 0.0], [3.0, 1.0]];
    let shape = Shape::CatmullRom { points, samples: 5, mode: CatmullRomMode::Uniform };
    let polyline = polyline(&shape).unwrap();
    assert_eq!(polyline.len(), (4 - 3) * 5 + 1);
    assert_eq!(polyline[0], [1.0, 1.0]);
    assert_eq!(polyline[5], [2.0, 0.0]);
    for point in &polyline[1..5] {
        assert!(1.0 < point[0] && point[0] < 2.0);
    }
}

#[test]
fn spline_between_coincident_points_is_rejected() {
    let points = vec![[0.0, 0.0], [1.0, 1.0], [1.0, 1.0], [3.0, 1.0]];
    for mode in [CatmullRomMode::Chordal, CatmullRomMode::Centripetal] {
        let shape = Shape::CatmullRom { points: points.clone(), samples: 5, mode };
        assert_eq!(polyline(&shape), Err(TessellationError::DegenerateSpacing));
    }
    let shape = Shape::CatmullRom { points, samples: 5, mode: CatmullRomMode::Uniform };
    assert_eq!(polyline(&shape).unwrap().len(), 6);
}

#[test]
fn errors_read_as_sentences() {
    assert_eq!(
        TessellationError::EmptyControlPoints.message(),
        "need at least one point to draw a bezier curve"
    );
    assert_eq!(
        TessellationError::InsufficientSplinePoints.message(),
        "need at least four points to draw a catmull rom spline"
    );
    assert_eq!(
        TessellationError::DegenerateSampleCount.message(),
        "need at least two samples to draw a bezier curve"
    );
    assert_eq!(
        TessellationError::DegenerateSpacing.message(),
        "need distinct neighbouring points to draw a catmull rom spline"
    );
}
