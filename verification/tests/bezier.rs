use bezier_editor::bezier::{
    generate_bezier_points, generate_bezier_points_with_offset, split_bezier,
    try_generate_bezier_points_with_offset, try_split_bezier, ControlPointArray, CurveError,
};
use bezier_editor::position::{Fraction, Position, SamplePoint};

fn test_split_granular(
    start_point: Position,
    start_handle: Position,
    end_handle: Position,
    end_point: Position,
    t_num: i64,
    t_den: i64,
    point_count: usize,
) -> Result<(), String> {
    let cp = ControlPointArray::new(start_point, start_handle, end_handle, end_point);
    let single_curve = generate_bezier_points_with_offset(&cp, Some(point_count), None, false);

    let (curve_1, curve_2) = split_bezier(&cp, Fraction::new(t_num, t_den));
    let t = t_num as f64 / t_den as f64;
    let curve_1_points = (point_count as f64 * t).round() as usize;

    let curve_1 = generate_bezier_points_with_offset(&curve_1, Some(curve_1_points), None, false);
    let curve_2 = generate_bezier_points_with_offset(
        &curve_2,
        Some(point_count - curve_1_points),
        None,
        false,
    );

    let final_points: Vec<SamplePoint> = curve_1.into_iter().chain(curve_2.into_iter()).collect();
    assert_eq!(final_points.len(), single_curve.len());

    for (i, (p1, p2)) in single_curve.iter().zip(final_points.iter()).enumerate() {
        if !p1.same_value(p2) {
            return Err(format!("point {} differs: {:?} vs {:?}", i, p1, p2));
        }
    }

    Ok(())
}

fn test_split(t_num: i64, t_den: i64, point_count: usize) -> Result<(), String> {
    let start_point = Position::new(100, 100);
    let start_handle = Position::new(150, 100);
    let end_handle = Position::new(150, -100);
    let end_point = Position::new(100, -100);

    test_split_granular(
        start_point,
        start_handle,
        end_handle,
        end_point,
        t_num,
        t_den,
        point_count,
    )
}

#[test]
fn split_bezier_simple() {
    test_split(1, 2, 20).unwrap();
}

#[test]
fn split_bezier_single() {
    test_split(1, 2, 2).unwrap();
}

#[test]
fn split_bezier_many() {
    test_split(1, 2, 20000).unwrap();
}

#[test]
fn split_bezier_all_t() {
    let subdivisions = 60;

    for i in 1..subdivisions {
        test_split(i as i64, subdivisions as i64, subdivisions).unwrap();
    }
}

#[test]
fn default_curve_scenario() {
    // The editor's startup curve, sampled with the default sixty segments
    // and the inclusive end point.
    let cp = ControlPointArray::new(
        Position::new(200, 240),
        Position::new(400, 456),
        Position::new(400, 24),
        Position::new(600, 240),
    );
    let points = generate_bezier_points(&cp);
    assert_eq!(points.len(), 61);

    let first = points[0];
    let start = SamplePoint { x: 200, y: 240, den: 1 };
    assert!(first.same_value(&start));

    let last = points[60];
    assert_eq!(last.x, 600);
    assert_eq!(last.y, 240);
    assert_eq!(last.den, 1);
}

#[test]
fn sampler_cardinality() {
    let cp = ControlPointArray::new(
        Position::new(0, 0),
        Position::new(10, 20),
        Position::new(20, 20),
        Position::new(30, 0),
    );
    let open_polyline = generate_bezier_points_with_offset(&cp, Some(7), None, false);
    assert_eq!(open_polyline.len(), 7);
    let closed_polyline = generate_bezier_points_with_offset(&cp, Some(7), None, true);
    assert_eq!(closed_polyline.len(), 8);
}

#[test]
fn sampler_zero_subdivisions_fails() {
    let cp = ControlPointArray::new(
        Position::new(0, 0),
        Position::new(10, 20),
        Position::new(20, 20),
        Position::new(30, 0),
    );
    let r = try_generate_bezier_points_with_offset(&cp, Some(0), None, true);
    assert_eq!(r, Err(CurveError::ZeroSubdivisions));
    let ok = try_generate_bezier_points_with_offset(&cp, Some(3), None, false);
    assert_eq!(ok.unwrap().len(), 3);
}

#[test]
fn splitter_rejects_out_of_range_parameter() {
    let cp = ControlPointArray::new(
        Position::new(0, 0),
        Position::new(10, 20),
        Position::new(20, 20),
        Position::new(30, 0),
    );
    let r = try_split_bezier(&cp, Fraction::new(5, 4));
    assert_eq!(r.err(), Some(CurveError::ParameterOutOfRange));
    let r = try_split_bezier(&cp, Fraction::new(-1, 4));
    assert_eq!(r.err(), Some(CurveError::ParameterOutOfRange));
    assert!(try_split_bezier(&cp, Fraction::new(1, 4)).is_ok());
}

#[test]
fn sampler_deterministic() {
    let cp = ControlPointArray::new(
        Position::new(200, 240),
        Position::new(400, 456),
        Position::new(400, 24),
        Position::new(600, 240),
    );
    let offset = Some(Fraction::new(3, 16));
    let r1 = generate_bezier_points_with_offset(&cp, Some(10), offset, false);
    let r2 = generate_bezier_points_with_offset(&cp, Some(10), offset, false);
    assert_eq!(r1, r2);
}

#[test]
fn sampler_offset_wraps() {
    // With n = 4 and offset 1/4, the samples are the plain samples rotated
    // by one step: t = fract(i/4 + 1/4).
    let cp = ControlPointArray::new(
        Position::new(0, 0),
        Position::new(10, 30),
        Position::new(20, 30),
        Position::new(30, 0),
    );
    let plain = generate_bezier_points_with_offset(&cp, Some(4), None, false);
    let shifted = generate_bezier_points_with_offset(&cp, Some(4), Some(Fraction::new(1, 4)), false);
    for i in 0..4 {
        assert!(shifted[i].same_value(&plain[(i + 1) % 4]));
    }
}

#[test]
fn split_children_meet_at_split_point() {
    let cp = ControlPointArray::new(
        Position::new(100, 100),
        Position::new(150, 100),
        Position::new(150, -100),
        Position::new(100, -100),
    );
    let (c1, c2) = split_bezier(&cp, Fraction::new(3, 10));
    assert_eq!(c1.end_point, c2.start_point);
    assert_eq!(c1.den, c2.den);
}

#[test]
fn evaluator_boundary_values() {
    let cp = ControlPointArray::new(
        Position::new(200, 240),
        Position::new(400, 456),
        Position::new(400, 24),
        Position::new(600, 240),
    );
    let at_start = bezier_editor::bezier::bezier(&cp, Fraction::new(0, 1));
    assert_eq!(at_start.x, 200);
    assert_eq!(at_start.y, 240);
    assert_eq!(at_start.den, 1);
    let at_end = bezier_editor::bezier::bezier(&cp, Fraction::new(1, 1));
    assert_eq!(at_end.x, 600);
    assert_eq!(at_end.y, 240);
    assert_eq!(at_end.den, 1);
}

#[test]
fn split_round_trip_fuzz() {
    // Pseudo-random control points, split at one half, varying even sample
    // counts: the concatenated child samples must reproduce the parent's.
    let mut state: u64 = 0x2545F4914F6CDD1D;
    let mut next = move || {
        state ^= state << 13;
        state ^= state >> 7;
        state ^= state << 17;
        state
    };
    for trial in 0..10000 {
        let coord = |v: u64| (v % 2001) as i64 - 1000;
        let start_point = Position::new(coord(next()), coord(next()));
        let start_handle = Position::new(coord(next()), coord(next()));
        let end_handle = Position::new(coord(next()), coord(next()));
        let end_point = Position::new(coord(next()), coord(next()));
        let point_count = 2 + 2 * ((trial % 15) as usize);
        test_split_granular(
            start_point,
            start_handle,
            end_handle,
            end_point,
            1,
            2,
            point_count,
        )
        .unwrap();
    }
}
