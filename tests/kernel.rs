use bezier_splines::geometry::{CurveError, Param, Point, Sample};
use bezier_splines::handles::{hit_test, snap_coord_i64, snap_in_range, snap_point};
use bezier_splines::kernel::{check_limits, evaluate, subdivide};

fn pts(v: &[(i64, i64)]) -> Vec<Point> {
    v.iter().map(|&(x, y)| Point::new(x, y)).collect()
}

fn t(num: i64, den: i64) -> Param {
    Param::new(num, den).unwrap()
}

fn as_f64(s: &Sample) -> (f64, f64) {
    (s.x as f64 / s.scale as f64, s.y as f64 / s.scale as f64)
}

#[test]
fn cubic_midpoint_scenario() {
    let p = pts(&[(50, 50), (100, 100), (150, 100), (200, 50)]);
    let s = evaluate(&p, t(1, 2)).unwrap();
    assert_eq!(s.scale, 8);
    assert_eq!(s.x, 125 * 8);
    assert_eq!(s.y, 700);
    let (x, y) = as_f64(&s);
    assert!((x - 125.0).abs() < 1e-9);
    assert!((y - 87.5).abs() < 1e-9);
}

#[test]
fn evaluate_equals_last_subdivision_level() {
    let shapes = vec![
        pts(&[(0, 0), (10, 30)]),
        pts(&[(50, 50), (100, 100), (150, 100), (200, 50)]),
        pts(&[(-7, 3), (12, -40), (99, 1), (5, 5), (0, 17), (-300, 2)]),
    ];
    let params = vec![t(0, 1), t(1, 1), t(1, 3), t(2, 7), t(5, 4), t(-1, 2)];
    for p in &shapes {
        for &tt in &params {
            let e = evaluate(p, tt).unwrap();
            let last = subdivide(p, tt, p.len() - 1).unwrap();
            assert_eq!(last.len(), 1);
            assert_eq!(last[0], e);
        }
    }
}

#[test]
fn endpoints_are_interpolated() {
    let p = pts(&[(-7, 3), (12, -40), (99, 1), (5, 5), (0, 17)]);
    for den in [1i64, 2, 9, 1000] {
        let start = evaluate(&p, t(0, den)).unwrap();
        assert_eq!((start.x, start.y), (start.scale * -7, start.scale * 3));
        let end = evaluate(&p, t(den, den)).unwrap();
        assert_eq!((end.x, end.y), (end.scale * 0, end.scale * 17));
    }
}

#[test]
fn translation_moves_the_curve_point() {
    let p = pts(&[(-7, 3), (12, -40), (99, 1), (5, 5)]);
    let q: Vec<Point> = p.iter().map(|a| Point::new(a.x + 31, a.y - 4)).collect();
    for tt in [t(0, 1), t(1, 3), t(3, 5), t(1, 1), t(7, 3)] {
        let a = evaluate(&p, tt).unwrap();
        let b = evaluate(&q, tt).unwrap();
        assert_eq!(b.scale, a.scale);
        assert_eq!(b.x, a.x + 31 * a.scale);
        assert_eq!(b.y, a.y - 4 * a.scale);
    }
}

#[test]
fn quartic_blend_uses_binomial_weights() {
    // Only the middle point is non-zero: the weight is C(4, 2) / 2^4.
    let p = pts(&[(0, 0), (0, 0), (1, 2), (0, 0), (0, 0)]);
    let s = evaluate(&p, t(1, 2)).unwrap();
    assert_eq!(s, Sample { x: 6, y: 12, scale: 16 });
    let q = pts(&[(0, 0), (3, 0), (0, 0), (0, 0), (0, 0)]);
    let s = evaluate(&q, t(1, 3)).unwrap();
    // C(4, 1) * 2^3 * 1 * 3 over 3^4
    assert_eq!(s, Sample { x: 96, y: 0, scale: 81 });
}

#[test]
fn subdivision_levels_shrink_by_one() {
    let p = pts(&[(0, 0), (10, 0), (10, 10), (0, 10)]);
    let l0 = subdivide(&p, t(1, 2), 0).unwrap();
    assert_eq!(l0.len(), 4);
    assert_eq!(l0[1], Sample { x: 10, y: 0, scale: 1 });
    let l1 = subdivide(&p, t(1, 2), 1).unwrap();
    assert_eq!(l1, vec![
        Sample { x: 10, y: 0, scale: 2 },
        Sample { x: 20, y: 10, scale: 2 },
        Sample { x: 10, y: 20, scale: 2 },
    ]);
    let l2 = subdivide(&p, t(1, 2), 2).unwrap();
    assert_eq!(l2, vec![Sample { x: 30, y: 10, scale: 4 }, Sample { x: 30, y: 30, scale: 4 }]);
}

#[test]
fn degenerate_and_out_of_range_inputs() {
    let one = pts(&[(1, 1)]);
    assert_eq!(evaluate(&one, t(1, 2)), Err(CurveError::InvalidDegree));
    assert_eq!(subdivide(&one, t(1, 2), 0), Err(CurveError::InvalidDegree));
    let none: Vec<Point> = Vec::new();
    assert_eq!(evaluate(&none, t(1, 2)), Err(CurveError::InvalidDegree));
    let p = pts(&[(0, 0), (1, 1), (2, 0)]);
    assert_eq!(subdivide(&p, t(1, 2), 3), Err(CurveError::IndexOutOfRange));
    assert!(subdivide(&p, t(1, 2), 2).is_ok());
    assert!(Param::new(1, 0).is_none());
    assert!(Param::new(1, -2).is_none());
}

#[test]
fn limits_are_checked() {
    let p = pts(&[(50, 50), (100, 100), (150, 100), (200, 50)]);
    assert!(check_limits(&p, t(1, 2)));
    let big = pts(&[(i64::MAX, 0), (0, 0), (0, 0), (0, i64::MIN)]);
    assert!(!check_limits(&big, t(1, 1 << 40)));
    assert!(check_limits(&big, t(0, 1)));
    let many: Vec<Point> = (0..200).map(|k| Point::new(k, k)).collect();
    assert!(!check_limits(&many, t(1, 2)));
}

#[test]
fn snapping_rounds_to_the_nearest_multiple() {
    assert_eq!(snap_coord_i64(15, 10), 20);
    assert_eq!(snap_coord_i64(14, 10), 10);
    assert_eq!(snap_coord_i64(-15, 10), -20);
    assert_eq!(snap_coord_i64(-14, 10), -10);
    assert_eq!(snap_coord_i64(4, 3), 3);
    assert_eq!(snap_coord_i64(5, 3), 6);
    assert_eq!(snap_coord_i64(7, 0), 7);
    assert_eq!(snap_point(Point::new(123, -47), 25), Point::new(125, -50));
    assert!(snap_in_range(Point::new(1, 2), 10));
    assert!(!snap_in_range(Point::new(i64::MAX - 1, 0), 10));
    assert!(snap_in_range(Point::new(i64::MAX, i64::MIN), 0));
}

#[test]
fn hit_test_finds_the_first_box() {
    let p = pts(&[(0, 0), (3, 0), (100, 100)]);
    assert_eq!(hit_test(&p, Point::new(2, 1), 2), Some(0));
    assert_eq!(hit_test(&p, Point::new(4, 0), 2), Some(1));
    assert_eq!(hit_test(&p, Point::new(98, 102), 2), Some(2));
    assert_eq!(hit_test(&p, Point::new(97, 100), 2), None);
    for dx in -5..=5 {
        for dy in -5..=5 {
            assert_eq!(hit_test(&p, Point::new(100 + dx, 100 + dy), 5), Some(2));
        }
    }
}
