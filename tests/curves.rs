use bezier_splines::cubic::CubicBezier;
use bezier_splines::geometry::{CurveError, Param, Point, Sample};
use bezier_splines::kernel::evaluate;
use bezier_splines::segment::BezierCurve;

fn pts(v: &[(i64, i64)]) -> Vec<Point> {
    v.iter().map(|&(x, y)| Point::new(x, y)).collect()
}

fn t(num: i64, den: i64) -> Param {
    Param::new(num, den).unwrap()
}

#[test]
fn new_curve_has_the_default_shape() {
    let c = BezierCurve::new();
    assert_eq!(c.control_points, pts(&[(50, 50), (100, 100), (150, 100), (200, 50)]));
    assert_eq!(c.selected_point, None);
    assert_eq!(c.half_size, 5);
    assert_eq!(c.grid, 0);
    let s = c.point(t(1, 2));
    assert_eq!((s.x, s.y, s.scale), (1000, 700, 8));
}

#[test]
fn with_control_points_needs_two() {
    assert!(matches!(
        BezierCurve::with_control_points(pts(&[(1, 1)]), 5, 0),
        Err(CurveError::InvalidDegree)
    ));
    let c = BezierCurve::with_control_points(pts(&[(1, 1), (2, 2)]), 5, 0).unwrap();
    assert_eq!(c.control_points.len(), 2);
}

#[test]
fn click_drag_release_round_trip() {
    let mut c = BezierCurve::with_control_points(pts(&[(0, 0), (40, 0), (80, 0)]), 5, 0).unwrap();
    assert!(c.click(43, -5));
    assert_eq!(c.selected_point, Some(1));
    c.drag(17, 23);
    assert_eq!(c.control_points[1], Point::new(17, 23));
    c.release();
    assert_eq!(c.selected_point, None);
    c.drag(0, 0);
    assert_eq!(c.control_points[1], Point::new(17, 23));
    assert!(!c.click(200, 200));
    assert_eq!(c.selected_point, None);
}

#[test]
fn every_cursor_in_the_box_hits_and_drag_lands() {
    let start = pts(&[(0, 0), (40, 0), (80, 0)]);
    for dx in -5..=5 {
        for dy in -5..=5 {
            let mut c = BezierCurve::with_control_points(start.clone(), 5, 0).unwrap();
            assert_eq!(c.hit_test(80 + dx, dy), Some(2));
            c.select(2).unwrap();
            c.drag(-13, 77);
            assert_eq!(c.control_points[2], Point::new(-13, 77));
        }
    }
}

#[test]
fn drag_snaps_to_the_grid() {
    let mut c = BezierCurve::with_control_points(
        pts(&[(50, 50), (100, 100), (150, 100), (200, 50)]),
        5,
        10,
    )
    .unwrap();
    c.select(0).unwrap();
    c.drag(123, 46);
    assert_eq!(c.control_points[0], Point::new(120, 50));
}

#[test]
fn select_out_of_range_fails() {
    let mut c = BezierCurve::new();
    assert_eq!(c.select(4), Err(CurveError::IndexOutOfRange));
    assert_eq!(c.selected_point, None);
    assert_eq!(c.select(3), Ok(()));
    assert_eq!(c.selected_point, Some(3));
}

#[test]
fn removing_from_two_points_fails_and_keeps_the_curve() {
    let mut c = BezierCurve::with_control_points(pts(&[(0, 0), (10, 10)]), 5, 0).unwrap();
    c.select(1).unwrap();
    assert_eq!(c.remove_point(0), Err(CurveError::InvalidDegree));
    assert_eq!(c.control_points, pts(&[(0, 0), (10, 10)]));
    assert_eq!(c.selected_point, Some(1));
    assert_eq!(c.remove_point(2), Err(CurveError::IndexOutOfRange));
    assert_eq!(c.right_click(10, 10), Err(CurveError::InvalidDegree));
    assert_eq!(c.control_points.len(), 2);
}

#[test]
fn removing_a_point_moves_the_selection_along() {
    let mut c = BezierCurve::new();
    c.select(3).unwrap();
    assert_eq!(c.remove_point(1), Ok(()));
    assert_eq!(c.control_points, pts(&[(50, 50), (150, 100), (200, 50)]));
    assert_eq!(c.selected_point, Some(2));
    assert_eq!(c.right_click(201, 49), Ok(true));
    assert_eq!(c.control_points, pts(&[(50, 50), (150, 100)]));
    assert_eq!(c.selected_point, None);
    assert_eq!(c.right_click(0, 0), Ok(false));
}

#[test]
fn right_click_ends_the_drag() {
    let mut c = BezierCurve::with_control_points(pts(&[(0, 0), (100, 0), (200, 0)]), 5, 0).unwrap();
    c.select(2).unwrap();
    assert_eq!(c.right_click(0, 0), Ok(true));
    assert_eq!(c.control_points, pts(&[(100, 0), (200, 0)]));
    assert_eq!(c.selected_point, None);
    c.select(1).unwrap();
    assert_eq!(c.right_click(50, 50), Ok(false));
    assert_eq!(c.selected_point, Some(1));
    assert_eq!(c.control_points.len(), 2);
}

#[test]
fn added_points_raise_the_degree() {
    let mut c = BezierCurve::with_control_points(pts(&[(0, 0), (10, 0)]), 5, 0).unwrap();
    c.add_point(10, 10);
    assert_eq!(c.control_points.len(), 3);
    let s = c.point(t(1, 2));
    // (0 + 2 * 10 + 10) / 4, (0 + 0 + 10) / 4
    assert_eq!(s, Sample { x: 30, y: 10, scale: 4 });
    let levels = c.subdivision_levels(t(1, 2));
    assert_eq!(levels.len(), 3);
    assert_eq!(levels[0].len(), 3);
    assert_eq!(levels[2], vec![s]);
    assert_eq!(c.de_casteljaus(t(1, 2), 3), Err(CurveError::IndexOutOfRange));
}

#[test]
fn cubic_point_and_de_casteljau_agree() {
    let c = CubicBezier::new();
    let a = c.point(t(1, 2));
    assert_eq!((a.x, a.y, a.scale), (1000, 700, 8));
    for tt in [t(0, 1), t(1, 3), t(2, 3), t(1, 1), t(-1, 4), t(9, 5)] {
        let a = c.point(tt);
        let b = c.de_casteljaus(tt);
        assert_eq!(a, b);
        assert_eq!(a, evaluate(&c.points(), tt).unwrap());
    }
}

#[test]
fn cubic_interaction() {
    let mut c = CubicBezier::with_control_points([
        Point::new(0, 0),
        Point::new(10, 0),
        Point::new(20, 0),
        Point::new(30, 0),
    ]);
    c.click(11, 2);
    assert_eq!(c.selected_point, Some(1));
    c.click(500, 500);
    assert_eq!(c.selected_point, Some(1));
    c.drag(12, 13);
    assert_eq!(c.control_points[1], Point::new(12, 13));
    c.release();
    assert_eq!(c.selected_point, None);
    assert_eq!(c.select(4), Err(CurveError::IndexOutOfRange));
}
