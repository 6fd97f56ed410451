use bezier_splines::curve::Segment;
use bezier_splines::editor::{Button, Editor, Key};
use bezier_splines::geometry::{CurveError, Param, Point};
use bezier_splines::palette::Palette;
use bezier_splines::segment::BezierCurve;
use bezier_splines::spline::Spline;
use bezier_splines::themes::{Flat, Nord, Palette as Theme};

fn pts(v: &[(i64, i64)]) -> Vec<Point> {
    v.iter().map(|&(x, y)| Point::new(x, y)).collect()
}

fn joints_hold(s: &Spline) -> bool {
    s.links.iter().all(|&(a, b)| {
        b == a + 1 && b < s.segments.len() && {
            let pa = s.segments[a].control_points();
            let pb = s.segments[b].control_points();
            pa[pa.len() - 1] == pb[0]
        }
    })
}

fn general(v: &[(i64, i64)]) -> Segment {
    Segment::General(BezierCurve::with_control_points(pts(v), 2, 0).unwrap())
}

#[test]
fn append_segment_continues_the_last_one() {
    let mut s = Spline::new();
    s.append_segment();
    assert_eq!(s.segments.len(), 1);
    assert!(s.links.is_empty());
    s.append_segment();
    assert_eq!(s.links, vec![(0, 1)]);
    assert_eq!(
        s.segments[1].control_points(),
        pts(&[(200, 50), (250, 100), (300, 100), (350, 50)])
    );
    assert!(joints_hold(&s));
}

#[test]
fn default_spline_is_chained() {
    let s = Spline::new_default();
    assert_eq!(s.segments.len(), 4);
    assert_eq!(s.links, vec![(0, 1), (1, 2), (2, 3)]);
    assert_eq!(
        s.segments[3].control_points(),
        pts(&[(500, 50), (550, 100), (600, 100), (650, 50)])
    );
    assert!(joints_hold(&s));
}

#[test]
fn dragging_a_joint_moves_both_segments() {
    let mut s = Spline::new();
    s.append_segment();
    s.append_segment();
    assert_eq!(s.hit_test(200, 50), Some((0, 3)));
    s.click(200, 50);
    assert_eq!(s.selected, Some((0, 3)));
    s.drag(300, 300);
    assert_eq!(s.segments[0].control_points()[3], Point::new(300, 300));
    assert_eq!(s.segments[1].control_points()[0], Point::new(300, 300));
    assert!(joints_hold(&s));
    s.release();
    assert_eq!(s.selected, None);
    // The same point from the other side.
    s.click(300, 300);
    assert_eq!(s.selected, Some((0, 3)));
    s.release();
    s.segments[1].select(0).unwrap();
    s.selected = Some((1, 0));
    s.drag(-10, 4);
    assert_eq!(s.segments[0].control_points()[3], Point::new(-10, 4));
    assert_eq!(s.segments[1].control_points()[0], Point::new(-10, 4));
    assert!(joints_hold(&s));
}

#[test]
fn segment_drag_moves_only_a_selected_point() {
    let mut g = general(&[(0, 0), (5, 5), (10, 0)]);
    g.drag_to(Point::new(1, 1));
    assert_eq!(g.control_points(), pts(&[(0, 0), (5, 5), (10, 0)]));
    g.select(1).unwrap();
    g.drag_to(Point::new(7, -2));
    assert_eq!(g.control_points(), pts(&[(0, 0), (7, -2), (10, 0)]));
    g.clear_selection();
    g.drag_to(Point::new(9, 9));
    assert_eq!(g.control_points()[1], Point::new(7, -2));
    assert_eq!(g.select(3), Err(CurveError::IndexOutOfRange));
}

#[test]
fn removing_a_joint_point_drops_the_joint() {
    let mut s = Spline::new();
    s.segments.push(general(&[(0, 0), (5, 5), (10, 0)]));
    s.segments.push(general(&[(10, 0), (15, 5), (20, 0)]));
    s.links.push((0, 1));
    assert!(joints_hold(&s));
    assert_eq!(s.remove_point(1, 0), Ok(()));
    assert!(s.links.is_empty());
    assert_eq!(s.segments[1].control_points(), pts(&[(15, 5), (20, 0)]));
    assert!(joints_hold(&s));
}

#[test]
fn removing_an_inner_point_keeps_the_joint() {
    let mut s = Spline::new();
    s.segments.push(general(&[(0, 0), (5, 5), (10, 0)]));
    s.segments.push(general(&[(10, 0), (15, 5), (20, 0)]));
    s.links.push((0, 1));
    assert_eq!(s.remove_point(0, 1), Ok(()));
    assert_eq!(s.links, vec![(0, 1)]);
    assert!(joints_hold(&s));
}

#[test]
fn emptied_segment_leaves_with_its_joints() {
    let mut s = Spline::new();
    s.segments.push(general(&[(0, 0), (10, 0)]));
    s.segments.push(general(&[(10, 0), (20, 0)]));
    s.segments.push(general(&[(20, 0), (30, 0)]));
    s.segments.push(general(&[(30, 0), (40, 0)]));
    s.links = vec![(0, 1), (1, 2), (2, 3)];
    assert_eq!(s.remove_point(1, 1), Ok(()));
    assert_eq!(s.segments.len(), 3);
    assert_eq!(s.links, vec![(1, 2)]);
    assert_eq!(s.segments[1].control_points(), pts(&[(20, 0), (30, 0)]));
    assert!(joints_hold(&s));
}

#[test]
fn cubic_segments_keep_their_points() {
    let mut s = Spline::new_default();
    assert_eq!(s.remove_point(0, 1), Err(CurveError::InvalidDegree));
    assert_eq!(s.remove_point(0, 4), Err(CurveError::IndexOutOfRange));
    assert_eq!(s.remove_point(9, 0), Err(CurveError::IndexOutOfRange));
    assert_eq!(s.right_click(100, 100), Err(CurveError::InvalidDegree));
    assert_eq!(s.right_click(-100, -100), Ok(false));
    assert_eq!(s.segments.len(), 4);
    assert_eq!(s.append_point(0, Point::new(1, 1)), Err(CurveError::InvalidDegree));
}

#[test]
fn appending_to_a_joined_end_drops_the_joint() {
    let mut s = Spline::new();
    s.segments.push(general(&[(0, 0), (10, 0)]));
    s.segments.push(general(&[(10, 0), (20, 0)]));
    s.links.push((0, 1));
    assert_eq!(s.append_point(1, Point::new(30, 5)), Ok(()));
    assert_eq!(s.links, vec![(0, 1)]);
    assert_eq!(s.append_point(0, Point::new(12, 5)), Ok(()));
    assert!(s.links.is_empty());
    assert!(joints_hold(&s));
}

#[test]
fn joints_hold_through_a_sequence_of_edits() {
    let mut s = Spline::new();
    s.segments.push(general(&[(0, 0), (5, 5), (10, 0)]));
    s.links.clear();
    s.append_segment();
    s.append_segment();
    assert!(joints_hold(&s));
    s.click(20, 0);
    s.drag(25, 7);
    assert!(joints_hold(&s));
    s.release();
    assert_eq!(s.remove_point(1, 1), Ok(()));
    assert!(joints_hold(&s));
    assert_eq!(s.remove_point(1, 1), Ok(()));
    assert!(joints_hold(&s));
    s.append_segment();
    s.click(30, 0);
    s.drag(-3, -3);
    assert!(joints_hold(&s));
}

#[test]
fn spline_point_at_checks_the_segment() {
    let s = Spline::new_default();
    let p = s.point_at(1, Param::new(1, 2).unwrap()).unwrap();
    assert_eq!((p.x, p.y, p.scale), (8 * 275, 700, 8));
    assert!(s.point_at(4, Param::new(1, 2).unwrap()).is_err());
    let levels = s.subdivision_levels(0, Param::new(1, 2).unwrap()).unwrap();
    assert_eq!(levels.len(), 4);
    assert_eq!(levels[3][0].x, 1000);
}

#[test]
fn editor_drives_the_state_machine() {
    let mut e = Editor::new(Spline::new_default(), true);
    e.on_button(Button::Left, true, 200, 50);
    assert_eq!(e.spline.selected, Some((0, 3)));
    assert_eq!(e.active, Some(0));
    e.on_cursor_move(300, 300);
    assert_eq!(e.spline.segments[0].control_points()[3], Point::new(300, 300));
    assert_eq!(e.spline.segments[1].control_points()[0], Point::new(300, 300));
    e.on_button(Button::Left, false, 300, 300);
    assert_eq!(e.spline.selected, None);
    e.on_cursor_move(0, 0);
    assert_eq!(e.spline.segments[0].control_points()[3], Point::new(300, 300));
    e.on_key(Key::AddSegment, true);
    assert_eq!(e.spline.segments.len(), 5);
    e.on_key(Key::AddSegment, false);
    assert_eq!(e.spline.segments.len(), 5);
    // A right click off every point appends to the active segment only when
    // it can take points; cubic segments cannot.
    e.on_button(Button::Right, true, -500, -500);
    assert_eq!(e.spline.segments[0].control_points().len(), 4);
}

#[test]
fn editor_appends_and_removes_points() {
    let mut s = Spline::new();
    s.segments.push(general(&[(0, 0), (10, 0)]));
    let mut e = Editor::new(s, true);
    e.on_button(Button::Left, true, 0, 0);
    e.on_button(Button::Left, false, 0, 0);
    assert_eq!(e.active, Some(0));
    e.on_button(Button::Right, true, 50, 50);
    assert_eq!(e.spline.segments[0].control_points(), pts(&[(0, 0), (10, 0), (50, 50)]));
    e.on_button(Button::Right, true, 10, 0);
    assert_eq!(e.spline.segments[0].control_points(), pts(&[(0, 0), (50, 50)]));
    assert_eq!(e.active, None);
    e.on_button(Button::Right, true, 50, 50);
    assert_eq!(e.spline.segments.len(), 0);
}

#[test]
fn palettes_hold_their_colours() {
    let p = Palette::default();
    assert_eq!(p.background.value, "#3b4252");
    assert_eq!(p.curve_colors.len(), 4);
    assert_eq!(p.curve_colors[3].value, "#88c0d0");
    assert_eq!(p.primary.rgb(), Some([0x5e, 0x81, 0xac]));
    assert_eq!(Palette::nord().accent.rgb(), Some([0xd0, 0x87, 0x70]));
    let bad = bezier_splines::palette::Color { value: "#12345g" };
    assert_eq!(bad.rgb(), None);
    let upper = bezier_splines::palette::Color { value: "#ABCDEF" };
    assert_eq!(upper.rgb(), Some([0xab, 0xcd, 0xef]));
    assert_eq!(p.level_color(0, 3).value, "#e5e9f0");
    assert_eq!(p.level_color(3, 3).value, "#e5e9f0");
    assert_eq!(p.level_color(1, 3).value, "#a3be8c");
    assert_eq!(p.level_color(6, 9).value, "#ebcb8b");
    assert_eq!(Nord::background(), "#2e3440");
    assert_eq!(Flat::tertiary(), "#27ae60");
}
