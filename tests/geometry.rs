use rust_sadt::elements::{ArrowType, ConnectionPoint, Side};
use rust_sadt::geometry::{distance_sq, distance_sq_to_segment, Point, Rect, Vector, WORLD_LIMIT};
use rust_sadt::model::SadtDiagram;
use rust_sadt::spatial::{
    find_arrow_at, find_closest_connection_point, find_node_at, get_connection_pos, point_in_node,
};
use rust_sadt::transform::{Transform, MAX_ZOOM, MIN_ZOOM};

#[test]
fn screen_to_world_and_back() {
    let t = Transform::new(Point::new(10, 20), 2000);
    assert_eq!(t.screen_to_world(Point::new(100, 50)), Point::new(60, 45));
    assert_eq!(t.world_to_screen(Point::new(60, 45)), Point::new(100, 50));
    assert_eq!(t.screen_to_world(Point::new(-3, 0)), Point::new(9, 20));
}

#[test]
fn round_trip_is_exact_at_zoom_one_or_more() {
    for zoom in [1000, 1500, 2000, 3333, 20000] {
        let t = Transform::new(Point::new(-37, 512), zoom);
        for p in [Point::new(0, 0), Point::new(-1, 7), Point::new(12345, -678), Point::new(WORLD_LIMIT, -WORLD_LIMIT)] {
            assert_eq!(t.screen_to_world(t.world_to_screen(p)), p);
        }
    }
}

#[test]
fn round_trip_below_zoom_one_stays_within_a_screen_unit() {
    let t = Transform::new(Point::new(3, -4), 300);
    for x in -50..50 {
        let p = Point::new(x, 2 * x);
        let q = t.screen_to_world(t.world_to_screen(p));
        assert!(2 * 300 * (q.x - p.x).abs() <= 1000 + 300);
        assert!(2 * 300 * (q.y - p.y).abs() <= 1000 + 300);
    }
}

#[test]
fn transform_new_clamps() {
    let t = Transform::new(Point::new(i64::MAX, -5), 1);
    assert_eq!(t.pan, Point::new(WORLD_LIMIT, -5));
    assert_eq!(t.zoom, MIN_ZOOM);
    assert_eq!(Transform::new(Point::new(0, 0), 99_999).zoom, MAX_ZOOM);
}

#[test]
fn vectors_ignore_pan() {
    let t = Transform::new(Point::new(500, 500), 2000);
    assert_eq!(t.screen_vec_to_world(Vector::new(40, -20)), Vector::new(20, -10));
    assert_eq!(t.world_vec_to_screen(Vector::new(20, -10)), Vector::new(40, -20));
    let half = Transform::new(Point::new(0, 0), 500);
    assert_eq!(half.screen_vec_to_world(Vector::new(3, -3)), Vector::new(6, -6));
}

#[test]
fn world_rect_to_screen_maps_both_corners() {
    let t = Transform::new(Point::new(10, 10), 2000);
    let r = Rect { min: Point::new(10, 10), max: Point::new(20, 30) };
    let s = t.world_rect_to_screen(r);
    assert_eq!(s.min, Point::new(0, 0));
    assert_eq!(s.max, Point::new(20, 40));
}

#[test]
fn zoom_at_keeps_the_point_under_the_cursor() {
    let mut t = Transform::new(Point::new(0, 0), 1000);
    let cursor = Point::new(200, 100);
    let pivot = t.screen_to_world(cursor);
    t.zoom_at(cursor, 2000);
    assert_eq!(t.zoom, 2000);
    assert_eq!(t.pan, Point::new(100, 50));
    assert_eq!(t.screen_to_world(cursor), pivot);
    t.zoom_at(cursor, 1_000_000);
    assert_eq!(t.zoom, MAX_ZOOM);
    assert_eq!(t.screen_to_world(cursor), pivot);
}

#[test]
fn pan_by_screen_moves_against_the_drag() {
    let mut t = Transform::new(Point::new(0, 0), 2000);
    t.pan_by_screen(Vector::new(40, -20));
    assert_eq!(t.pan, Point::new(-20, 10));
    assert_eq!(t.zoom, 2000);
}

#[test]
fn squared_distances() {
    assert_eq!(distance_sq(Point::new(0, 0), Point::new(3, 4)), 25);
    let a = Point::new(0, 0);
    let b = Point::new(10, 0);
    assert_eq!(distance_sq_to_segment(Point::new(5, 5), a, b), 25);
    assert_eq!(distance_sq_to_segment(Point::new(-3, 4), a, b), 25);
    assert_eq!(distance_sq_to_segment(Point::new(13, -4), a, b), 25);
    assert_eq!(distance_sq_to_segment(Point::new(1, 1), a, a), 2);
    assert_eq!(distance_sq_to_segment(Point::new(1, 0), Point::new(0, 0), Point::new(2, 2)), 0);
    assert_eq!(distance_sq_to_segment(Point::new(0, 1), Point::new(0, 0), Point::new(3, 1)), 0);
}

#[test]
fn rect_contains_its_border_and_translates_inside_the_world() {
    let r = Rect { min: Point::new(0, 0), max: Point::new(10, 10) };
    assert!(r.contains(Point::new(10, 0)));
    assert!(!r.contains(Point::new(11, 0)));
    assert_eq!(r.center(), Point::new(5, 5));
    let moved = r.translate(Vector::new(20, -10));
    assert_eq!(moved.min, Point::new(20, -10));
    assert_eq!(moved.max, Point::new(30, 0));
    let stopped = r.translate(Vector::new(i64::MAX, 0));
    assert_eq!(stopped.max, Point::new(WORLD_LIMIT, 10));
    assert_eq!(Rect { min: Point::new(-3, -3), max: Point::new(0, 0) }.center(), Point::new(-2, -2));
}

#[test]
fn connection_points_are_side_midpoints() {
    let mut d = SadtDiagram::new();
    let a = d.add_node("A".to_string(), Point::new(100, 100));
    let n = d.get_node(a).unwrap();
    assert_eq!(get_connection_pos(n, Side::Left), Point::new(100, 130));
    assert_eq!(get_connection_pos(n, Side::Right), Point::new(220, 130));
    assert_eq!(get_connection_pos(n, Side::Top), Point::new(160, 100));
    assert_eq!(get_connection_pos(n, Side::Bottom), Point::new(160, 160));
    assert!(point_in_node(n, Point::new(220, 160)));
    assert!(!point_in_node(n, Point::new(221, 160)));
}

#[test]
fn nearest_connection_point_out_of_range_is_none() {
    let mut d = SadtDiagram::new();
    d.add_node("A".to_string(), Point::new(100, 100));
    // Nearest connection point is the right side at (220, 130): 30 away.
    assert!(find_closest_connection_point(&d, Point::new(250, 130), 29).is_none());
    assert!(find_closest_connection_point(&d, Point::new(250, 130), 30).is_none());
    assert!(find_closest_connection_point(&SadtDiagram::new(), Point::new(0, 0), 1000).is_none());
}

#[test]
fn nearest_connection_point_unique_in_range() {
    let mut d = SadtDiagram::new();
    let a = d.add_node("A".to_string(), Point::new(100, 100));
    let found = find_closest_connection_point(&d, Point::new(250, 130), 31).unwrap();
    assert_eq!(found.node_id, a);
    assert_eq!(found.side, Side::Right);
}

#[test]
fn nearest_connection_point_prefers_the_closest_then_the_first() {
    let mut d = SadtDiagram::new();
    let a = d.add_node("A".to_string(), Point::new(0, 0));
    let b = d.add_node("B".to_string(), Point::new(140, 0));
    // A's right side is at (120, 30), B's left side at (140, 30).
    let near_b = find_closest_connection_point(&d, Point::new(135, 30), 50).unwrap();
    assert_eq!((near_b.node_id, near_b.side), (b, Side::Left));
    let tie = find_closest_connection_point(&d, Point::new(130, 30), 50).unwrap();
    assert_eq!((tie.node_id, tie.side), (a, Side::Right));
}

#[test]
fn node_at_takes_the_first_containing_node() {
    let mut d = SadtDiagram::new();
    let a = d.add_node("A".to_string(), Point::new(0, 0));
    let b = d.add_node("B".to_string(), Point::new(50, 0));
    assert_eq!(find_node_at(&d, Point::new(60, 10)), Some(a));
    assert_eq!(find_node_at(&d, Point::new(160, 10)), Some(b));
    assert_eq!(find_node_at(&d, Point::new(500, 500)), None);
}

#[test]
fn arrow_tolerance_is_fixed_on_screen() {
    let mut d = SadtDiagram::new();
    let a = d.add_node("A".to_string(), Point::new(0, 0));
    let b = d.add_node("B".to_string(), Point::new(300, 0));
    let id = d
        .add_arrow(
            ConnectionPoint { node_id: a, side: Side::Right },
            ConnectionPoint { node_id: b, side: Side::Left },
            ArrowType::Output,
            None,
        )
        .unwrap();
    // The arrow runs from (120, 30) to (300, 30).
    assert_eq!(find_arrow_at(&d, Point::new(200, 34), 1000), Some(id));
    assert_eq!(find_arrow_at(&d, Point::new(200, 35), 1000), None);
    assert_eq!(find_arrow_at(&d, Point::new(200, 32), 2000), Some(id));
    assert_eq!(find_arrow_at(&d, Point::new(200, 33), 2000), None);
    assert_eq!(find_arrow_at(&d, Point::new(200, 39), 500), Some(id));
}
