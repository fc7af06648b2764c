use monotone_paths::approx::{Decomposition, QuadSegment};
use monotone_paths::path::{BezPath, PathEl};
use monotone_paths::point::Point;
use monotone_paths::rational::Rational;
use monotone_paths::rewrite::cubic_segments;
use monotone_paths::{break_path, monotonize_quads, CubicApprox};

fn q(num: i64, den: i64) -> Rational {
    Rational::from_ratio(num, den).unwrap()
}

fn pt(x: i64, y: i64) -> Point {
    Point::from_integers(x, y)
}

fn pq(xn: i64, xd: i64, yn: i64, yd: i64) -> Point {
    Point::new(q(xn, xd), q(yn, yd))
}

fn is_move(el: &PathEl, to: &Point) -> bool {
    matches!(el, PathEl::MoveTo(p) if p.equals(to))
}

fn is_line(el: &PathEl, to: &Point) -> bool {
    matches!(el, PathEl::LineTo(p) if p.equals(to))
}

fn is_quad(el: &PathEl, ctrl: &Point, to: &Point) -> bool {
    matches!(el, PathEl::QuadTo(c, p) if c.equals(ctrl) && p.equals(to))
}

fn is_cubic(el: &PathEl, c1: &Point, c2: &Point, to: &Point) -> bool {
    matches!(el, PathEl::CurveTo(a, b, p) if a.equals(c1) && b.equals(c2) && p.equals(to))
}

fn within(from: &Rational, ctrl: &Rational, to: &Rational) -> bool {
    (!ctrl.lt(from) && !to.lt(ctrl)) || (!ctrl.lt(to) && !from.lt(ctrl))
}

/// Walks the path and checks each quadratic curve against its start point.
fn quads_are_monotone(path: &BezPath) -> bool {
    let mut current = Point::origin();
    let mut start = Point::origin();
    for i in 0..path.len() {
        match path.get(i) {
            PathEl::MoveTo(p) => {
                current = p.copy();
                start = p.copy();
            }
            PathEl::LineTo(p) => current = p.copy(),
            PathEl::QuadTo(c, p) => {
                if !within(&current.x, &c.x, &p.x) || !within(&current.y, &c.y, &p.y) {
                    return false;
                }
                current = p.copy();
            }
            PathEl::CurveTo(_, _, p) => current = p.copy(),
            PathEl::ClosePath => current = start.copy(),
        }
    }
    true
}

fn count_cubics(path: &BezPath) -> usize {
    (0..path.len()).filter(|&i| matches!(path.get(i), PathEl::CurveTo(..))).count()
}

fn none() -> Vec<Decomposition> {
    Vec::new()
}

/// A closed outline with a line, a turning quad, a cubic, and a second subpath.
fn outline() -> BezPath {
    let mut path = BezPath::new();
    path.move_to(pt(0, 0));
    path.line_to(pt(4, 0));
    path.quad_to(pt(14, 5), pt(8, 10));
    path.curve_to(pt(8, 20), pt(18, 20), pt(18, 10));
    path.close_path();
    path.quad_to(pt(-5, 5), pt(0, 10));
    path.move_to(pt(30, 30));
    path.quad_to(pt(31, 31), pt(32, 33));
    path
}

#[test]
fn empty_path_stays_empty() {
    assert_eq!(monotonize_quads(&BezPath::new()).len(), 0);
    assert_eq!(break_path(&BezPath::new(), &CubicApprox::Linear, &none()).len(), 0);
    assert_eq!(cubic_segments(&BezPath::new()).len(), 0);
}

#[test]
fn monotonize_copies_moves_lines_closes_and_cubics() {
    let mut orig = BezPath::new();
    orig.move_to(pt(1, 2));
    orig.line_to(pt(3, 4));
    orig.curve_to(pt(0, 50), pt(50, 50), pt(5, 6));
    orig.close_path();
    orig.move_to(pt(7, 8));
    orig.move_to(pt(9, 9));
    let out = monotonize_quads(&orig);
    assert_eq!(out.len(), 6);
    assert!(is_move(out.get(0), &pt(1, 2)));
    assert!(is_line(out.get(1), &pt(3, 4)));
    assert!(is_cubic(out.get(2), &pt(0, 50), &pt(50, 50), &pt(5, 6)));
    assert!(matches!(out.get(3), PathEl::ClosePath));
    assert!(is_move(out.get(4), &pt(7, 8)));
    assert!(is_move(out.get(5), &pt(9, 9)));
}

#[test]
fn monotonize_splits_quads_from_the_current_point() {
    let out = monotonize_quads(&outline());
    assert_eq!(out.len(), 10);
    assert!(is_move(out.get(0), &pt(0, 0)));
    assert!(is_line(out.get(1), &pt(4, 0)));
    // from (4,0) by (14,5) to (8,10): turns along x at 5/8
    assert!(is_quad(out.get(2), &pq(41, 4, 25, 8), &pq(41, 4, 25, 4)));
    assert!(is_quad(out.get(3), &pq(41, 4, 65, 8), &pt(8, 10)));
    assert!(is_cubic(out.get(4), &pt(8, 20), &pt(18, 20), &pt(18, 10)));
    assert!(matches!(out.get(5), PathEl::ClosePath));
    // after the close the walk stands at the start of the subpath, (0,0)
    assert!(is_quad(out.get(6), &pq(-5, 2, 5, 2), &pq(-5, 2, 5, 1)));
    assert!(is_quad(out.get(7), &pq(-5, 2, 15, 2), &pt(0, 10)));
    assert!(is_move(out.get(8), &pt(30, 30)));
    assert!(is_quad(out.get(9), &pt(31, 31), &pt(32, 33)));
    assert!(quads_are_monotone(&out));
}

#[test]
fn monotonize_begins_its_walk_at_the_origin() {
    let mut orig = BezPath::new();
    orig.quad_to(pt(5, 10), pt(10, 0));
    let out = monotonize_quads(&orig);
    assert_eq!(out.len(), 2);
    assert!(is_quad(out.get(0), &pq(5, 2, 5, 1), &pt(5, 5)));
    assert!(is_quad(out.get(1), &pq(15, 2, 5, 1), &pt(10, 0)));
}

#[test]
fn monotonize_twice_changes_nothing_more() {
    let once = monotonize_quads(&outline());
    let twice = monotonize_quads(&once);
    assert_eq!(once.len(), twice.len());
    for i in 0..once.len() {
        match (once.get(i), twice.get(i)) {
            (PathEl::QuadTo(c, p), PathEl::QuadTo(d, r)) => {
                assert!(c.equals(d) && p.equals(r));
            }
            (a, b) => assert_eq!(std::mem::discriminant(a), std::mem::discriminant(b)),
        }
    }
}

#[test]
fn cubic_segments_lists_each_cubic_with_its_start() {
    let mut orig = outline();
    orig.curve_to(pt(1, 1), pt(2, 2), pt(3, 3));
    orig.close_path();
    orig.curve_to(pt(4, 4), pt(5, 5), pt(6, 6));
    let cubics = cubic_segments(&orig);
    assert_eq!(cubics.len(), 3);
    assert!(cubics[0].from.equals(&pt(8, 10)));
    assert!(cubics[0].ctrl1.equals(&pt(8, 20)));
    assert!(cubics[0].ctrl2.equals(&pt(18, 20)));
    assert!(cubics[0].to.equals(&pt(18, 10)));
    assert!(cubics[1].from.equals(&pt(32, 33)));
    assert!(cubics[1].to.equals(&pt(3, 3)));
    assert!(cubics[2].from.equals(&pt(30, 30)));
    assert!(cubics[2].to.equals(&pt(6, 6)));
}

#[test]
fn break_path_linear_replaces_each_cubic_by_a_line() {
    let out = break_path(&outline(), &CubicApprox::Linear, &none());
    assert_eq!(out.len(), 10);
    assert!(is_line(out.get(4), &pt(18, 10)));
    assert_eq!(count_cubics(&out), 0);
    assert!(quads_are_monotone(&out));
}

#[test]
fn break_path_splits_quads_that_turn_back() {
    // the span of a quad is that of its two end points: a span taken from the
    // start and the control point holds the control point always, and nothing
    // would ever be split
    let mut orig = BezPath::new();
    orig.move_to(pt(0, 0));
    orig.quad_to(pt(5, 10), pt(10, 0));
    let out = break_path(&orig, &CubicApprox::Linear, &none());
    assert_eq!(out.len(), 3);
    assert!(is_quad(out.get(1), &pq(5, 2, 5, 1), &pt(5, 5)));
    assert!(is_quad(out.get(2), &pq(15, 2, 5, 1), &pt(10, 0)));
    let same = monotonize_quads(&orig);
    assert_eq!(same.len(), 3);
    assert!(is_quad(same.get(1), &pq(5, 2, 5, 1), &pt(5, 5)));
    assert!(is_quad(same.get(2), &pq(15, 2, 5, 1), &pt(10, 0)));
}

#[test]
fn break_path_midpoint_yields_the_two_quads_of_the_arch() {
    let mut orig = BezPath::new();
    orig.move_to(pt(0, 0));
    orig.curve_to(pt(0, 10), pt(10, 10), pt(10, 0));
    let out = break_path(&orig, &CubicApprox::Midpoint, &none());
    assert_eq!(out.len(), 3);
    assert!(is_move(out.get(0), &pt(0, 0)));
    assert!(is_quad(out.get(1), &pq(0, 1, 15, 2), &pq(5, 1, 15, 2)));
    assert!(is_quad(out.get(2), &pq(10, 1, 15, 2), &pt(10, 0)));
}

#[test]
fn break_path_midpoint_uses_the_current_point_as_start() {
    let out = break_path(&outline(), &CubicApprox::Midpoint, &none());
    // the cubic from (8,10) by (8,20), (18,20) to (18,10) is the arch, moved
    assert_eq!(out.len(), 11);
    assert!(is_quad(out.get(4), &pq(8, 1, 35, 2), &pq(13, 1, 35, 2)));
    assert!(is_quad(out.get(5), &pq(18, 1, 35, 2), &pt(18, 10)));
    assert_eq!(count_cubics(&out), 0);
    assert!(quads_are_monotone(&out));
}

#[test]
fn break_path_flatten_emits_the_lines_handed_in() {
    let orig = outline();
    let made = vec![Decomposition::Polyline(vec![
        PathEl::MoveTo(pt(8, 10)),
        PathEl::LineTo(pt(9, 16)),
        PathEl::LineTo(pq(13, 1, 35, 2)),
        PathEl::LineTo(pt(17, 16)),
        PathEl::LineTo(pt(18, 10)),
    ])];
    assert_eq!(cubic_segments(&orig).len(), made.len());
    let out = break_path(&orig, &CubicApprox::Flatten(q(1, 4)), &made);
    assert_eq!(out.len(), 13);
    assert!(is_line(out.get(4), &pt(9, 16)));
    assert!(is_line(out.get(5), &pq(13, 1, 35, 2)));
    assert!(is_line(out.get(6), &pt(17, 16)));
    assert!(is_line(out.get(7), &pt(18, 10)));
    assert!(matches!(out.get(8), PathEl::ClosePath));
    assert_eq!(count_cubics(&out), 0);
}

#[test]
fn break_path_lyon_splits_the_quads_handed_in() {
    let mut orig = BezPath::new();
    orig.move_to(pt(0, 0));
    orig.curve_to(pt(0, 10), pt(10, 10), pt(10, 0));
    orig.curve_to(pt(12, 0), pt(14, 0), pt(16, 0));
    let made = vec![
        Decomposition::Quadratics(vec![QuadSegment {
            from: pt(0, 0),
            ctrl: pt(5, 15),
            to: pt(10, 0),
        }]),
        Decomposition::Quadratics(vec![
            QuadSegment { from: pt(10, 0), ctrl: pt(12, 0), to: pt(13, 0) },
            QuadSegment { from: pt(13, 0), ctrl: pt(14, 0), to: pt(16, 0) },
        ]),
    ];
    let out = break_path(&orig, &CubicApprox::Lyon(q(1, 100)), &made);
    assert_eq!(out.len(), 5);
    assert!(is_quad(out.get(1), &pq(5, 2, 15, 2), &pq(5, 1, 15, 2)));
    assert!(is_quad(out.get(2), &pq(15, 2, 15, 2), &pt(10, 0)));
    assert!(is_quad(out.get(3), &pt(12, 0), &pt(13, 0)));
    assert!(is_quad(out.get(4), &pt(14, 0), &pt(16, 0)));
    assert_eq!(count_cubics(&out), 0);
    assert!(quads_are_monotone(&out));
}

#[test]
fn break_path_takes_decompositions_in_the_order_of_the_cubics() {
    let mut orig = BezPath::new();
    orig.move_to(pt(0, 0));
    orig.curve_to(pt(1, 1), pt(2, 1), pt(3, 0));
    orig.line_to(pt(4, 0));
    orig.curve_to(pt(5, 1), pt(6, 1), pt(7, 0));
    let made = vec![
        Decomposition::Polyline(vec![PathEl::LineTo(pt(3, 0))]),
        Decomposition::Polyline(vec![PathEl::LineTo(pt(5, 1)), PathEl::LineTo(pt(7, 0))]),
    ];
    let out = break_path(&orig, &CubicApprox::Flatten(q(1, 2)), &made);
    assert_eq!(out.len(), 5);
    assert!(is_line(out.get(1), &pt(3, 0)));
    assert!(is_line(out.get(2), &pt(4, 0)));
    assert!(is_line(out.get(3), &pt(5, 1)));
    assert!(is_line(out.get(4), &pt(7, 0)));
}

#[test]
fn break_path_keeps_the_end_points_of_each_segment() {
    let orig = outline();
    for approx in [CubicApprox::Linear, CubicApprox::Midpoint] {
        let out = break_path(&orig, &approx, &none());
        // the element before the close is the last piece of the cubic
        let close = (0..out.len()).find(|&i| matches!(out.get(i), PathEl::ClosePath)).unwrap();
        match out.get(close - 1) {
            PathEl::LineTo(p) | PathEl::QuadTo(_, p) => assert!(p.equals(&pt(18, 10))),
            _ => panic!("a line or a quadratic curve was expected"),
        }
        // the last piece of the quad before the cubic ends where the quad ends
        assert!(matches!(out.get(3), PathEl::QuadTo(_, p) if p.equals(&pt(8, 10))));
    }
}

#[test]
fn break_path_leaves_no_cubic_whatever_the_strategy() {
    let mut orig = outline();
    orig.curve_to(pt(1, 1), pt(2, 9), pt(3, 3));
    let lines = |to: Point| Decomposition::Polyline(vec![PathEl::LineTo(to)]);
    let quads = |from: Point, to: Point| {
        Decomposition::Quadratics(vec![QuadSegment { from, ctrl: pt(9, 9), to }])
    };
    let flat = vec![lines(pt(18, 10)), lines(pt(3, 3))];
    let lyon = vec![quads(pt(8, 10), pt(18, 10)), quads(pt(32, 33), pt(3, 3))];
    assert_eq!(count_cubics(&break_path(&orig, &CubicApprox::Linear, &none())), 0);
    assert_eq!(count_cubics(&break_path(&orig, &CubicApprox::Midpoint, &none())), 0);
    assert_eq!(count_cubics(&break_path(&orig, &CubicApprox::Flatten(q(1, 1)), &flat)), 0);
    assert_eq!(count_cubics(&break_path(&orig, &CubicApprox::Lyon(q(1, 1)), &lyon)), 0);
    assert_eq!(count_cubics(&orig), 2);
}
