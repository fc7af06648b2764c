use monotone_paths::approx::{
    approximate_cubic, approximate_midpoint, emit_polyline, emit_quadratics, CubicApprox,
    Decomposition, QuadSegment,
};
use monotone_paths::path::{BezPath, PathEl};
use monotone_paths::point::Point;
use monotone_paths::rational::Rational;
use monotone_paths::splitter::split_quad;

fn q(num: i64, den: i64) -> Rational {
    Rational::from_ratio(num, den).unwrap()
}

fn pt(x: i64, y: i64) -> Point {
    Point::from_integers(x, y)
}

fn pq(xn: i64, xd: i64, yn: i64, yd: i64) -> Point {
    Point::new(q(xn, xd), q(yn, yd))
}

fn is_quad(el: &PathEl, ctrl: &Point, to: &Point) -> bool {
    match el {
        PathEl::QuadTo(c, p) => c.equals(ctrl) && p.equals(to),
        _ => false,
    }
}

fn is_line(el: &PathEl, to: &Point) -> bool {
    match el {
        PathEl::LineTo(p) => p.equals(to),
        _ => false,
    }
}

fn same_elements(a: &BezPath, b: &BezPath) -> bool {
    if a.len() != b.len() {
        return false;
    }
    for i in 0..a.len() {
        let same = match (a.get(i), b.get(i)) {
            (PathEl::MoveTo(p), PathEl::MoveTo(r)) => p.equals(r),
            (PathEl::LineTo(p), PathEl::LineTo(r)) => p.equals(r),
            (PathEl::QuadTo(c, p), PathEl::QuadTo(d, r)) => c.equals(d) && p.equals(r),
            (PathEl::CurveTo(c, d, p), PathEl::CurveTo(e, f, r)) => {
                c.equals(e) && d.equals(f) && p.equals(r)
            }
            (PathEl::ClosePath, PathEl::ClosePath) => true,
            _ => false,
        };
        if !same {
            return false;
        }
    }
    true
}

fn midpoint(p0: &Point, p1: &Point, p2: &Point, p3: &Point) -> BezPath {
    let mut path = BezPath::new();
    approximate_midpoint(&mut path, p0, p1, p2, p3);
    path
}

fn pieces(p0: &Point, p1: &Point, p2: &Point) -> BezPath {
    let mut path = BezPath::new();
    split_quad(&mut path, p0, p1, p2);
    path
}

#[test]
fn midpoint_of_an_arch_gives_two_unsplit_quads() {
    let out = midpoint(&pt(0, 0), &pt(0, 10), &pt(10, 10), &pt(10, 0));
    assert_eq!(out.len(), 2);
    assert!(is_quad(out.get(0), &pq(0, 1, 15, 2), &pq(5, 1, 15, 2)));
    assert!(is_quad(out.get(1), &pq(10, 1, 15, 2), &pt(10, 0)));
}

#[test]
fn midpoint_with_first_handle_on_the_start_is_one_quad() {
    let (p0, p2, p3) = (pt(0, 0), pt(5, 10), pt(10, 0));
    let out = midpoint(&p0, &pt(0, 0), &p2, &p3);
    assert!(same_elements(&out, &pieces(&p0, &p2, &p3)));
    assert_eq!(out.len(), 2);
    assert!(is_quad(out.get(0), &pq(5, 2, 5, 1), &pt(5, 5)));
}

#[test]
fn midpoint_with_first_handle_equal_by_value_is_one_quad() {
    let (p0, p2, p3) = (pt(1, 2), pt(3, 3), pt(4, 7));
    let out = midpoint(&p0, &pq(3, 3, 4, 2), &p2, &p3);
    assert_eq!(out.len(), 1);
    assert!(is_quad(out.get(0), &p2, &p3));
}

#[test]
fn midpoint_with_second_handle_on_the_end_is_one_quad() {
    let (p0, p1, p3) = (pt(0, 0), pt(10, 5), pt(4, 10));
    let out = midpoint(&p0, &p1, &pt(4, 10), &p3);
    assert!(same_elements(&out, &pieces(&p0, &p1, &p3)));
    assert_eq!(out.len(), 2);
    assert!(is_quad(out.get(1), &pq(25, 4, 65, 8), &pt(4, 10)));
}

#[test]
fn midpoint_with_both_handles_collapsed_takes_the_first_rule() {
    let (p0, p3) = (pt(0, 0), pt(1, 1));
    let out = midpoint(&p0, &pt(0, 0), &pt(1, 1), &p3);
    assert_eq!(out.len(), 1);
    assert!(is_quad(out.get(0), &pt(1, 1), &pt(1, 1)));
    assert!(!same_elements(&out, &pieces(&p0, &pt(0, 0), &p3)));
}

#[test]
fn midpoint_of_an_s_curve_splits_both_quads() {
    let out = midpoint(&pt(0, 0), &pt(10, 0), &pt(0, 10), &pt(10, 10));
    assert_eq!(out.len(), 4);
    assert!(is_quad(out.get(0), &pq(45, 8, 0, 1), &pq(45, 8, 45, 16)));
    assert!(is_quad(out.get(1), &pq(45, 8, 15, 4), &pt(5, 5)));
    assert!(is_quad(out.get(2), &pq(35, 8, 25, 4), &pq(35, 8, 115, 16)));
    assert!(is_quad(out.get(3), &pq(35, 8, 10, 1), &pt(10, 10)));
}

#[test]
fn midpoint_of_a_loop_splits_along_both_axes() {
    let out = midpoint(&pt(0, 0), &pt(12, 12), &pt(-4, 12), &pt(8, 0));
    assert_eq!(out.len(), 4);
    assert!(is_quad(out.get(0), &pq(81, 14, 81, 14), &pq(81, 14, 1539, 196)));
    assert!(is_quad(out.get(1), &pq(81, 14, 9, 1), &pt(4, 9)));
    assert!(is_quad(out.get(2), &pq(31, 14, 9, 1), &pq(31, 14, 1539, 196)));
    assert!(is_quad(out.get(3), &pq(31, 14, 81, 14), &pt(8, 0)));
}

#[test]
fn polyline_keeps_lines_and_drops_the_opening_move() {
    let lines = vec![
        PathEl::MoveTo(pt(0, 0)),
        PathEl::LineTo(pt(1, 3)),
        PathEl::LineTo(pq(5, 2, 4, 1)),
        PathEl::LineTo(pt(10, 0)),
    ];
    let mut path = BezPath::new();
    path.move_to(pt(0, 0));
    emit_polyline(&mut path, &lines);
    assert_eq!(path.len(), 4);
    assert!(is_line(path.get(1), &pt(1, 3)));
    assert!(is_line(path.get(2), &pq(5, 2, 4, 1)));
    assert!(is_line(path.get(3), &pt(10, 0)));
}

#[test]
fn polyline_of_nothing_emits_nothing() {
    let mut path = BezPath::new();
    emit_polyline(&mut path, &Vec::new());
    assert_eq!(path.len(), 0);
    emit_polyline(&mut path, &vec![PathEl::MoveTo(pt(0, 0))]);
    assert_eq!(path.len(), 0);
}

#[test]
fn quadratics_are_each_made_monotone() {
    let quads = vec![
        QuadSegment { from: pt(0, 0), ctrl: pt(3, 1), to: pt(5, 5) },
        QuadSegment { from: pt(5, 5), ctrl: pt(10, 15), to: pt(15, 5) },
    ];
    let mut path = BezPath::new();
    emit_quadratics(&mut path, &quads);
    assert_eq!(path.len(), 3);
    assert!(is_quad(path.get(0), &pt(3, 1), &pt(5, 5)));
    assert!(is_quad(path.get(1), &pq(15, 2, 10, 1), &pt(10, 10)));
    assert!(is_quad(path.get(2), &pq(25, 2, 10, 1), &pt(15, 5)));
}

#[test]
fn quadratics_are_split_by_their_own_start_point() {
    // from its own start the curve is monotone; the path's end is not looked at
    let quads = vec![QuadSegment { from: pt(0, 0), ctrl: pt(2, 2), to: pt(4, 4) }];
    let mut path = BezPath::new();
    path.move_to(pt(3, 3));
    emit_quadratics(&mut path, &quads);
    assert_eq!(path.len(), 2);
    assert!(is_quad(path.get(1), &pt(2, 2), &pt(4, 4)));
}

#[test]
fn approximate_cubic_follows_the_strategy() {
    let (p0, p1, p2, p3) = (pt(0, 0), pt(0, 10), pt(10, 10), pt(10, 0));
    let polyline = Decomposition::Polyline(vec![
        PathEl::MoveTo(pt(0, 0)),
        PathEl::LineTo(pq(5, 1, 15, 2)),
        PathEl::LineTo(pt(10, 0)),
    ]);
    let quadratics = Decomposition::Quadratics(vec![QuadSegment {
        from: pt(0, 0),
        ctrl: pt(5, 15),
        to: pt(10, 0),
    }]);

    let mut linear = BezPath::new();
    approximate_cubic(&mut linear, &p0, &p1, &p2, &p3, &CubicApprox::Linear, None);
    assert_eq!(linear.len(), 1);
    assert!(is_line(linear.get(0), &p3));

    let mut mid = BezPath::new();
    approximate_cubic(&mut mid, &p0, &p1, &p2, &p3, &CubicApprox::Midpoint, None);
    assert!(same_elements(&mid, &midpoint(&p0, &p1, &p2, &p3)));

    let mut flat = BezPath::new();
    let flatten = CubicApprox::Flatten(q(1, 10));
    approximate_cubic(&mut flat, &p0, &p1, &p2, &p3, &flatten, Some(&polyline));
    assert_eq!(flat.len(), 2);
    assert!(is_line(flat.get(0), &pq(5, 1, 15, 2)));
    assert!(is_line(flat.get(1), &p3));

    let mut quads = BezPath::new();
    let lyon = CubicApprox::Lyon(q(1, 10));
    approximate_cubic(&mut quads, &p0, &p1, &p2, &p3, &lyon, Some(&quadratics));
    assert_eq!(quads.len(), 2);
    assert!(is_quad(quads.get(0), &pq(5, 2, 15, 2), &pq(5, 1, 15, 2)));
    assert!(is_quad(quads.get(1), &pq(15, 2, 15, 2), &p3));
}

#[test]
fn linear_and_midpoint_do_not_read_a_decomposition() {
    let (p0, p1, p2, p3) = (pt(0, 0), pt(0, 10), pt(10, 10), pt(10, 0));
    let polyline = Decomposition::Polyline(vec![PathEl::LineTo(pt(99, 99))]);
    let mut linear = BezPath::new();
    approximate_cubic(&mut linear, &p0, &p1, &p2, &p3, &CubicApprox::Linear, Some(&polyline));
    assert_eq!(linear.len(), 1);
    assert!(is_line(linear.get(0), &p3));
    let mut mid = BezPath::new();
    approximate_cubic(&mut mid, &p0, &p1, &p2, &p3, &CubicApprox::Midpoint, Some(&polyline));
    assert!(same_elements(&mid, &midpoint(&p0, &p1, &p2, &p3)));
}
