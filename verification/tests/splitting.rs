use monotone_paths::path::{BezPath, PathEl};
use monotone_paths::point::Point;
use monotone_paths::rational::Rational;
use monotone_paths::splitter::{split, split_quad, turn_of_axis};

fn q(num: i64, den: i64) -> Rational {
    Rational::from_ratio(num, den).unwrap()
}

fn pt(x: i64, y: i64) -> Point {
    Point::from_integers(x, y)
}

fn pq(xn: i64, xd: i64, yn: i64, yd: i64) -> Point {
    Point::new(q(xn, xd), q(yn, yd))
}

fn is_quad(el: &PathEl, ctrl: &Point, to: &Point) -> bool {
    match el {
        PathEl::QuadTo(c, p) => c.equals(ctrl) && p.equals(to),
        _ => false,
    }
}

fn pieces(p0: &Point, p1: &Point, p2: &Point) -> BezPath {
    let mut path = BezPath::new();
    split_quad(&mut path, p0, p1, p2);
    path
}

fn within(from: &Rational, ctrl: &Rational, to: &Rational) -> bool {
    (!ctrl.lt(from) && !to.lt(ctrl)) || (!ctrl.lt(to) && !from.lt(ctrl))
}

/// The point of the curve at `t`, by the polynomial in `t`.
fn on_curve(p0: &Point, p1: &Point, p2: &Point, t: &Rational) -> Point {
    let one = Rational::from_i64(1);
    let two = Rational::from_i64(2);
    let s = one.sub(t);
    let w0 = s.mul(&s);
    let w1 = two.mul(&s).mul(t);
    let w2 = t.mul(t);
    Point::new(
        w0.mul(&p0.x).add(&w1.mul(&p1.x)).add(&w2.mul(&p2.x)),
        w0.mul(&p0.y).add(&w1.mul(&p1.y)).add(&w2.mul(&p2.y)),
    )
}

/// Checks that every curve of a run of quadratic curves from `start` is monotone.
fn all_monotone(start: &Point, path: &BezPath) -> bool {
    let mut from = start.copy();
    for i in 0..path.len() {
        match path.get(i) {
            PathEl::QuadTo(c, p) => {
                if !within(&from.x, &c.x, &p.x) || !within(&from.y, &c.y, &p.y) {
                    return false;
                }
                from = p.copy();
            }
            _ => return false,
        }
    }
    true
}

#[test]
fn lerp_and_midpoint_are_exact() {
    let a = pt(0, 10);
    let b = pt(3, 4);
    assert!(a.lerp(&b, &q(1, 3)).equals(&pq(1, 1, 8, 1)));
    assert!(a.lerp(&b, &q(0, 1)).equals(&a));
    assert!(a.lerp(&b, &q(1, 1)).equals(&b));
    assert!(a.lerp(&b, &q(2, 1)).equals(&pt(6, -2)));
    assert!(a.midpoint(&b).equals(&pq(3, 2, 7, 1)));
}

#[test]
fn point_equality_is_by_value() {
    assert!(pq(2, 4, -6, 3).equals(&pq(1, 2, -2, 1)));
    assert!(!pq(1, 2, 0, 1).equals(&pq(1, 3, 0, 1)));
    assert!(!pq(1, 2, 0, 1).equals(&pq(1, 2, 1, 1)));
}

#[test]
fn split_gives_control_points_and_the_point_on_the_curve() {
    let (pa, pb, pc) = split(&q(1, 4), &pt(0, 0), &pt(8, 8), &pt(16, 0));
    assert!(pa.equals(&pt(2, 2)));
    assert!(pc.equals(&pt(10, 6)));
    assert!(pb.equals(&pt(4, 3)));
    assert!(pb.equals(&on_curve(&pt(0, 0), &pt(8, 8), &pt(16, 0), &q(1, 4))));
}

#[test]
fn split_halves_run_along_the_curve() {
    let (p0, p1, p2) = (pt(0, 0), pt(10, 8), pt(4, 2));
    let t = q(3, 7);
    let (pa, pb, pc) = split(&t, &p0, &p1, &p2);
    let one = Rational::from_i64(1);
    for (sn, sd) in [(0, 1), (1, 5), (1, 2), (9, 10), (1, 1)] {
        let s = q(sn, sd);
        let left = on_curve(&p0, &pa, &pb, &s);
        assert!(left.equals(&on_curve(&p0, &p1, &p2, &t.mul(&s))));
        let right = on_curve(&pb, &pc, &p2, &s);
        let u = t.add(&one.sub(&t).mul(&s));
        assert!(right.equals(&on_curve(&p0, &p1, &p2, &u)));
    }
}

#[test]
fn turn_of_axis_is_the_root_of_the_derivative() {
    assert!(turn_of_axis(&q(0, 1), &q(10, 1), &q(4, 1)).unwrap().equals(&q(5, 8)));
    assert!(turn_of_axis(&q(0, 1), &q(-2, 1), &q(4, 1)).unwrap().equals(&q(1, 4)));
    assert!(turn_of_axis(&q(4, 1), &q(10, 1), &q(0, 1)).unwrap().equals(&q(3, 8)));
}

#[test]
fn turn_of_axis_is_nothing_within_the_closed_span() {
    assert!(turn_of_axis(&q(0, 1), &q(2, 1), &q(4, 1)).is_none());
    assert!(turn_of_axis(&q(4, 1), &q(2, 1), &q(0, 1)).is_none());
    assert!(turn_of_axis(&q(0, 1), &q(0, 1), &q(4, 1)).is_none());
    assert!(turn_of_axis(&q(0, 1), &q(4, 1), &q(4, 1)).is_none());
    assert!(turn_of_axis(&q(3, 1), &q(3, 1), &q(3, 1)).is_none());
    // equal ends and a control value elsewhere: the curve goes out and back
    assert!(turn_of_axis(&q(3, 1), &q(5, 1), &q(3, 1)).unwrap().equals(&q(1, 2)));
}

#[test]
fn monotone_quad_is_returned_unchanged() {
    let out = pieces(&pt(0, 0), &pt(3, 1), &pt(5, 9));
    assert_eq!(out.len(), 1);
    assert!(is_quad(out.get(0), &pt(3, 1), &pt(5, 9)));
}

#[test]
fn control_point_on_the_edge_of_the_span_is_not_split() {
    let out = pieces(&pt(0, 0), &pt(5, 0), &pt(5, 9));
    assert_eq!(out.len(), 1);
    assert!(is_quad(out.get(0), &pt(5, 0), &pt(5, 9)));
}

#[test]
fn degenerate_quad_of_one_point_is_kept() {
    let out = pieces(&pt(2, 2), &pt(2, 2), &pt(2, 2));
    assert_eq!(out.len(), 1);
    assert!(is_quad(out.get(0), &pt(2, 2), &pt(2, 2)));
}

#[test]
fn quad_turning_along_x_is_split_in_two() {
    let out = pieces(&pt(0, 0), &pt(10, 5), &pt(4, 10));
    assert_eq!(out.len(), 2);
    assert!(is_quad(out.get(0), &pq(25, 4, 25, 8), &pq(25, 4, 25, 4)));
    assert!(is_quad(out.get(1), &pq(25, 4, 65, 8), &pt(4, 10)));
    assert!(all_monotone(&pt(0, 0), &out));
}

#[test]
fn quad_turning_along_y_is_split_in_two() {
    let out = pieces(&pt(0, 0), &pt(5, 10), &pt(10, 4));
    assert_eq!(out.len(), 2);
    assert!(is_quad(out.get(0), &pq(25, 8, 25, 4), &pq(25, 4, 25, 4)));
    assert!(is_quad(out.get(1), &pq(65, 8, 25, 4), &pt(10, 4)));
    assert!(all_monotone(&pt(0, 0), &out));
}

#[test]
fn symmetric_arch_is_split_at_its_top() {
    let out = pieces(&pt(0, 0), &pt(5, 10), &pt(10, 0));
    assert_eq!(out.len(), 2);
    assert!(is_quad(out.get(0), &pq(5, 2, 5, 1), &pt(5, 5)));
    assert!(is_quad(out.get(1), &pq(15, 2, 5, 1), &pt(10, 0)));
}

#[test]
fn quad_turning_along_both_axes_is_split_in_three() {
    // the turn along y comes first, at 4/7; the turn along x at 5/8
    let out = pieces(&pt(0, 0), &pt(10, 8), &pt(4, 2));
    assert_eq!(out.len(), 3);
    assert!(is_quad(out.get(0), &pq(40, 7, 32, 7), &pq(304, 49, 32, 7)));
    assert!(is_quad(out.get(1), &pq(25, 4, 32, 7), &pq(25, 4, 145, 32)));
    assert!(is_quad(out.get(2), &pq(25, 4, 17, 4), &pt(4, 2)));
    assert!(all_monotone(&pt(0, 0), &out));
}

#[test]
fn quad_turning_along_both_axes_with_x_first() {
    let out = pieces(&pt(0, 0), &pt(8, 10), &pt(2, 4));
    assert_eq!(out.len(), 3);
    assert!(is_quad(out.get(0), &pq(32, 7, 40, 7), &pq(32, 7, 304, 49)));
    assert!(is_quad(out.get(1), &pq(32, 7, 25, 4), &pq(145, 32, 25, 4)));
    assert!(is_quad(out.get(2), &pq(17, 4, 25, 4), &pt(2, 4)));
    assert!(all_monotone(&pt(0, 0), &out));
}

#[test]
fn joints_of_three_pieces_lie_on_the_curve_at_the_turns() {
    let (p0, p1, p2) = (pt(0, 0), pt(10, 8), pt(4, 2));
    let out = pieces(&p0, &p1, &p2);
    match (out.get(0), out.get(1)) {
        (PathEl::QuadTo(_, first), PathEl::QuadTo(_, second)) => {
            assert!(first.equals(&on_curve(&p0, &p1, &p2, &q(4, 7))));
            assert!(second.equals(&on_curve(&p0, &p1, &p2, &q(5, 8))));
        }
        _ => panic!("three quadratic curves were expected"),
    }
}

#[test]
fn both_axes_turning_at_one_parameter_leave_an_empty_middle_piece() {
    let out = pieces(&pt(0, 0), &pt(4, 4), &pt(2, 2));
    assert_eq!(out.len(), 3);
    assert!(is_quad(out.get(0), &pq(8, 3, 8, 3), &pq(8, 3, 8, 3)));
    assert!(is_quad(out.get(1), &pq(8, 3, 8, 3), &pq(8, 3, 8, 3)));
    assert!(is_quad(out.get(2), &pq(8, 3, 8, 3), &pt(2, 2)));
    assert!(all_monotone(&pt(0, 0), &out));
}

#[test]
fn pieces_are_appended_after_what_the_path_holds() {
    let mut path = BezPath::new();
    path.move_to(pt(0, 0));
    split_quad(&mut path, &pt(0, 0), &pt(5, 10), &pt(10, 0));
    assert_eq!(path.len(), 3);
    assert!(matches!(path.get(0), PathEl::MoveTo(p) if p.equals(&pt(0, 0))));
    assert!(matches!(path.get(2), PathEl::QuadTo(_, p) if p.equals(&pt(10, 0))));
}

#[test]
fn pieces_of_curves_with_fractional_points_are_monotone() {
    let p0 = pq(1, 3, -7, 5);
    let p1 = pq(22, 7, 9, 4);
    let p2 = pq(-5, 6, 1, 9);
    let out = pieces(&p0, &p1, &p2);
    assert_eq!(out.len(), 3);
    assert!(all_monotone(&p0, &out));
    assert!(matches!(out.get(2), PathEl::QuadTo(_, p) if p.equals(&p2)));
}
