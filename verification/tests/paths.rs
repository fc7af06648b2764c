use monotone_paths::path::{BezPath, PathEl};
use monotone_paths::point::Point;

fn pt(x: i64, y: i64) -> Point {
    Point::from_integers(x, y)
}

#[test]
fn new_path_is_empty() {
    let path = BezPath::new();
    assert_eq!(path.len(), 0);
    assert!(path.elements().is_empty());
}

#[test]
fn builders_append_in_order() {
    let mut path = BezPath::new();
    path.move_to(pt(1, 1));
    path.line_to(pt(2, 2));
    path.quad_to(pt(3, 3), pt(4, 4));
    path.curve_to(pt(5, 5), pt(6, 6), pt(7, 7));
    path.close_path();
    path.push(PathEl::LineTo(pt(8, 8)));
    assert_eq!(path.len(), 6);
    assert!(matches!(path.get(0), PathEl::MoveTo(p) if p.equals(&pt(1, 1))));
    assert!(matches!(path.get(1), PathEl::LineTo(p) if p.equals(&pt(2, 2))));
    assert!(matches!(
        path.get(2),
        PathEl::QuadTo(c, p) if c.equals(&pt(3, 3)) && p.equals(&pt(4, 4))
    ));
    assert!(matches!(
        path.get(3),
        PathEl::CurveTo(a, b, p)
            if a.equals(&pt(5, 5)) && b.equals(&pt(6, 6)) && p.equals(&pt(7, 7))
    ));
    assert!(matches!(path.get(4), PathEl::ClosePath));
    assert!(matches!(path.get(5), PathEl::LineTo(p) if p.equals(&pt(8, 8))));
}

#[test]
fn from_vec_keeps_the_elements() {
    let path = BezPath::from_vec(vec![PathEl::MoveTo(pt(1, 2)), PathEl::ClosePath]);
    assert_eq!(path.len(), 2);
    assert_eq!(path.elements().len(), 2);
    assert!(matches!(&path.elements()[0], PathEl::MoveTo(p) if p.equals(&pt(1, 2))));
    assert!(matches!(path.get(1), PathEl::ClosePath));
}

#[test]
fn copies_are_equal_to_what_was_copied() {
    let el = PathEl::QuadTo(pt(3, -3), pt(4, 4));
    assert!(matches!(
        el.copy(),
        PathEl::QuadTo(c, p) if c.equals(&pt(3, -3)) && p.equals(&pt(4, 4))
    ));
    assert!(Point::origin().equals(&pt(0, 0)));
    assert!(pt(-7, 9).copy().equals(&pt(-7, 9)));
}
