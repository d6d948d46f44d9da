use pbrt::geometry::{cross, Bounds2, Bounds2i, Bounds3i, Point2, Point2i, Point3, Vector3};

#[test]
fn bounds_diagonal_area_inside() {
    let b = Bounds2i::from([[0, 0], [4, 3]]);
    let d = b.diagonal();
    assert_eq!((d.x, d.y), (4, 3));
    assert_eq!(b.area(), 12);
    assert!(b.inside_exclusive(Point2 { x: 0, y: 0 }));
    assert!(!b.inside_exclusive(Point2 { x: 4, y: 0 }));
    assert!(!b.inside_exclusive(Point2 { x: 0, y: 3 }));
}

#[test]
fn bounds_iter_is_row_major() {
    let b = Bounds2i::from([[1, 1], [3, 3]]);
    let pts: Vec<(isize, isize)> = b.iter().iter().map(|p| (p.x, p.y)).collect();
    assert_eq!(pts, vec![(1, 1), (2, 1), (1, 2), (2, 2)]);
    let empty = Bounds2i::from([[0, 0], [0, 5]]);
    assert!(empty.iter().is_empty());
}

#[test]
fn intersect_keeps_common_points() {
    let a = Bounds2i::from([[0, 0], [4, 4]]);
    let b = Bounds2i::from([[2, 1], [6, 3]]);
    let i = Bounds2::intersect(&a, &b);
    assert_eq!((i.p_min.x, i.p_min.y, i.p_max.x, i.p_max.y), (2, 1, 4, 3));
    for x in -1..7 {
        for y in -1..7 {
            let p: Point2i = Point2 { x, y };
            assert_eq!(
                i.inside_exclusive(p),
                a.inside_exclusive(p) && b.inside_exclusive(p)
            );
        }
    }
}

#[test]
fn bounds3_inside() {
    let b: Bounds3i = Default::default();
    assert!(!b.inside_exclusive(Point3 { x: 0, y: 0, z: 0 }));
}

#[test]
fn point_min_max() {
    let p = Point2::min(Point2 { x: 1isize, y: 5 }, Point2 { x: 3, y: 2 });
    assert_eq!((p.x, p.y), (1, 2));
    let p = Point3::max(Point3 { x: 1isize, y: 5, z: 0 }, Point3 { x: 3, y: 2, z: -1 });
    assert_eq!((p.x, p.y, p.z), (3, 5, 0));
}

#[test]
fn cross_is_anticommutative_and_orthogonal() {
    let a = Vector3::new(1isize, 2, 3);
    let b = Vector3::new(4isize, 5, 6);
    let c = cross(a, b);
    assert_eq!((c.x, c.y, c.z), (-3, 6, -3));
    let d = cross(b, a);
    assert_eq!((d.x, d.y, d.z), (3, -6, 3));
    assert_eq!(a.x * c.x + a.y * c.y + a.z * c.z, 0);
    assert_eq!(b.x * c.x + b.y * c.y + b.z * c.z, 0);
}

#[test]
fn bounds_iter_lists_each_inside_point_once() {
    let b = Bounds2i::from([[-1, 2], [2, 4]]);
    let pts = b.iter();
    assert_eq!(pts.len() as isize, b.area());
    for y in -3..6 {
        for x in -3..6 {
            let p = Point2 { x, y };
            let count = pts.iter().filter(|q| q.x == x && q.y == y).count();
            assert_eq!(count, if b.inside_exclusive(p) { 1 } else { 0 });
        }
    }
    let example: Vec<(isize, isize)> =
        Bounds2i::from([[0, 0], [2, 2]]).iter().iter().map(|p| (p.x, p.y)).collect();
    assert_eq!(example, vec![(0, 0), (1, 0), (0, 1), (1, 1)]);
}
