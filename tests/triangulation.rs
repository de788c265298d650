use osm_canvas::color::Color;
use osm_canvas::fill::{Fill, FillError, Polygon};
use osm_canvas::geometry::{cross_y, point_in_triangle, Point};
use osm_canvas::polygon::{find_pivot, winding_direction};

fn outline(coords: &[(i32, i32)]) -> Vec<Point> {
    coords.iter().map(|&(x, z)| Point::new(x, 0, z)).collect()
}

fn red() -> Color {
    Color::new(255, 0, 0)
}

/// Twice the unsigned area of each triangle, added up.
fn doubled_area(points: &[Point], indexes: &[usize]) -> i128 {
    indexes
        .chunks(3)
        .map(|t| cross_y(points[t[1]], points[t[0]], points[t[2]]).abs())
        .sum()
}

fn doubled_shoelace(points: &[Point]) -> i128 {
    let n = points.len();
    (0..n)
        .map(|i| {
            let a = points[i];
            let b = points[(i + 1) % n];
            a.x as i128 * b.z as i128 - b.x as i128 * a.z as i128
        })
        .sum::<i128>()
        .abs()
}

#[test]
fn square_gives_two_triangles_of_area_one_hundred() {
    let square = outline(&[(0, 0), (0, 10), (10, 10), (10, 0)]);
    let fill = Fill::new(red(), &square).unwrap();
    assert_eq!(fill.indexes().len(), 6);
    assert_eq!(doubled_area(&square, fill.indexes()), 200);
    assert_eq!(fill.color(), red());
}

#[test]
fn hexagon_gives_four_triangles() {
    let hexagon = outline(&[(10, 0), (20, 0), (25, 9), (20, 18), (10, 18), (5, 9)]);
    let fill = Fill::new(red(), &hexagon).unwrap();
    assert_eq!(fill.indexes().len(), 12);
    assert_eq!(doubled_area(&hexagon, fill.indexes()), doubled_shoelace(&hexagon));
}

#[test]
fn concave_outline_keeps_its_area() {
    let l_shape = outline(&[(0, 0), (10, 0), (10, 5), (5, 5), (5, 10), (0, 10)]);
    let fill = Fill::new(red(), &l_shape).unwrap();
    assert_eq!(fill.indexes().len(), 12);
    assert_eq!(doubled_area(&l_shape, fill.indexes()), 150);
    assert_eq!(doubled_shoelace(&l_shape), 150);
}

#[test]
fn pentagon_triangles_share_the_lowest_vertex() {
    let pentagon = outline(&[(5, 0), (10, 4), (8, 10), (2, 10), (0, 4)]);
    assert_eq!(find_pivot(&pentagon), 0);
    let fill = Fill::new(red(), &pentagon).unwrap();
    let indexes = fill.indexes();
    assert_eq!(indexes.len(), 9);
    for triangle in indexes.chunks(3) {
        assert!(triangle.contains(&0));
    }
    assert_eq!(indexes, &vec![0, 1, 2, 0, 2, 3, 0, 3, 4]);
}

#[test]
fn collinear_triple_is_skipped() {
    let points = outline(&[(0, 0), (5, 0), (10, 0), (10, 10), (0, 10)]);
    match Fill::new(red(), &points) {
        Ok(fill) => {
            let indexes = fill.indexes();
            assert_eq!(indexes.len(), 9);
            for t in indexes.chunks(3) {
                assert_ne!(cross_y(points[t[1]], points[t[0]], points[t[2]]), 0);
            }
            assert_eq!(doubled_area(&points, indexes), 200);
        }
        Err(e) => assert_eq!(e, FillError::TriangulationFailed),
    }
}

#[test]
fn reversing_flips_direction_and_keeps_area() {
    let forward = outline(&[(0, 0), (10, 0), (10, 5), (5, 5), (5, 10), (0, 10)]);
    let mut backward = forward.clone();
    backward.reverse();
    let d1 = winding_direction(&forward);
    let d2 = winding_direction(&backward);
    assert_ne!(d1, 0);
    assert_eq!(d1, -d2);
    let f1 = Fill::new(red(), &forward).unwrap();
    let f2 = Fill::new(red(), &backward).unwrap();
    assert_eq!(doubled_area(&forward, f1.indexes()), doubled_area(&backward, f2.indexes()));
}

#[test]
fn centroid_is_inside_and_far_point_is_not() {
    let (a, b, c) = (Point::new(0, 0, 0), Point::new(30, 0, 3), Point::new(9, 0, 21));
    let centroid = Point::new((0 + 30 + 9) / 3, 0, (0 + 3 + 21) / 3);
    assert!(point_in_triangle(centroid, a, b, c));
    assert!(!point_in_triangle(Point::new(1000, 0, -1000), a, b, c));
}

#[test]
fn boundary_counts_as_inside_and_degenerate_holds_nothing() {
    let (a, b, c) = (Point::new(0, 0, 0), Point::new(10, 0, 0), Point::new(0, 0, 10));
    assert!(point_in_triangle(Point::new(5, 0, 0), a, b, c));
    assert!(point_in_triangle(a, a, b, c));
    assert!(!point_in_triangle(Point::new(6, 0, 6), a, b, c));
    let flat = Point::new(20, 0, 0);
    assert!(!point_in_triangle(Point::new(5, 0, 0), a, b, flat));
}

#[test]
fn too_few_points_are_refused() {
    assert_eq!(Fill::new(red(), &[]).unwrap_err(), FillError::InsufficientPoints);
    let two = outline(&[(0, 0), (1, 1)]);
    assert_eq!(Fill::new(red(), &two).unwrap_err(), FillError::InsufficientPoints);
}

#[test]
fn collinear_pivot_gives_degenerate_winding() {
    let points = outline(&[(0, 0), (5, 0), (10, 10), (10, 0)]);
    assert_eq!(winding_direction(&points), 0);
    assert_eq!(Fill::new(red(), &points).unwrap_err(), FillError::DegenerateWinding);
}

#[test]
fn bow_tie_fails_to_triangulate() {
    let points = outline(&[(0, 0), (10, 10), (10, 0), (0, 10)]);
    assert_eq!(Fill::new(red(), &points).unwrap_err(), FillError::TriangulationFailed);
}

#[test]
fn triangle_is_its_own_triangulation() {
    let points = outline(&[(0, 0), (0, 10), (10, 0)]);
    let fill = Fill::new(red(), &points).unwrap();
    assert_eq!(fill.indexes(), &vec![0, 1, 2]);
}

#[test]
fn cross_product_of_plane_points() {
    let o = Point::new(1, 7, 1);
    let a = Point::new(4, 7, 1);
    let b = Point::new(1, 7, 5);
    assert_eq!(cross_y(o, a, b), -12);
    assert_eq!(cross_y(o, b, a), 12);
    let big = Point::new(i32::MAX, 0, i32::MIN);
    let small = Point::new(i32::MIN, 0, i32::MAX);
    assert_eq!(
        cross_y(Point::new(0, 0, 0), big, small),
        (i32::MIN as i128) * (i32::MIN as i128) - (i32::MAX as i128) * (i32::MAX as i128)
    );
}

#[test]
fn polygon_triangulation_is_cached() {
    let square = outline(&[(0, 0), (0, 10), (10, 10), (10, 0)]);
    let mut polygon = Polygon::new(square.clone(), red());
    let first = polygon.triangulate().unwrap();
    let second = polygon.triangulate().unwrap();
    assert_eq!(first, second);
    assert_eq!(first.len(), 6);
    assert_eq!(first[..3], [square[0], square[1], square[2]]);
    let mut bow_tie = Polygon::new(outline(&[(0, 0), (10, 10), (10, 0), (0, 10)]), red());
    assert_eq!(bow_tie.triangulate().unwrap_err(), FillError::TriangulationFailed);
}
