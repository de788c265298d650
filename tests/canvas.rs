use osm_canvas::canvas::{
    CanvasProgram, ObjectStyle, OuterStroke, Path, Stroke, TaggedVertex, FILL_FLAG, STROKE_FLAG,
};
use osm_canvas::color::Color;
use osm_canvas::fill::FillError;
use osm_canvas::geometry::Point;

fn outline(coords: &[(i32, i32)]) -> Vec<Point> {
    coords.iter().map(|&(x, z)| Point::new(x, 0, z)).collect()
}

#[test]
fn fill_is_computed_once_and_kept() {
    let (path, error) = Path::new(outline(&[(0, 0), (0, 10), (10, 10), (10, 0)]))
        .with_fill(Color::new(255, 0, 0));
    assert!(error.is_none());
    let first = path.get_fill().unwrap().indexes().clone();
    let second = path.get_fill().unwrap().indexes().clone();
    assert_eq!(first, second);
    assert_eq!(first.len(), 6);
}

#[test]
fn failed_fill_leaves_stroke_in_place() {
    let stroke = Stroke::new(1000, Color::new(1, 2, 3));
    let (path, error) = Path::new(outline(&[(0, 0), (10, 10), (10, 0), (0, 10)]))
        .with_stroke(stroke)
        .with_fill(Color::new(9, 9, 9));
    assert_eq!(error, Some(FillError::TriangulationFailed));
    assert!(path.get_fill().is_none());
    assert_eq!(path.get_stroke(), Some(stroke));
}

#[test]
fn stroke_with_dash() {
    let stroke = Stroke::new(500, Color::new(4, 5, 6)).with_dash(200);
    assert_eq!(stroke.width, 500);
    assert_eq!(stroke.dash, Some(200));
    assert_eq!(stroke.color, Color::new(4, 5, 6));
}

#[test]
fn vertex_streams_are_tagged_with_object_ids() {
    let mut canvas = CanvasProgram::new();
    let triangle = outline(&[(0, 0), (0, 10), (10, 0)]);
    let line = outline(&[(1, 1), (2, 2)]);
    let (filled, _) = Path::new(triangle.clone()).with_fill(Color::new(1, 1, 1));
    canvas.add_object(filled);
    canvas.add_object(Path::new(line.clone()).with_stroke(Stroke::new(100, Color::new(2, 2, 2))));
    assert_eq!(canvas.len(), 2);

    let fill = canvas.fill_vertices();
    let expected_fill: Vec<TaggedVertex> = [0usize, 1, 2]
        .iter()
        .map(|&i| TaggedVertex { id: 0, point: triangle[i] })
        .collect();
    assert_eq!(fill, expected_fill);

    let strokes = canvas.outline_vertices();
    let mut expected: Vec<TaggedVertex> = Vec::new();
    for p in triangle.iter().chain(std::iter::once(&triangle[0])) {
        expected.push(TaggedVertex { id: 0, point: *p });
    }
    for p in line.iter().chain(std::iter::once(&line[0])) {
        expected.push(TaggedVertex { id: 1, point: *p });
    }
    assert_eq!(strokes, expected);
}

#[test]
fn style_records_pack_flags_and_zero_absent_parts() {
    let mut canvas = CanvasProgram::new();
    let square = outline(&[(0, 0), (0, 10), (10, 10), (10, 0)]);
    let (both, _) = Path::new(square.clone())
        .with_stroke(Stroke::new(750, Color::new(10, 20, 30)).with_dash(500))
        .with_fill(Color::new(40, 50, 60));
    canvas.add_object(both);
    canvas.add_object(Path::new(square.clone()));
    let (fill_only, _) = Path::new(square).with_fill(Color::new(7, 8, 9));
    canvas.add_object(fill_only);

    let styles = canvas.styles();
    assert_eq!(styles.len(), 3);
    assert_eq!(
        styles[0],
        ObjectStyle {
            flags: STROKE_FLAG | FILL_FLAG,
            stroke_color: Color::new(10, 20, 30),
            stroke_width: 750,
            stroke_dash: 500,
            fill_color: Color::new(40, 50, 60),
        }
    );
    assert_eq!(styles[0].flags, 3);
    assert_eq!(
        styles[1],
        ObjectStyle {
            flags: 0,
            stroke_color: Color::new(0, 0, 0),
            stroke_width: 0,
            stroke_dash: 0,
            fill_color: Color::new(0, 0, 0),
        }
    );
    assert_eq!(styles[2].flags, 1);
    assert_eq!(styles[2].fill_color, Color::new(7, 8, 9));
}

#[test]
fn clearing_empties_the_scene() {
    let mut canvas = CanvasProgram::new();
    canvas.add_object(Path::new(outline(&[(0, 0), (1, 0)])));
    canvas.clear();
    assert_eq!(canvas.len(), 0);
    assert!(canvas.fill_vertices().is_empty());
    assert!(canvas.outline_vertices().is_empty());
    assert!(canvas.styles().is_empty());
}

#[test]
fn empty_outline_draws_nothing() {
    let mut canvas = CanvasProgram::new();
    let (path, error) = Path::new(Vec::new()).with_fill(Color::new(1, 2, 3));
    assert_eq!(error, Some(FillError::InsufficientPoints));
    canvas.add_object(path);
    assert!(canvas.outline_vertices().is_empty());
    assert!(canvas.fill_vertices().is_empty());
}

#[test]
fn doubled_stroke_keeps_its_base() {
    let stroke = Stroke::new(2000, Color::new(1, 1, 1)).with_dash(500).with_outer(500, Color::new(0, 0, 0));
    assert_eq!(stroke.doubled, Some(OuterStroke { width: 500, color: Color::new(0, 0, 0) }));
    assert_eq!((stroke.width, stroke.dash), (2000, Some(500)));
    assert_eq!(Stroke::new(1, Color::new(0, 0, 0)).doubled, None);
}
