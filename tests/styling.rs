use osm_canvas::color::Color;
use osm_canvas::gl::{
    shader_type_for, vertex_count, vertex_layout, DrawArrays, ImageFormat, ProgramBuilder, ShaderType,
    TextureBufferBuilder, TextureBufferBuilderError, VertexFormat, VertexType, DrawType,
};
use osm_canvas::objects::{Highway, WayKind};
use osm_canvas::osm::{Tags, Way};
use osm_canvas::geometry::Point;

fn tags(pairs: &[(&str, &str)]) -> Tags {
    Tags::from_pairs(pairs.iter().map(|(k, v)| (k.to_string(), v.to_string())).collect())
}

#[test]
fn tags_lookup_and_override() {
    let t = tags(&[("highway", "path"), ("name", "a"), ("name", "b")]);
    assert_eq!(t.get("name").map(|s| s.as_str()), Some("b"));
    assert!(t.contains("highway"));
    assert!(!t.contains("railway"));
    assert!(Tags::new().get("x").is_none());
}

#[test]
fn highway_classes_from_tags() {
    assert!(matches!(Highway::from_tags(&tags(&[("highway", "tertiary")])), Some(Highway::Tertiary)));
    assert!(matches!(Highway::from_tags(&tags(&[("highway", "footway")])), Some(Highway::Footway)));
    assert!(matches!(Highway::from_tags(&tags(&[("highway", "motorway")])), Some(Highway::Other)));
    assert!(Highway::from_tags(&tags(&[("building", "yes")])).is_none());
}

#[test]
fn highway_strokes() {
    let footway = Highway::Footway.stroke();
    assert_eq!((footway.width, footway.dash), (500, Some(200)));
    assert_eq!(footway.color, Color::new(250, 164, 156));
    let motorway = Highway::Motorway.stroke();
    assert_eq!((motorway.width, motorway.dash), (4000, Some(500)));
    let residential = Highway::Residential.stroke();
    assert_eq!((residential.width, residential.dash), (1000, None));
    assert_eq!(residential.color, Color::new(169, 175, 182));
    assert_eq!(Highway::Service.stroke().width, 750);
}

#[test]
fn way_kinds_follow_tag_priority() {
    let way = |pairs: &[(&str, &str)]| Way { tags: tags(pairs), nodes: vec![1, 2, 3] };
    assert_eq!(way(&[("highway", "service"), ("building", "yes")]).to_object(), Some(WayKind::Highway(Highway::Service)));
    assert_eq!(way(&[("leisure", "park")]).to_object(), Some(WayKind::Park));
    assert_eq!(way(&[("leisure", "pitch"), ("building", "yes")]).to_object(), Some(WayKind::Building));
    assert_eq!(way(&[("railway", "rail")]).to_object(), Some(WayKind::Railway));
    assert_eq!(way(&[("name", "x")]).to_object(), None);
}

#[test]
fn park_paths_are_filled_and_stroked() {
    let points = vec![Point::new(0, 0, 0), Point::new(0, 0, 10), Point::new(10, 0, 10), Point::new(10, 0, 0)];
    let (paths, error) = WayKind::Park.get_paths(points.clone());
    assert!(error.is_none());
    assert_eq!(paths.len(), 1);
    assert_eq!(paths[0].get_vertices(), &points);
    assert_eq!(paths[0].get_fill().unwrap().color(), Color::new(205, 247, 201));
    assert_eq!(paths[0].get_stroke().unwrap().width, 1000);
    let (railway, _) = WayKind::Railway.get_paths(points.clone());
    assert_eq!(railway[0].get_stroke().unwrap().color, Color::new(164, 214, 255));
    assert!(railway[0].get_fill().is_none());
    let (building, _) = WayKind::Building.get_paths(points);
    assert!(building[0].get_stroke().is_none());
    assert_eq!(building[0].get_fill().unwrap().indexes().len(), 6);
}

#[test]
fn vertex_sizes_and_layout() {
    assert_eq!(VertexType::Float.size(), 4);
    assert_eq!(VertexType::UInt.size(), 4);
    assert_eq!(VertexFormat::new(3, VertexType::Float).size(), 12);
    let formats = [VertexFormat::new(1, VertexType::UInt), VertexFormat::new(3, VertexType::Float)];
    let (stride, offsets) = vertex_layout(&formats);
    assert_eq!(stride, 16);
    assert_eq!(offsets, vec![0, 4, 16]);
}

#[test]
fn continuous_draws_start_where_the_last_ended() {
    let draws = DrawArrays::new_continuous(vec![3, 4, 5]);
    assert_eq!(draws.first, vec![0, 3, 7]);
    assert_eq!(draws.count, vec![3, 4, 5]);
    assert!(DrawArrays::new_continuous(Vec::new()).first.is_empty());
    let explicit = DrawArrays::new(vec![1], vec![2]);
    assert_eq!((explicit.first, explicit.count), (vec![1], vec![2]));
}

#[test]
fn shader_names_map_to_stages() {
    assert_eq!(shader_type_for("vert"), Some(ShaderType::Vertex));
    assert_eq!(shader_type_for("fragment"), Some(ShaderType::Fragment));
    assert_eq!(shader_type_for("geom"), Some(ShaderType::Geometry));
    assert_eq!(shader_type_for("readme"), None);
}

#[test]
fn program_builder_collects_its_parts() {
    let builder: ProgramBuilder<u8> = ProgramBuilder::new()
        .with_gl(7)
        .with_shader(ShaderType::Vertex, "void main() {}")
        .with_format(&[VertexFormat::new(3, VertexType::Float)])
        .with_draw_type(DrawType::LineStrip)
        .with_buffer_texture();
    assert_eq!(builder.gl, Some(7));
    assert_eq!(builder.shaders.len(), 1);
    assert_eq!(builder.shaders[0].1, "void main() {}");
    assert_eq!(builder.vertex_format, vec![VertexFormat::new(3, VertexType::Float)]);
    assert_eq!(builder.draw_type, Some(DrawType::LineStrip));
    assert!(builder.buffer_texture);
}

#[test]
fn texture_buffer_needs_a_format() {
    let missing = TextureBufferBuilder::new().build(());
    assert!(matches!(missing, Err(TextureBufferBuilderError::MissingFormat)));
    let made = TextureBufferBuilder::new().with_format(ImageFormat::R32F).build(());
    assert_eq!(made.ok().map(|t| t.format), Some(ImageFormat::R32F));
}

#[test]
fn vertex_count_divides_by_the_stride() {
    let formats = [VertexFormat::new(1, VertexType::UInt), VertexFormat::new(3, VertexType::Float)];
    assert_eq!(vertex_count(64, &formats), Some(4));
    assert_eq!(vertex_count(70, &formats), Some(4));
    assert_eq!(vertex_count(64, &[]), None);
}
