use vstd::prelude::*;

use crate::color::Color;
use crate::fill::{lemma_triangle_count, triangulation, Fill, FillError};
use crate::geometry::Point;

verus! {

/// How an outline is stroked. Widths and the dash length are in thousandths
/// of a map unit; no dash length means a solid line. A doubled stroke is
/// drawn over a wider outer line of its own width and colour.
#[derive(Clone, Copy, Debug, PartialEq, Eq, Structural)]
pub struct Stroke {
    pub width: u32,
    pub dash: Option<u32>,
    pub color: Color,
    pub doubled: Option<OuterStroke>,
}

/// The outer line of a doubled stroke.
#[derive(Clone, Copy, Debug, PartialEq, Eq, Structural)]
pub struct OuterStroke {
    pub width: u32,
    pub color: Color,
}

impl Stroke {
    pub fn new(width: u32, color: Color) -> (s: Stroke)
        ensures
            s.width == width,
            s.color == color,
            s.dash is None,
            s.doubled is None,
    {
        Stroke { width, color, dash: None, doubled: None }
    }

    pub fn with_dash(self, dash: u32) -> (s: Stroke)
        ensures
            s.width == self.width,
            s.color == self.color,
            s.dash == Some(dash),
            s.doubled == self.doubled,
    {
        Stroke { dash: Some(dash), ..self }
    }

    pub fn with_outer(self, outer_width: u32, outer_color: Color) -> (s: Stroke)
        ensures
            s.width == self.width,
            s.color == self.color,
            s.dash == self.dash,
            s.doubled == Some(OuterStroke { width: outer_width, color: outer_color }),
    {
        Stroke { doubled: Some(OuterStroke { width: outer_width, color: outer_color }), ..self }
    }
}

/// A drawable outline with an optional stroke and an optional fill.
///
/// The fill is triangulated once, when it is attached, from the path's own
/// points; the points never change afterwards, so the cached triangles always
/// belong to them.
pub struct Path {
    points: Vec<Point>,
    stroke: Option<Stroke>,
    fill: Option<Fill>,
}

impl Path {
    #[verifier::type_invariant]
    spec fn fill_belongs(&self) -> bool {
        match self.fill {
            Some(f) => triangulation(self.points@) == Ok::<Seq<usize>, FillError>(f.triangles()),
            None => true,
        }
    }

    /// The open outline: its last point joins back to its first.
    pub closed spec fn outline(&self) -> Seq<Point> {
        self.points@
    }

    pub closed spec fn stroke_spec(&self) -> Option<Stroke> {
        self.stroke
    }

    pub closed spec fn fill_spec(&self) -> Option<Fill> {
        self.fill
    }

    pub fn new(points: Vec<Point>) -> (p: Path)
        ensures
            p.outline() == points@,
            p.stroke_spec() is None,
            p.fill_spec() is None,
    {
        Path { points, stroke: None, fill: None }
    }

    pub fn with_stroke(self, stroke: Stroke) -> (p: Path)
        ensures
            p.outline() == self.outline(),
            p.stroke_spec() == Some(stroke),
            p.fill_spec() == self.fill_spec(),
    {
        proof {
            use_type_invariant(&self);
        }
        Path { points: self.points, stroke: Some(stroke), fill: self.fill }
    }

    /// Attaches a solid fill, triangulating the outline now. Where the outline
    /// cannot be triangulated the path is left without a fill (its stroke
    /// still draws) and the reason is handed back.
    pub fn with_fill(self, color: Color) -> (r: (Path, Option<FillError>))
        ensures
            r.0.outline() == self.outline(),
            r.0.stroke_spec() == self.stroke_spec(),
            match triangulation(self.outline()) {
                Ok(t) => r.1 is None && (r.0.fill_spec() matches Some(f) && f.triangles() == t
                    && f.fill_color() == color),
                Err(e) => r.1 == Some(e) && r.0.fill_spec() is None,
            },
    {
        match Fill::new(color, self.points.as_slice()) {
            Ok(f) => (Path { points: self.points, stroke: self.stroke, fill: Some(f) }, None),
            Err(e) => (Path { points: self.points, stroke: self.stroke, fill: None }, Some(e)),
        }
    }

    pub fn get_vertices(&self) -> (r: &Vec<Point>)
        ensures
            r@ == self.outline(),
    {
        &self.points
    }

    pub fn get_stroke(&self) -> (r: Option<Stroke>)
        ensures
            r == self.stroke_spec(),
    {
        self.stroke
    }

    /// The fill as cached when it was attached. Asking again gives the same
    /// triangles, and they are the triangulation of the current outline.
    pub fn get_fill(&self) -> (r: Option<&Fill>)
        ensures
            match r {
                Some(f) => self.fill_spec() == Some(*f) && triangulation(self.outline()) == Ok::<
                    Seq<usize>,
                    FillError,
                >(f.triangles()),
                None => self.fill_spec() is None,
            },
    {
        proof {
            use_type_invariant(self);
        }
        match &self.fill {
            Some(f) => Some(f),
            None => None,
        }
    }
}

/// A vertex handed to the renderer, tagged with the id of the object it
/// belongs to.
#[derive(Clone, Copy, Debug, PartialEq, Eq, Structural)]
pub struct TaggedVertex {
    pub id: u32,
    pub point: Point,
}

/// Per-object style record that the renderer looks up by object id.
/// `flags` holds [`STROKE_FLAG`] when the object has a stroke and
/// [`FILL_FLAG`] when it has a fill; absent parts are zero.
#[derive(Clone, Copy, Debug, PartialEq, Eq, Structural)]
pub struct ObjectStyle {
    pub flags: u32,
    pub stroke_color: Color,
    pub stroke_width: u32,
    pub stroke_dash: u32,
    pub fill_color: Color,
}

pub const STROKE_FLAG: u32 = 2;

pub const FILL_FLAG: u32 = 1;

/// The points of `pts`, each tagged with `id`.
pub open spec fn tagged(id: int, pts: Seq<Point>) -> Seq<TaggedVertex> {
    pts.map_values(|p: Point| TaggedVertex { id: id as u32, point: p })
}

/// The stroke's line strip: the outline joined back to its first point.
pub open spec fn closed_outline(pts: Seq<Point>) -> Seq<Point> {
    if pts.len() == 0 {
        pts
    } else {
        pts.push(pts[0])
    }
}

/// The fill's triangle list: three outline points per triangle.
pub open spec fn fill_points(p: Path) -> Seq<Point> {
    match p.fill_spec() {
        Some(f) => f.triangles().map_values(|i: usize| p.outline()[i as int]),
        None => Seq::empty(),
    }
}

/// Fill vertices of every object, in object order, tagged with the object's
/// position.
pub open spec fn fill_stream(objs: Seq<Path>) -> Seq<TaggedVertex>
    decreases objs.len(),
{
    if objs.len() == 0 {
        Seq::empty()
    } else {
        fill_stream(objs.drop_last()) + tagged(objs.len() - 1, fill_points(objs.last()))
    }
}

/// Stroke vertices of every object, in object order, tagged with the
/// object's position.
pub open spec fn outline_stream(objs: Seq<Path>) -> Seq<TaggedVertex>
    decreases objs.len(),
{
    if objs.len() == 0 {
        Seq::empty()
    } else {
        outline_stream(objs.drop_last()) + tagged(
            objs.len() - 1,
            closed_outline(objs.last().outline()),
        )
    }
}

pub open spec fn style_of(p: Path) -> ObjectStyle {
    ObjectStyle {
        flags: ((if p.stroke_spec() is Some {
            STROKE_FLAG
        } else {
            0
        }) + (if p.fill_spec() is Some {
            FILL_FLAG
        } else {
            0
        })) as u32,
        stroke_color: match p.stroke_spec() {
            Some(s) => s.color,
            None => Color { r: 0, g: 0, b: 0 },
        },
        stroke_width: match p.stroke_spec() {
            Some(s) => s.width,
            None => 0,
        },
        stroke_dash: match p.stroke_spec() {
            Some(s) => match s.dash {
                Some(d) => d,
                None => 0,
            },
            None => 0,
        },
        fill_color: match p.fill_spec() {
            Some(f) => f.fill_color(),
            None => Color { r: 0, g: 0, b: 0 },
        },
    }
}

/// The scene: drawable objects in insertion order. An object's position is
/// its id, which the renderer reads as a `u32`.
pub struct CanvasProgram {
    objects: Vec<Path>,
}

impl CanvasProgram {
    pub closed spec fn objects(&self) -> Seq<Path> {
        self.objects@
    }

    pub fn new() -> (c: CanvasProgram)
        ensures
            c.objects() == Seq::<Path>::empty(),
    {
        CanvasProgram { objects: Vec::new() }
    }

    pub fn len(&self) -> (n: usize)
        ensures
            n == self.objects().len(),
    {
        self.objects.len()
    }

    /// Adds an object; its id is the number of objects before it.
    pub fn add_object(&mut self, object: Path)
        requires
            old(self).objects().len() < u32::MAX,
        ensures
            final(self).objects() == old(self).objects().push(object),
    {
        self.objects.push(object);
    }

    pub fn clear(&mut self)
        ensures
            final(self).objects() == Seq::<Path>::empty(),
    {
        self.objects.clear();
    }

    /// The fill triangle vertices of all objects, tagged with object ids.
    pub fn fill_vertices(&self) -> (r: Vec<TaggedVertex>)
        requires
            self.objects().len() <= u32::MAX,
        ensures
            r@ == fill_stream(self.objects()),
    {
        let mut r: Vec<TaggedVertex> = Vec::new();
        let mut o: usize = 0;
        while o < self.objects.len()
            invariant
                o <= self.objects@.len() <= u32::MAX,
                r@ == fill_stream(self.objects@.subrange(0, o as int)),
            decreases self.objects@.len() - o,
        {
            let path = &self.objects[o];
            let ghost base = r@;
            let id = o as u32;
            match path.get_fill() {
                Some(f) => {
                    let idx = f.indexes();
                    let pts = path.get_vertices();
                    let point_count = pts.len();
                    proof {
                        assert(point_count == pts@.len());
                        lemma_triangle_count(pts@);
                    }
                    assert(fill_points(*path) == idx@.map_values(|i: usize| pts@[i as int]));
                    let mut j: usize = 0;
                    while j < idx.len()
                        invariant
                            j <= idx@.len(),
                            idx@ == f.triangles(),
                            pts@ == path.outline(),
                            triangulation(pts@) == Ok::<Seq<usize>, FillError>(idx@),
                            forall|k: int| 0 <= k < idx@.len() ==> idx@[k] < pts@.len(),
                            fill_points(*path) == idx@.map_values(|i: usize| pts@[i as int]),
                            r@ == base + tagged(id as int, fill_points(*path).subrange(0, j as int)),
                        decreases idx@.len() - j,
                    {
                        let v = TaggedVertex { id, point: pts[idx[j]] };
                        r.push(v);
                        j = j + 1;
                        assert(tagged(id as int, fill_points(*path).subrange(0, j as int)) =~= tagged(
                            id as int,
                            fill_points(*path).subrange(0, j - 1),
                        ).push(v));
                    }
                    assert(fill_points(*path).subrange(0, j as int) =~= fill_points(*path));
                },
                None => {
                    assert(fill_points(*path) =~= Seq::<Point>::empty());
                    assert(tagged(id as int, fill_points(*path)) =~= Seq::<TaggedVertex>::empty());
                    assert(r@ =~= base + tagged(id as int, fill_points(*path)));
                },
            }
            let ghost done = self.objects@.subrange(0, o + 1);
            assert(done.drop_last() =~= self.objects@.subrange(0, o as int));
            o = o + 1;
        }
        assert(self.objects@.subrange(0, o as int) =~= self.objects@);
        r
    }

    /// The stroke vertices of all objects, each outline joined back to its
    /// first point, tagged with object ids.
    pub fn outline_vertices(&self) -> (r: Vec<TaggedVertex>)
        requires
            self.objects().len() <= u32::MAX,
        ensures
            r@ == outline_stream(self.objects()),
    {
        let mut r: Vec<TaggedVertex> = Vec::new();
        let mut o: usize = 0;
        while o < self.objects.len()
            invariant
                o <= self.objects@.len() <= u32::MAX,
                r@ == outline_stream(self.objects@.subrange(0, o as int)),
            decreases self.objects@.len() - o,
        {
            let path = &self.objects[o];
            let ghost base = r@;
            let id = o as u32;
            let pts = path.get_vertices();
            let mut j: usize = 0;
            while j < pts.len()
                invariant
                    j <= pts@.len(),
                    pts@ == path.outline(),
                    r@ == base + tagged(id as int, pts@.subrange(0, j as int)),
                decreases pts@.len() - j,
            {
                let v = TaggedVertex { id, point: pts[j] };
                r.push(v);
                j = j + 1;
                assert(tagged(id as int, pts@.subrange(0, j as int)) =~= tagged(
                    id as int,
                    pts@.subrange(0, j - 1),
                ).push(v));
            }
            assert(pts@.subrange(0, j as int) =~= pts@);
            if pts.len() > 0 {
                let v = TaggedVertex { id, point: pts[0] };
                r.push(v);
                assert(tagged(id as int, closed_outline(pts@)) =~= tagged(id as int, pts@).push(v));
            }
            let ghost done = self.objects@.subrange(0, o + 1);
            assert(done.drop_last() =~= self.objects@.subrange(0, o as int));
            o = o + 1;
        }
        assert(self.objects@.subrange(0, o as int) =~= self.objects@);
        r
    }

    /// One style record per object, in object order.
    pub fn styles(&self) -> (r: Vec<ObjectStyle>)
        ensures
            r@ == self.objects().map_values(|p: Path| style_of(p)),
    {
        let mut r: Vec<ObjectStyle> = Vec::new();
        let mut o: usize = 0;
        while o < self.objects.len()
            invariant
                o <= self.objects@.len(),
                r@ == self.objects@.subrange(0, o as int).map_values(|p: Path| style_of(p)),
            decreases self.objects@.len() - o,
        {
            let s = style(&self.objects[o]);
            r.push(s);
            o = o + 1;
            assert(r@ =~= self.objects@.subrange(0, o as int).map_values(|p: Path| style_of(p)));
        }
        assert(self.objects@.subrange(0, o as int) =~= self.objects@);
        r
    }
}

fn style(p: &Path) -> (s: ObjectStyle)
    ensures
        s == style_of(*p),
{
    let stroke = p.get_stroke();
    let fill = p.get_fill();
    let stroke_bit: u32 = match stroke {
        Some(_) => STROKE_FLAG,
        None => 0,
    };
    let fill_bit: u32 = match fill {
        Some(_) => FILL_FLAG,
        None => 0,
    };
    let (stroke_color, stroke_width, stroke_dash) = match stroke {
        Some(s) => (
            s.color,
            s.width,
            match s.dash {
                Some(d) => d,
                None => 0,
            },
        ),
        None => (Color::black(), 0, 0),
    };
    let fill_color = match fill {
        Some(f) => f.color(),
        None => Color::black(),
    };
    ObjectStyle { flags: stroke_bit + fill_bit, stroke_color, stroke_width, stroke_dash, fill_color }
}

} // verus!
