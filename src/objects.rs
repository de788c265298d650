use vstd::prelude::*;

use crate::canvas::{Path, Stroke};
use crate::color::Color;
use crate::fill::{triangulation, FillError};
use crate::geometry::Point;
use crate::osm::{str_eq, Tags, Way};

verus! {

/// Road classes, after the OSM `highway` key.
#[derive(Clone, Copy, Debug, PartialEq, Eq, Structural)]
pub enum Highway {
    Motorway,
    Trunk,
    Primary,
    Secondary,
    Tertiary,
    Unclassified,
    Residential,
    Service,
    Footway,
    Path,
    Cycleway,
    Other,
}

pub struct Building;

pub struct Park;

pub struct Railway;

/// What a way draws as, judged from its tags.
#[derive(Clone, Copy, Debug, PartialEq, Eq, Structural)]
pub enum WayKind {
    Highway(Highway),
    Park,
    Railway,
    Building,
}

/// The road class that a `highway` tag value names.
pub open spec fn highway_of(value: Seq<char>) -> Highway {
    if value == "tertiary"@ {
        Highway::Tertiary
    } else if value == "residential"@ {
        Highway::Residential
    } else if value == "service"@ {
        Highway::Service
    } else if value == "footway"@ {
        Highway::Footway
    } else if value == "path"@ {
        Highway::Path
    } else if value == "cycleway"@ {
        Highway::Cycleway
    } else {
        Highway::Other
    }
}

/// The kind of a way with tags `t`: highways first, then parks, railways and
/// buildings.
pub open spec fn way_kind(t: Map<Seq<char>, Seq<char>>) -> Option<WayKind> {
    if t.contains_key("highway"@) {
        Some(WayKind::Highway(highway_of(t["highway"@])))
    } else if t.contains_key("leisure"@) && t["leisure"@] == "park"@ {
        Some(WayKind::Park)
    } else if t.contains_key("railway"@) {
        Some(WayKind::Railway)
    } else if t.contains_key("building"@) {
        Some(WayKind::Building)
    } else {
        None
    }
}

pub open spec fn highway_width(h: Highway) -> u32 {
    match h {
        Highway::Motorway => 4000,
        Highway::Trunk | Highway::Primary | Highway::Secondary | Highway::Tertiary => 2000,
        Highway::Service => 750,
        Highway::Footway | Highway::Path => 500,
        _ => 1000,
    }
}

pub open spec fn highway_color(h: Highway) -> Color {
    match h {
        Highway::Motorway => Color { r: 223, g: 46, b: 107 },
        Highway::Trunk => Color { r: 234, g: 144, b: 161 },
        Highway::Primary => Color { r: 252, g: 192, b: 171 },
        Highway::Secondary => Color { r: 253, g: 214, b: 1 },
        Highway::Tertiary => Color { r: 246, g: 250, b: 187 },
        Highway::Footway | Highway::Path => Color { r: 250, g: 164, b: 156 },
        _ => Color { r: 169, g: 175, b: 182 },
    }
}

pub open spec fn highway_dash(h: Highway) -> Option<u32> {
    match h {
        Highway::Footway | Highway::Path => Some(200),
        Highway::Motorway | Highway::Trunk | Highway::Primary | Highway::Secondary
        | Highway::Tertiary => Some(500),
        _ => None,
    }
}

pub open spec fn park_fill() -> Color {
    Color { r: 205, g: 247, b: 201 }
}

pub open spec fn park_edge() -> Color {
    Color { r: 122, g: 175, b: 117 }
}

pub open spec fn building_fill() -> Color {
    Color { r: 179, g: 179, b: 179 }
}

pub open spec fn railway_color() -> Color {
    Color { r: 164, g: 214, b: 255 }
}

fn highway_for_value(value: &str) -> (h: Highway)
    ensures
        h == highway_of(value@),
{
    if str_eq(value, "tertiary") {
        Highway::Tertiary
    } else if str_eq(value, "residential") {
        Highway::Residential
    } else if str_eq(value, "service") {
        Highway::Service
    } else if str_eq(value, "footway") {
        Highway::Footway
    } else if str_eq(value, "path") {
        Highway::Path
    } else if str_eq(value, "cycleway") {
        Highway::Cycleway
    } else {
        Highway::Other
    }
}

impl Highway {
    /// The road class of a way, if it has a `highway` tag.
    pub fn from_tags(tags: &Tags) -> (r: Option<Highway>)
        ensures
            match r {
                Some(h) => tags@.contains_key("highway"@) && h == highway_of(tags@["highway"@]),
                None => !tags@.contains_key("highway"@),
            },
    {
        match tags.get("highway") {
            Some(value) => Some(highway_for_value(value.as_str())),
            None => None,
        }
    }

    pub fn stroke(&self) -> (s: Stroke)
        ensures
            s.width == highway_width(*self),
            s.color == highway_color(*self),
            s.dash == highway_dash(*self),
            s.doubled is None,
    {
        let width: u32 = match self {
            Highway::Motorway => 4000,
            Highway::Trunk | Highway::Primary | Highway::Secondary | Highway::Tertiary => 2000,
            Highway::Service => 750,
            Highway::Footway | Highway::Path => 500,
            _ => 1000,
        };
        let color = match self {
            Highway::Motorway => Color::new(223, 46, 107),
            Highway::Trunk => Color::new(234, 144, 161),
            Highway::Primary => Color::new(252, 192, 171),
            Highway::Secondary => Color::new(253, 214, 1),
            Highway::Tertiary => Color::new(246, 250, 187),
            Highway::Footway | Highway::Path => Color::new(250, 164, 156),
            _ => Color::new(169, 175, 182),
        };
        let stroke = Stroke::new(width, color);
        match self {
            Highway::Footway | Highway::Path => stroke.with_dash(200),
            Highway::Motorway | Highway::Trunk | Highway::Primary | Highway::Secondary
            | Highway::Tertiary => stroke.with_dash(500),
            _ => stroke,
        }
    }
}

impl Way {
    /// What the way draws as, if anything.
    pub fn to_object(&self) -> (r: Option<WayKind>)
        ensures
            r == way_kind(self.tags@),
    {
        match Highway::from_tags(&self.tags) {
            Some(h) => {
                return Some(WayKind::Highway(h));
            },
            None => {},
        }
        let is_park = match self.tags.get("leisure") {
            Some(value) => str_eq(value.as_str(), "park"),
            None => false,
        };
        if is_park {
            Some(WayKind::Park)
        } else if self.tags.contains("railway") {
            Some(WayKind::Railway)
        } else if self.tags.contains("building") {
            Some(WayKind::Building)
        } else {
            None
        }
    }
}

impl WayKind {
    /// The paths that draw a way of this kind along `points`, and why its
    /// fill was dropped, if it was.
    pub fn get_paths(&self, points: Vec<Point>) -> (r: (Vec<Path>, Option<FillError>))
        ensures
            r.0@.len() == 1,
            r.0@[0].outline() == points@,
            match *self {
                WayKind::Highway(h) => r.0@[0].stroke_spec() == Some(
                    Stroke {
                        width: highway_width(h),
                        dash: highway_dash(h),
                        color: highway_color(h),
                        doubled: None,
                    },
                ) && r.0@[0].fill_spec() is None && r.1 is None,
                WayKind::Railway => r.0@[0].stroke_spec() == Some(
                    Stroke { width: 100, dash: None, color: railway_color(), doubled: None },
                ) && r.0@[0].fill_spec() is None && r.1 is None,
                WayKind::Park => r.0@[0].stroke_spec() == Some(
                    Stroke { width: 1000, dash: None, color: park_edge(), doubled: None },
                ) && fill_outcome(r.0@[0], r.1, points@, park_fill()),
                WayKind::Building => r.0@[0].stroke_spec() is None && fill_outcome(
                    r.0@[0],
                    r.1,
                    points@,
                    building_fill(),
                ),
            },
    {
        let path = Path::new(points);
        let (path, error) = match self {
            WayKind::Highway(h) => (path.with_stroke(h.stroke()), None),
            WayKind::Railway => (path.with_stroke(Stroke::new(100, Color::new(164, 214, 255))), None),
            WayKind::Park => {
                let (filled, error) = path.with_fill(Color::new(205, 247, 201));
                (filled.with_stroke(Stroke::new(1000, Color::new(122, 175, 117))), error)
            },
            WayKind::Building => path.with_fill(Color::new(179, 179, 179)),
        };
        let mut paths: Vec<Path> = Vec::new();
        paths.push(path);
        (paths, error)
    }
}

/// The path carries the fill of colour `color` that `points` triangulate
/// to, or no fill and the error that the triangulation gave.
pub open spec fn fill_outcome(
    p: Path,
    error: Option<FillError>,
    points: Seq<Point>,
    color: Color,
) -> bool {
    match triangulation(points) {
        Ok(t) => error is None && (p.fill_spec() matches Some(f) && f.triangles() == t
            && f.fill_color() == color),
        Err(e) => error == Some(e) && p.fill_spec() is None,
    }
}

} // verus!
