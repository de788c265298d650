use vstd::prelude::*;

use crate::color::Color;
use crate::geometry::{abs, cross_y, inside, point_in_triangle, sign, turn, Point};
use crate::polygon::{
    distinct_points, lemma_area_remove, lemma_area_reverse, lemma_area_triangle,
    lemma_neighbours, lemma_winding_reverse, signed_area2, winding, winding_direction,
};

verus! {

/// Why an outline could not be filled.
#[derive(Clone, Copy, Debug, PartialEq, Eq, Structural)]
pub enum FillError {
    /// Fewer than three points: there is no area to fill.
    InsufficientPoints,
    /// The pivot and its neighbours are collinear, so the outline gives no
    /// winding direction to tell convex corners from reflex ones.
    DegenerateWinding,
    /// Ear clipping found no ear to clip in a full pass over the remaining
    /// outline, or the last three points do not turn with the outline: the
    /// outline is not a simple polygon.
    TriangulationFailed,
}

/// Plane coordinates of the point at position `k` of the remaining indexes.
pub open spec fn at(outline: Seq<Point>, rem: Seq<usize>, k: int) -> (int, int) {
    outline[rem[k] as int].plane()
}

/// Turn of the outline at the centre of the candidate ear whose left corner
/// sits at position `c` of the remaining indexes.
pub open spec fn ear_turn(outline: Seq<Point>, rem: Seq<usize>, c: int) -> int {
    let m = rem.len() as int;
    turn(at(outline, rem, (c + 1) % m), at(outline, rem, c), at(outline, rem, (c + 2) % m))
}

/// Some other remaining point lies in the candidate ear at position `c`.
pub open spec fn blocked(outline: Seq<Point>, rem: Seq<usize>, c: int) -> bool {
    let m = rem.len() as int;
    exists|k: int|
        0 <= k < m && k != c && k != (c + 1) % m && k != (c + 2) % m && #[trigger] inside(
            at(outline, rem, k),
            at(outline, rem, c),
            at(outline, rem, (c + 1) % m),
            at(outline, rem, (c + 2) % m),
        )
}

/// The candidate ear at position `c` turns with the outline and holds no other
/// remaining point.
pub open spec fn is_ear(outline: Seq<Point>, rem: Seq<usize>, c: int, dir: int) -> bool {
    sign(ear_turn(outline, rem, c)) == dir && !blocked(outline, rem, c)
}

/// Ear clipping from a given state: `rem` holds the indexes still on the
/// outline, `c` the position of the candidate ear's left corner, `misses` the
/// candidates rejected since the last clip, and `out` the triangles emitted
/// so far. After a clip the cursor stays on the same left corner.
pub open spec fn clip(
    outline: Seq<Point>,
    dir: int,
    rem: Seq<usize>,
    c: int,
    misses: nat,
    out: Seq<usize>,
) -> Result<Seq<usize>, FillError>
    decreases rem.len(), rem.len() - misses,
{
    let m = rem.len() as int;
    if m <= 3 {
        if m == 3 && sign(turn(at(outline, rem, 1), at(outline, rem, 0), at(outline, rem, 2)))
            == dir {
            Ok(out + rem)
        } else {
            Err(FillError::TriangulationFailed)
        }
    } else if misses >= m {
        Err(FillError::TriangulationFailed)
    } else if is_ear(outline, rem, c, dir) {
        let ci = (c + 1) % m;
        clip(
            outline,
            dir,
            rem.remove(ci),
            if ci == 0 {
                c - 1
            } else {
                c
            },
            0,
            out + seq![rem[c], rem[ci], rem[(c + 2) % m]],
        )
    } else {
        clip(outline, dir, rem, (c + 1) % m, misses + 1, out)
    }
}

/// Every index of the outline, in order.
pub open spec fn all_indexes(n: nat) -> Seq<usize> {
    Seq::new(n, |i: int| i as usize)
}

/// Ear-clipping triangulation of an open outline: indexes into the outline,
/// three per triangle.
pub open spec fn triangulation(outline: Seq<Point>) -> Result<Seq<usize>, FillError> {
    if outline.len() < 3 {
        Err(FillError::InsufficientPoints)
    } else if winding(outline) == 0 {
        Err(FillError::DegenerateWinding)
    } else {
        clip(outline, winding(outline), all_indexes(outline.len()), 0, 0, Seq::empty())
    }
}

/// Twice the signed area of the triangle whose indexes start at offset `k`
/// of `t`, as the turn at its middle corner.
pub open spec fn triangle_turn(outline: Seq<Point>, t: Seq<usize>, k: int) -> int {
    turn(
        outline[t[k + 1] as int].plane(),
        outline[t[k] as int].plane(),
        outline[t[k + 2] as int].plane(),
    )
}

/// Sum of the signed doubled areas of the triangles listed in `t`.
pub open spec fn turn_sum(outline: Seq<Point>, t: Seq<usize>) -> int
    decreases t.len(),
{
    if t.len() < 3 {
        0
    } else {
        turn_sum(outline, t.subrange(0, t.len() - 3)) + triangle_turn(outline, t, t.len() - 3)
    }
}

/// Sum of the unsigned doubled areas of the triangles listed in `t`.
pub open spec fn area_sum(outline: Seq<Point>, t: Seq<usize>) -> int
    decreases t.len(),
{
    if t.len() < 3 {
        0
    } else {
        area_sum(outline, t.subrange(0, t.len() - 3)) + abs(triangle_turn(outline, t, t.len() - 3))
    }
}

/// The outline's points at the given indexes.
pub open spec fn corners(outline: Seq<Point>, rem: Seq<usize>) -> Seq<Point> {
    rem.map_values(|i: usize| outline[i as int])
}

proof fn lemma_area_sum_nonnegative(outline: Seq<Point>, t: Seq<usize>)
    ensures
        area_sum(outline, t) >= 0,
    decreases t.len(),
{
    if t.len() >= 3 {
        lemma_area_sum_nonnegative(outline, t.subrange(0, t.len() - 3));
    }
}

proof fn lemma_sums_push(outline: Seq<Point>, out: Seq<usize>, a: usize, b: usize, c: usize)
    ensures
        ({
            let t = out + seq![a, b, c];
            &&& turn_sum(outline, t) == turn_sum(outline, out) + triangle_turn(outline, t, out.len() as int)
            &&& area_sum(outline, t) == area_sum(outline, out) + abs(
                triangle_turn(outline, t, out.len() as int),
            )
        }),
{
    let t = out + seq![a, b, c];
    assert(t.subrange(0, t.len() - 3) =~= out);
}

/// What ear clipping from a state guarantees of its result `res`.
pub open spec fn clip_facts(
    outline: Seq<Point>,
    dir: int,
    rem: Seq<usize>,
    out: Seq<usize>,
    res: Seq<usize>,
) -> bool {
    &&& res.len() == out.len() + 3 * (rem.len() - 2)
    &&& res.subrange(0, out.len() as int) == out
    &&& forall|k: int| out.len() <= k < res.len() ==> res[k] < outline.len()
    &&& turn_sum(outline, res) == turn_sum(outline, out) - signed_area2(corners(outline, rem))
    &&& area_sum(outline, res) == area_sum(outline, out) - dir * signed_area2(
        corners(outline, rem),
    )
    &&& forall|k: int|
        out.len() <= k < res.len() && k % 3 == 0 ==> sign(
            #[trigger] triangle_turn(outline, res, k),
        ) == dir
}

proof fn lemma_ear_step(
    outline: Seq<Point>,
    dir: int,
    rem: Seq<usize>,
    c: int,
    out: Seq<usize>,
    res: Seq<usize>,
)
    requires
        dir == 1 || dir == -1,
        rem.len() >= 4,
        0 <= c < rem.len(),
        out.len() % 3 == 0,
        forall|k: int| 0 <= k < rem.len() ==> rem[k] < outline.len(),
        sign(ear_turn(outline, rem, c)) == dir,
        clip_facts(
            outline,
            dir,
            rem.remove((c + 1) % (rem.len() as int)),
            out + seq![
                rem[c],
                rem[(c + 1) % (rem.len() as int)],
                rem[(c + 2) % (rem.len() as int)],
            ],
            res,
        ),
    ensures
        clip_facts(outline, dir, rem, out, res),
{
    let m = rem.len() as int;
    let ci = (c + 1) % m;
    let ri = (c + 2) % m;
    lemma_neighbours(c, m);
    lemma_neighbours(ci, m);
    assert(ri == (ci + 1) % m) by {
        if c + 1 == m {
            vstd::arithmetic::div_mod::lemma_mod_add_multiples_vanish(1, m);
            vstd::arithmetic::div_mod::lemma_small_mod(1, m as nat);
        } else if c + 2 == m {
            vstd::arithmetic::div_mod::lemma_mod_self_0(m);
        } else {
            vstd::arithmetic::div_mod::lemma_small_mod((c + 2) as nat, m as nat);
        }
    }
    let rem2 = rem.remove(ci);
    let out2 = out + seq![rem[c], rem[ci], rem[ri]];
    lemma_sums_push(outline, out, rem[c], rem[ci], rem[ri]);
    let q = corners(outline, rem);
    assert(corners(outline, rem2) =~= q.remove(ci));
    lemma_area_remove(q, ci);
    let et = ear_turn(outline, rem, c);
    let o = out.len() as int;
    let pre = res.subrange(0, out2.len() as int);
    assert(pre == out2);
    assert(res[o] == rem[c] && res[o + 1] == rem[ci] && res[o + 2] == rem[ri]) by {
        assert(pre[o] == res[o] && pre[o + 1] == res[o + 1] && pre[o + 2] == res[o + 2]);
        assert(out2[o] == rem[c] && out2[o + 1] == rem[ci] && out2[o + 2] == rem[ri]);
    }
    assert(triangle_turn(outline, out2, o) == et);
    assert(triangle_turn(outline, res, o) == et);
    assert(res.subrange(0, o) =~= out2.subrange(0, o));
    assert(out2.subrange(0, o) =~= out);
    assert(abs(et) == dir * et);
    let a1 = signed_area2(q);
    let a2 = signed_area2(corners(outline, rem2));
    assert(a1 - a2 == -et);
    assert(dir * a2 == dir * a1 + dir * et) by (nonlinear_arith)
        requires
            a1 - a2 == -et,
    ;
    assert forall|k: int| o <= k < res.len() && k % 3 == 0 implies sign(
        #[trigger] triangle_turn(outline, res, k),
    ) == dir by {
        if k < out2.len() {
            assert(k == o);
        }
    }
    assert forall|k: int| o <= k < res.len() implies res[k] < outline.len() by {
        if k < out2.len() {
            assert(pre[k] == res[k]);
            assert(out2[k] < outline.len());
        }
    }
}

proof fn lemma_clip(
    outline: Seq<Point>,
    dir: int,
    rem: Seq<usize>,
    c: int,
    misses: nat,
    out: Seq<usize>,
)
    requires
        dir == 1 || dir == -1,
        rem.len() >= 3,
        0 <= c < rem.len(),
        misses <= rem.len(),
        out.len() % 3 == 0,
        forall|k: int| 0 <= k < rem.len() ==> rem[k] < outline.len(),
        clip(outline, dir, rem, c, misses, out) is Ok,
    ensures
        clip_facts(outline, dir, rem, out, clip(outline, dir, rem, c, misses, out)->Ok_0),
    decreases rem.len(), rem.len() - misses,
{
    let m = rem.len() as int;
    let res = clip(outline, dir, rem, c, misses, out)->Ok_0;
    if m <= 3 {
        assert(res == out + rem);
        assert(res.subrange(0, out.len() as int) =~= out);
        assert(rem =~= seq![rem[0], rem[1], rem[2]]);
        lemma_sums_push(outline, out, rem[0], rem[1], rem[2]);
        lemma_area_triangle(corners(outline, rem));
        let tt = triangle_turn(outline, res, out.len() as int);
        assert(abs(tt) == dir * tt);
    } else if is_ear(outline, rem, c, dir) {
        let ci = (c + 1) % m;
        lemma_neighbours(c, m);
        let nc = if ci == 0 {
            c - 1
        } else {
            c
        };
        let rem2 = rem.remove(ci);
        assert forall|k: int| 0 <= k < rem2.len() implies rem2[k] < outline.len() by {
            if k < ci {
                assert(rem2[k] == rem[k]);
            } else {
                assert(rem2[k] == rem[k + 1]);
            }
        }
        lemma_clip(outline, dir, rem2, nc, 0, out + seq![rem[c], rem[ci], rem[(c + 2) % m]]);
        lemma_ear_step(outline, dir, rem, c, out, res);
    } else {
        lemma_clip(outline, dir, rem, (c + 1) % m, misses + 1, out);
    }
}

/// A triangulation names `n - 2` triangles for an outline of `n` points,
/// each by three indexes into the outline.
pub proof fn lemma_triangle_count(outline: Seq<Point>)
    requires
        outline.len() <= usize::MAX,
        triangulation(outline) is Ok,
    ensures
        triangulation(outline)->Ok_0.len() == 3 * (outline.len() - 2),
        forall|k: int|
            0 <= k < triangulation(outline)->Ok_0.len() ==> triangulation(outline)->Ok_0[k]
                < outline.len(),
{
    lemma_triangulation(outline);
}

/// A triangulation covers the outline's area exactly: the unsigned areas of
/// its triangles add up to the shoelace area of the outline, and every
/// triangle turns with the outline, so none is degenerate.
pub proof fn lemma_area_conservation(outline: Seq<Point>)
    requires
        outline.len() <= usize::MAX,
        triangulation(outline) is Ok,
    ensures
        area_sum(outline, triangulation(outline)->Ok_0) == abs(signed_area2(outline)),
        turn_sum(outline, triangulation(outline)->Ok_0) == -signed_area2(outline),
        forall|k: int|
            0 <= k < triangulation(outline)->Ok_0.len() && k % 3 == 0 ==> sign(
                #[trigger] triangle_turn(outline, triangulation(outline)->Ok_0, k),
            ) == winding(outline),
        winding(outline) != 0,
{
    lemma_triangulation(outline);
}

/// Reversing an outline of distinct points flips its winding direction and
/// negates its signed area; where both orders triangulate, their triangles
/// cover the same area, whichever triangles each order picks.
pub proof fn lemma_reversal(outline: Seq<Point>)
    requires
        3 <= outline.len() <= usize::MAX,
        distinct_points(outline),
    ensures
        winding(outline.reverse()) == -winding(outline),
        signed_area2(outline.reverse()) == -signed_area2(outline),
        triangulation(outline) is Ok && triangulation(outline.reverse()) is Ok ==> area_sum(
            outline,
            triangulation(outline)->Ok_0,
        ) == area_sum(outline.reverse(), triangulation(outline.reverse())->Ok_0),
{
    lemma_winding_reverse(outline);
    lemma_area_reverse(outline);
    if triangulation(outline) is Ok && triangulation(outline.reverse()) is Ok {
        lemma_triangulation(outline);
        lemma_triangulation(outline.reverse());
    }
}

proof fn lemma_triangulation(outline: Seq<Point>)
    requires
        outline.len() <= usize::MAX,
        triangulation(outline) is Ok,
    ensures
        ({
            let res = triangulation(outline)->Ok_0;
            &&& res.len() == 3 * (outline.len() - 2)
            &&& forall|k: int| 0 <= k < res.len() ==> res[k] < outline.len()
            &&& area_sum(outline, res) == abs(signed_area2(outline))
            &&& turn_sum(outline, res) == -signed_area2(outline)
            &&& forall|k: int|
                0 <= k < res.len() && k % 3 == 0 ==> sign(#[trigger] triangle_turn(outline, res, k))
                    == winding(outline)
            &&& winding(outline) != 0
        }),
{
    let n = outline.len();
    let dir = winding(outline);
    let all = all_indexes(n);
    assert(corners(outline, all) =~= outline);
    lemma_clip(outline, dir, all, 0, 0, Seq::empty());
    let res = triangulation(outline)->Ok_0;
    lemma_area_sum_nonnegative(outline, res);
    assert(turn_sum(outline, Seq::<usize>::empty()) == 0);
    assert(area_sum(outline, Seq::<usize>::empty()) == 0);
}

/// The solid fill of an outline: its triangulation, computed once when the
/// fill is made, and its colour.
#[derive(Clone, Debug)]
pub struct Fill {
    indexes: Vec<usize>,
    color: Color,
}

fn ear_blocked(outline: &[Point], rem: &Vec<usize>, c: usize, ci: usize, ri: usize) -> (r: bool)
    requires
        rem@.len() >= 3,
        c < rem@.len(),
        ci == (c + 1) % (rem@.len() as int),
        ri == (c + 2) % (rem@.len() as int),
        forall|k: int| 0 <= k < rem@.len() ==> rem@[k] < outline@.len(),
    ensures
        r == blocked(outline@, rem@, c as int),
{
    let m = rem.len();
    let left = outline[rem[c]];
    let center = outline[rem[ci]];
    let right = outline[rem[ri]];
    let mut k: usize = 0;
    while k < m
        invariant
            k <= m,
            m == rem@.len(),
            left == outline@[rem@[c as int] as int],
            center == outline@[rem@[ci as int] as int],
            right == outline@[rem@[ri as int] as int],
            c < m,
            ci == (c + 1) % (m as int),
            ri == (c + 2) % (m as int),
            forall|j: int| 0 <= j < m ==> rem@[j] < outline@.len(),
            forall|j: int|
                0 <= j < k && j != c && j != ci && j != ri ==> !#[trigger] inside(
                    at(outline@, rem@, j),
                    at(outline@, rem@, c as int),
                    at(outline@, rem@, ci as int),
                    at(outline@, rem@, ri as int),
                ),
        decreases m - k,
    {
        if k != c && k != ci && k != ri {
            if point_in_triangle(outline[rem[k]], left, center, right) {
                assert(inside(
                    at(outline@, rem@, k as int),
                    at(outline@, rem@, c as int),
                    at(outline@, rem@, ci as int),
                    at(outline@, rem@, ri as int),
                ));
                return true;
            }
        }
        k = k + 1;
    }
    false
}

impl Fill {
    /// The triangles: indexes into the outline, three per triangle.
    pub closed spec fn triangles(&self) -> Seq<usize> {
        self.indexes@
    }

    pub closed spec fn fill_color(&self) -> Color {
        self.color
    }

    /// Triangulates `outline` by ear clipping and keeps the result with the
    /// fill colour.
    ///
    /// The outline is open: its last point is joined back to its first, and
    /// is not repeated. The triangle indexes point into the outline as given.
    pub fn new(color: Color, outline: &[Point]) -> (r: Result<Fill, FillError>)
        ensures
            match r {
                Ok(f) => triangulation(outline@) == Ok::<Seq<usize>, FillError>(f.triangles())
                    && f.fill_color() == color && f.triangles().len() == 3 * (outline@.len() - 2)
                    && area_sum(outline@, f.triangles()) == abs(signed_area2(outline@)),
                Err(e) => triangulation(outline@) == Err::<Seq<usize>, FillError>(e),
            },
    {
        let n = outline.len();
        if n < 3 {
            return Err(FillError::InsufficientPoints);
        }
        let dir = winding_direction(outline);
        if dir == 0 {
            return Err(FillError::DegenerateWinding);
        }
        let ghost d = dir as int;
        let mut remaining: Vec<usize> = Vec::new();
        let mut k: usize = 0;
        while k < n
            invariant
                k <= n,
                n == outline@.len(),
                remaining@ == all_indexes(k as nat),
            decreases n - k,
        {
            remaining.push(k);
            k = k + 1;
            assert(remaining@ =~= all_indexes(k as nat));
        }
        assert(triangulation(outline@) == clip(
            outline@,
            d,
            all_indexes(n as nat),
            0,
            0,
            Seq::empty(),
        ));
        let mut indexes: Vec<usize> = Vec::new();
        let mut c: usize = 0;
        let mut misses: usize = 0;
        while remaining.len() > 3
            invariant
                n == outline@.len(),
                d == winding(outline@),
                d == dir as int,
                d != 0,
                3 <= remaining@.len(),
                c < remaining@.len(),
                misses <= remaining@.len(),
                forall|j: int| 0 <= j < remaining@.len() ==> remaining@[j] < n,
                clip(outline@, d, remaining@, c as int, misses as nat, indexes@) == triangulation(
                    outline@,
                ),
            decreases remaining@.len(), remaining@.len() - misses,
        {
            let m = remaining.len();
            if misses >= m {
                return Err(FillError::TriangulationFailed);
            }
            let ci = if c + 1 == m {
                0
            } else {
                c + 1
            };
            let ri = if ci + 1 == m {
                0
            } else {
                ci + 1
            };
            assert(ci == (c + 1) % (m as int) && ri == (c + 2) % (m as int)) by {
                if c + 1 == m {
                    vstd::arithmetic::div_mod::lemma_mod_self_0(m as int);
                    vstd::arithmetic::div_mod::lemma_small_mod(1, m as nat);
                    vstd::arithmetic::div_mod::lemma_mod_add_multiples_vanish(1, m as int);
                } else if c + 2 == m {
                    vstd::arithmetic::div_mod::lemma_small_mod((c + 1) as nat, m as nat);
                    vstd::arithmetic::div_mod::lemma_mod_self_0(m as int);
                } else {
                    vstd::arithmetic::div_mod::lemma_small_mod((c + 1) as nat, m as nat);
                    vstd::arithmetic::div_mod::lemma_small_mod((c + 2) as nat, m as nat);
                }
            }
            let left_i = remaining[c];
            let center_i = remaining[ci];
            let right_i = remaining[ri];
            let cross = cross_y(outline[center_i], outline[left_i], outline[right_i]);
            let turns_with = (cross > 0 && dir == 1) || (cross < 0 && dir == -1);
            assert(turns_with == (sign(ear_turn(outline@, remaining@, c as int)) == d));
            if turns_with && !ear_blocked(outline, &remaining, c, ci, ri) {
                let ghost before = indexes@;
                indexes.push(left_i);
                indexes.push(center_i);
                indexes.push(right_i);
                assert(indexes@ =~= before + seq![left_i, center_i, right_i]);
                remaining.remove(ci);
                if ci == 0 {
                    c = c - 1;
                }
                misses = 0;
            } else {
                c = ci;
                misses = misses + 1;
            }
        }
        let a = remaining[0];
        let b = remaining[1];
        let e = remaining[2];
        let cross = cross_y(outline[b], outline[a], outline[e]);
        if !((cross > 0 && dir == 1) || (cross < 0 && dir == -1)) {
            return Err(FillError::TriangulationFailed);
        }
        let ghost before = indexes@;
        indexes.push(a);
        indexes.push(b);
        indexes.push(e);
        assert(indexes@ =~= before + remaining@);
        proof {
            lemma_triangle_count(outline@);
            lemma_area_conservation(outline@);
        }
        Ok(Fill { indexes, color })
    }

    /// The cached triangulation: indexes into the outline, three per triangle.
    pub fn indexes(&self) -> (r: &Vec<usize>)
        ensures
            r@ == self.triangles(),
    {
        &self.indexes
    }

    pub fn color(&self) -> (r: Color)
        ensures
            r == self.fill_color(),
    {
        self.color
    }
}

/// The outline points that the triangle indexes `t` name, in order.
pub open spec fn triangle_points(outline: Seq<Point>, t: Seq<usize>) -> Seq<Point> {
    t.map_values(|i: usize| outline[i as int])
}

fn copy_points(v: &Vec<Point>) -> (r: Vec<Point>)
    ensures
        r@ == v@,
{
    let mut r: Vec<Point> = Vec::new();
    let mut i: usize = 0;
    while i < v.len()
        invariant
            i <= v@.len(),
            r@ == v@.subrange(0, i as int),
        decreases v@.len() - i,
    {
        r.push(v[i]);
        i = i + 1;
        assert(r@ =~= v@.subrange(0, i as int));
    }
    assert(v@.subrange(0, i as int) =~= v@);
    r
}

/// A filled polygon that keeps its triangle vertices once they are computed.
pub struct Polygon {
    points: Vec<Point>,
    color: Color,
    triangle_cache: Option<Vec<Point>>,
}

impl Polygon {
    pub closed spec fn outline(&self) -> Seq<Point> {
        self.points@
    }

    pub closed spec fn polygon_color(&self) -> Color {
        self.color
    }

    pub closed spec fn is_cached(&self) -> bool {
        self.triangle_cache is Some
    }

    /// A cached list of triangle vertices is the triangulation of the outline.
    pub closed spec fn wf(&self) -> bool {
        match self.triangle_cache {
            Some(c) => triangulation(self.points@) is Ok && c@ == triangle_points(
                self.points@,
                triangulation(self.points@)->Ok_0,
            ),
            None => true,
        }
    }

    pub fn new(points: Vec<Point>, color: Color) -> (p: Polygon)
        ensures
            p.wf(),
            p.outline() == points@,
            p.polygon_color() == color,
            !p.is_cached(),
    {
        Polygon { points, color, triangle_cache: None }
    }

    /// The triangle vertices of the outline, three per triangle. The first
    /// successful call computes and keeps them; later calls hand back the
    /// kept copy, which is the same list.
    pub fn triangulate(&mut self) -> (r: Result<Vec<Point>, FillError>)
        requires
            old(self).wf(),
        ensures
            final(self).wf(),
            final(self).outline() == old(self).outline(),
            final(self).polygon_color() == old(self).polygon_color(),
            match triangulation(old(self).outline()) {
                Ok(t) => r matches Ok(v) && v@ == triangle_points(old(self).outline(), t)
                    && final(self).is_cached(),
                Err(e) => r == Err::<Vec<Point>, FillError>(e),
            },
    {
        match &self.triangle_cache {
            Some(cached) => {
                return Ok(copy_points(cached));
            },
            None => {},
        }
        match Fill::new(self.color, self.points.as_slice()) {
            Ok(fill) => {
                let idx = fill.indexes();
                let n = self.points.len();
                proof {
                    lemma_triangle_count(self.points@);
                }
                let mut vertices: Vec<Point> = Vec::new();
                let mut j: usize = 0;
                while j < idx.len()
                    invariant
                        j <= idx@.len(),
                        n == self.points@.len(),
                        triangulation(self.points@) == Ok::<Seq<usize>, FillError>(idx@),
                        forall|k: int| 0 <= k < idx@.len() ==> idx@[k] < n,
                        vertices@ == triangle_points(self.points@, idx@.subrange(0, j as int)),
                    decreases idx@.len() - j,
                {
                    vertices.push(self.points[idx[j]]);
                    j = j + 1;
                    assert(vertices@ =~= triangle_points(self.points@, idx@.subrange(0, j as int)));
                }
                assert(idx@.subrange(0, j as int) =~= idx@);
                self.triangle_cache = Some(copy_points(&vertices));
                Ok(vertices)
            },
            Err(e) => Err(e),
        }
    }
}

} // verus!
