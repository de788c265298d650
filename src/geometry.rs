use vstd::prelude::*;

verus! {

/// A point of the scene in fixed-point integer units.
///
/// Map geometry lies on a plane of constant `y`: the drawing plane is spanned
/// by `x` and `z`, and every orientation below is the `y` component of a cross
/// product taken in that plane.
#[derive(Clone, Copy, Debug, PartialEq, Eq, Structural)]
pub struct Point {
    pub x: i32,
    pub y: i32,
    pub z: i32,
}

impl Point {
    pub fn new(x: i32, y: i32, z: i32) -> (r: Point)
        ensures
            r.x == x,
            r.y == y,
            r.z == z,
    {
        Point { x, y, z }
    }

    /// The point's coordinates in the drawing plane, as `(x, z)`.
    pub open spec fn plane(self) -> (int, int) {
        (self.x as int, self.z as int)
    }
}

/// The `y` component of `u × v` for plane vectors `u` and `v` given as `(x, z)`.
pub open spec fn wedge(u: (int, int), v: (int, int)) -> int {
    u.1 * v.0 - u.0 * v.1
}

/// The `y` component of `(a - o) × (b - o)`, twice the signed area of the
/// triangle `o, a, b` seen from the `y` axis.
pub open spec fn turn(o: (int, int), a: (int, int), b: (int, int)) -> int {
    wedge((a.0 - o.0, a.1 - o.1), (b.0 - o.0, b.1 - o.1))
}

pub open spec fn sign(v: int) -> int {
    if v > 0 {
        1
    } else if v < 0 {
        -1
    } else {
        0
    }
}

pub open spec fn abs(v: int) -> int {
    if v < 0 {
        -v
    } else {
        v
    }
}

/// Barycentric containment in exact arithmetic: `p` lies in the triangle
/// `a, b, c`, boundary included, when the triangle is not degenerate and the
/// three sub-triangles that `p` cuts it into add up to the whole.
pub open spec fn inside(p: (int, int), a: (int, int), b: (int, int), c: (int, int)) -> bool {
    let whole = abs(turn(a, b, c));
    let alpha = abs(turn(p, b, c));
    let beta = abs(turn(p, c, a));
    let gamma = abs(turn(p, b, a));
    &&& whole != 0
    &&& alpha <= whole
    &&& beta <= whole
    &&& gamma <= whole
    &&& alpha + beta + gamma == whole
}

proof fn lemma_mul_bound(a: int, b: int)
    requires
        -0x1_0000_0000 <= a <= 0x1_0000_0000,
        -0x1_0000_0000 <= b <= 0x1_0000_0000,
    ensures
        -0x1_0000_0000_0000_0000 <= a * b <= 0x1_0000_0000_0000_0000,
{
    assert(-0x1_0000_0000_0000_0000 <= a * b <= 0x1_0000_0000_0000_0000) by (nonlinear_arith)
        requires
            -0x1_0000_0000 <= a <= 0x1_0000_0000,
            -0x1_0000_0000 <= b <= 0x1_0000_0000,
    ;
}

/// The `y` component of `(a - o) × (b - o)`.
pub fn cross_y(o: Point, a: Point, b: Point) -> (r: i128)
    ensures
        r == turn(o.plane(), a.plane(), b.plane()),
        -0x2_0000_0000_0000_0000 <= r <= 0x2_0000_0000_0000_0000,
{
    let ux = a.x as i128 - o.x as i128;
    let uz = a.z as i128 - o.z as i128;
    let vx = b.x as i128 - o.x as i128;
    let vz = b.z as i128 - o.z as i128;
    proof {
        lemma_mul_bound(uz as int, vx as int);
        lemma_mul_bound(ux as int, vz as int);
    }
    uz * vx - ux * vz
}

fn abs_i128(v: i128) -> (r: i128)
    requires
        -0x2_0000_0000_0000_0000 <= v <= 0x2_0000_0000_0000_0000,
    ensures
        r == abs(v as int),
{
    if v < 0 {
        -v
    } else {
        v
    }
}

/// Whether `p` lies in the triangle `a, b, c` (boundary included), judged in
/// the drawing plane. A degenerate triangle contains nothing.
pub fn point_in_triangle(p: Point, a: Point, b: Point, c: Point) -> (r: bool)
    ensures
        r == inside(p.plane(), a.plane(), b.plane(), c.plane()),
{
    let whole = abs_i128(cross_y(a, b, c));
    let alpha = abs_i128(cross_y(p, b, c));
    let beta = abs_i128(cross_y(p, c, a));
    let gamma = abs_i128(cross_y(p, b, a));
    whole != 0 && alpha <= whole && beta <= whole && gamma <= whole && alpha + beta + gamma
        == whole
}

/// The three sub-triangles that `p` cuts a triangle into add up to it, and
/// their signed areas are `p`'s barycentric weights.
proof fn lemma_spread(s: int, u: int, p: int)
    ensures
        s * (u + p) == s * u + s * p,
{
    assert(s * (u + p) == s * u + s * p) by (nonlinear_arith);
}

proof fn lemma_barycentric(p: (int, int), a: (int, int), b: (int, int), c: (int, int))
    ensures
        turn(p, b, c) + turn(p, c, a) + turn(p, a, b) == turn(a, b, c),
        turn(a, b, c) * p.0 == turn(p, b, c) * a.0 + turn(p, c, a) * b.0 + turn(p, a, b) * c.0,
        turn(a, b, c) * p.1 == turn(p, b, c) * a.1 + turn(p, c, a) * b.1 + turn(p, a, b) * c.1,
        turn(p, b, a) == -turn(p, a, b),
{
    let (u0, u1) = (a.0 - p.0, a.1 - p.1);
    let (v0, v1) = (b.0 - p.0, b.1 - p.1);
    let (w0, w1) = (c.0 - p.0, c.1 - p.1);
    let s1 = v1 * w0 - v0 * w1;
    let s2 = w1 * u0 - w0 * u1;
    let s3 = u1 * v0 - u0 * v1;
    assert(turn(p, b, c) == s1 && turn(p, c, a) == s2 && turn(p, a, b) == s3);
    assert(turn(a, b, c) == (v1 - u1) * (w0 - u0) - (v0 - u0) * (w1 - u1));
    assert((v1 - u1) * (w0 - u0) - (v0 - u0) * (w1 - u1) == (v1 * w0 - v0 * w1) + (w1 * u0 - w0
        * u1) + (u1 * v0 - u0 * v1)) by (nonlinear_arith);
    assert((v1 * w0 - v0 * w1) * u0 + (w1 * u0 - w0 * u1) * v0 + (u1 * v0 - u0 * v1) * w0 == 0)
        by (nonlinear_arith);
    assert((v1 * w0 - v0 * w1) * u1 + (w1 * u0 - w0 * u1) * v1 + (u1 * v0 - u0 * v1) * w1 == 0)
        by (nonlinear_arith);
    let t = turn(a, b, c);
    let (p0, p1) = (p.0, p.1);
    assert(t * p0 == s1 * p0 + s2 * p0 + s3 * p0) by (nonlinear_arith)
        requires
            t == s1 + s2 + s3,
    ;
    assert(t * p1 == s1 * p1 + s2 * p1 + s3 * p1) by (nonlinear_arith)
        requires
            t == s1 + s2 + s3,
    ;
    lemma_spread(s1, u0, p0);
    lemma_spread(s2, v0, p0);
    lemma_spread(s3, w0, p0);
    lemma_spread(s1, u1, p1);
    lemma_spread(s2, v1, p1);
    lemma_spread(s3, w1, p1);
    assert(v1 * u0 - v0 * u1 == -(u1 * v0 - u0 * v1)) by (nonlinear_arith);
}

/// A convex combination of three coordinates does not exceed all of them.
proof fn lemma_beyond_corners(t: int, s1: int, s2: int, s3: int, x1: int, x2: int, x3: int, px: int)
    requires
        t != 0,
        s1 + s2 + s3 == t,
        abs(s1) + abs(s2) + abs(s3) == abs(t),
        t * px == s1 * x1 + s2 * x2 + s3 * x3,
    ensures
        px <= x1 || px <= x2 || px <= x3,
{
    if px <= x1 || px <= x2 || px <= x3 {
    } else if t > 0 {
        assert(s1 >= 0 && s2 >= 0 && s3 >= 0);
        assert(s1 * x1 + s2 * x2 + s3 * x3 < t * px) by (nonlinear_arith)
            requires
                t > 0,
                s1 >= 0,
                s2 >= 0,
                s3 >= 0,
                s1 + s2 + s3 == t,
                px > x1,
                px > x2,
                px > x3,
        ;
    } else {
        assert(s1 <= 0 && s2 <= 0 && s3 <= 0);
        assert(s1 * x1 + s2 * x2 + s3 * x3 > t * px) by (nonlinear_arith)
            requires
                t < 0,
                s1 <= 0,
                s2 <= 0,
                s3 <= 0,
                s1 + s2 + s3 == t,
                px > x1,
                px > x2,
                px > x3,
        ;
    }
}

/// A point strictly outside the bounding box of a triangle is not in it.
pub proof fn lemma_outside_bounding_box(p: (int, int), a: (int, int), b: (int, int), c: (int, int))
    requires
        (p.0 > a.0 && p.0 > b.0 && p.0 > c.0) || (p.0 < a.0 && p.0 < b.0 && p.0 < c.0) || (p.1
            > a.1 && p.1 > b.1 && p.1 > c.1) || (p.1 < a.1 && p.1 < b.1 && p.1 < c.1),
    ensures
        !inside(p, a, b, c),
{
    if inside(p, a, b, c) {
        lemma_barycentric(p, a, b, c);
        let t = turn(a, b, c);
        let (s1, s2, s3) = (turn(p, b, c), turn(p, c, a), turn(p, a, b));
        if p.0 > a.0 && p.0 > b.0 && p.0 > c.0 {
            lemma_beyond_corners(t, s1, s2, s3, a.0, b.0, c.0, p.0);
        } else if p.0 < a.0 && p.0 < b.0 && p.0 < c.0 {
            assert(t * -p.0 == s1 * -a.0 + s2 * -b.0 + s3 * -c.0) by (nonlinear_arith)
                requires
                    t * p.0 == s1 * a.0 + s2 * b.0 + s3 * c.0,
            ;
            lemma_beyond_corners(t, s1, s2, s3, -a.0, -b.0, -c.0, -p.0);
        } else if p.1 > a.1 && p.1 > b.1 && p.1 > c.1 {
            lemma_beyond_corners(t, s1, s2, s3, a.1, b.1, c.1, p.1);
        } else {
            assert(t * -p.1 == s1 * -a.1 + s2 * -b.1 + s3 * -c.1) by (nonlinear_arith)
                requires
                    t * p.1 == s1 * a.1 + s2 * b.1 + s3 * c.1,
            ;
            lemma_beyond_corners(t, s1, s2, s3, -a.1, -b.1, -c.1, -p.1);
        }
    }
}

/// The centroid of a non-degenerate triangle is in it. In integer
/// coordinates the centroid of `a, b, c` is `a + b + c` once the triangle is
/// scaled by three.
pub proof fn lemma_centroid_inside(a: (int, int), b: (int, int), c: (int, int))
    requires
        turn(a, b, c) != 0,
    ensures
        inside(
            (a.0 + b.0 + c.0, a.1 + b.1 + c.1),
            (3 * a.0, 3 * a.1),
            (3 * b.0, 3 * b.1),
            (3 * c.0, 3 * c.1),
        ),
{
    let (d0, d1) = (b.0 - a.0, b.1 - a.1);
    let (e0, e1) = (c.0 - a.0, c.1 - a.1);
    let t = d1 * e0 - d0 * e1;
    assert(turn(a, b, c) == t);
    assert((3 * d1) * (3 * e0) - (3 * d0) * (3 * e1) == 9 * t) by (nonlinear_arith)
        requires
            t == d1 * e0 - d0 * e1,
    ;
    assert((2 * d1 - e1) * (2 * e0 - d0) - (2 * d0 - e0) * (2 * e1 - d1) == 3 * t) by (
    nonlinear_arith)
        requires
            t == d1 * e0 - d0 * e1,
    ;
    assert((2 * e1 - d1) * (-d0 - e0) - (2 * e0 - d0) * (-d1 - e1) == 3 * t) by (nonlinear_arith)
        requires
            t == d1 * e0 - d0 * e1,
    ;
    assert((2 * d1 - e1) * (-d0 - e0) - (2 * d0 - e0) * (-d1 - e1) == -3 * t) by (nonlinear_arith)
        requires
            t == d1 * e0 - d0 * e1,
    ;
}

} // verus!
