use vstd::prelude::*;

use crate::geometry::{cross_y, sign, turn, wedge, Point};

verus! {

/// `a` comes before `b` in the search for the winding pivot: smaller `z`,
/// then smaller `x`.
pub open spec fn lower(a: Point, b: Point) -> bool {
    a.z < b.z || (a.z == b.z && a.x < b.x)
}

/// Position of the first lowest point among the first `k` points of `s`.
pub open spec fn pivot_upto(s: Seq<Point>, k: nat) -> nat
    decreases k,
{
    if k <= 1 {
        0
    } else {
        let p = pivot_upto(s, (k - 1) as nat);
        if lower(s[k - 1], s[p as int]) {
            (k - 1) as nat
        } else {
            p
        }
    }
}

/// Position of the pivot of an outline: its first lowest point.
pub open spec fn pivot(s: Seq<Point>) -> int {
    pivot_upto(s, s.len()) as int
}

/// Winding direction of a closed outline: the sign of the turn that the
/// outline makes at its pivot, taken between the pivot's two neighbours.
/// Zero when the pivot and its neighbours are collinear.
pub open spec fn winding(s: Seq<Point>) -> int {
    let n = s.len() as int;
    let p = pivot(s);
    sign(turn(s[p].plane(), s[(p + n - 1) % n].plane(), s[(p + 1) % n].plane()))
}

/// Sum of the wedges of consecutive points along an open chain.
pub open spec fn chain(q: Seq<Point>) -> int
    decreases q.len(),
{
    if q.len() < 2 {
        0
    } else {
        wedge(q[0].plane(), q[1].plane()) + chain(q.drop_first())
    }
}

/// Twice the signed area of the closed polygon through `q` (shoelace
/// formula), with the sign convention of [`turn`].
pub open spec fn signed_area2(q: Seq<Point>) -> int {
    if q.len() < 2 {
        0
    } else {
        chain(q) + wedge(q.last().plane(), q[0].plane())
    }
}

pub proof fn lemma_pivot_bound(s: Seq<Point>, k: nat)
    requires
        k >= 1,
    ensures
        pivot_upto(s, k) < k,
    decreases k,
{
    if k > 1 {
        lemma_pivot_bound(s, (k - 1) as nat);
    }
}

pub proof fn lemma_wedge_antisymmetric(u: (int, int), v: (int, int))
    ensures
        wedge(u, v) == -wedge(v, u),
{
    assert(u.1 * v.0 - u.0 * v.1 == -(v.1 * u.0 - v.0 * u.1)) by (nonlinear_arith);
}

/// A turn is the closed wedge sum of its triangle.
pub proof fn lemma_turn_wedges(o: (int, int), a: (int, int), b: (int, int))
    ensures
        turn(o, a, b) == wedge(a, b) + wedge(o, a) + wedge(b, o),
{
    let (a0, a1, b0, b1, o0, o1) = (a.0, a.1, b.0, b.1, o.0, o.1);
    assert((a1 - o1) * (b0 - o0) == a1 * b0 - a1 * o0 - o1 * b0 + o1 * o0) by (nonlinear_arith);
    assert((a0 - o0) * (b1 - o1) == a0 * b1 - a0 * o1 - o0 * b1 + o0 * o1) by (nonlinear_arith);
    assert(o1 * a0 == a0 * o1 && b1 * o0 == o0 * b1 && b0 * o1 == o1 * b0 && a1 * o0 == o0 * a1
        && o1 * o0 == o0 * o1) by (nonlinear_arith);
}

pub proof fn lemma_chain_push(q: Seq<Point>, x: Point)
    requires
        q.len() >= 1,
    ensures
        chain(q.push(x)) == chain(q) + wedge(q.last().plane(), x.plane()),
    decreases q.len(),
{
    if q.len() == 1 {
        assert(q.push(x).drop_first() =~= seq![x]);
        assert(chain(seq![x]) == 0);
    } else {
        assert(q.push(x).drop_first() =~= q.drop_first().push(x));
        lemma_chain_push(q.drop_first(), x);
    }
}

pub proof fn lemma_chain_remove(q: Seq<Point>, j: int)
    requires
        0 < j < q.len() - 1,
    ensures
        chain(q) - chain(q.remove(j)) == wedge(q[j - 1].plane(), q[j].plane()) + wedge(
            q[j].plane(),
            q[j + 1].plane(),
        ) - wedge(q[j - 1].plane(), q[j + 1].plane()),
    decreases j,
{
    let d = q.drop_first();
    assert(chain(q) == wedge(q[0].plane(), q[1].plane()) + chain(d));
    if j == 1 {
        assert(q.remove(1).drop_first() =~= d.drop_first());
        assert(d[0] == q[1] && d[1] == q[2]);
        assert(chain(d) == wedge(q[1].plane(), q[2].plane()) + chain(d.drop_first()));
        assert(q.remove(1)[0] == q[0] && q.remove(1)[1] == q[2]);
        assert(chain(q.remove(1)) == wedge(q[0].plane(), q[2].plane()) + chain(
            q.remove(1).drop_first(),
        ));
    } else {
        assert(q.remove(j).drop_first() =~= d.remove(j - 1));
        assert(q.remove(j)[0] == q[0] && q.remove(j)[1] == q[1]);
        assert(chain(q.remove(j)) == wedge(q[0].plane(), q[1].plane()) + chain(d.remove(j - 1)));
        lemma_chain_remove(d, j - 1);
        assert(d[j - 2] == q[j - 1] && d[j - 1] == q[j] && d[j] == q[j + 1]);
    }
}

pub proof fn lemma_neighbours(j: int, m: int)
    requires
        0 <= j < m,
    ensures
        (j + m - 1) % m == if j == 0 {
            m - 1
        } else {
            j - 1
        },
        (j + 1) % m == if j == m - 1 {
            0
        } else {
            j + 1
        },
{
    if j == 0 {
        vstd::arithmetic::div_mod::lemma_small_mod((m - 1) as nat, m as nat);
    } else {
        vstd::arithmetic::div_mod::lemma_mod_add_multiples_vanish(j - 1, m);
        vstd::arithmetic::div_mod::lemma_small_mod((j - 1) as nat, m as nat);
    }
    if j == m - 1 {
        vstd::arithmetic::div_mod::lemma_mod_self_0(m);
    } else {
        vstd::arithmetic::div_mod::lemma_small_mod((j + 1) as nat, m as nat);
    }
}

/// Removing a corner from a closed polygon takes away the signed area of the
/// triangle that the corner makes with its two neighbours.
pub proof fn lemma_area_remove(q: Seq<Point>, j: int)
    requires
        q.len() >= 3,
        0 <= j < q.len(),
    ensures
        signed_area2(q) - signed_area2(q.remove(j)) == -turn(
            q[j].plane(),
            q[(j + q.len() - 1) % (q.len() as int)].plane(),
            q[(j + 1) % (q.len() as int)].plane(),
        ),
{
    let m = q.len() as int;
    lemma_neighbours(j, m);
    let l = q[(j + m - 1) % m].plane();
    let c = q[j].plane();
    let r = q[(j + 1) % m].plane();
    lemma_turn_wedges(c, l, r);
    lemma_wedge_antisymmetric(c, l);
    lemma_wedge_antisymmetric(r, c);
    if j == 0 {
        let d = q.drop_first();
        assert(q.remove(0) =~= d);
        assert(chain(q) == wedge(q[0].plane(), q[1].plane()) + chain(d));
        assert(d.last() == q.last() && d[0] == q[1]);
        assert(signed_area2(d) == chain(d) + wedge(q.last().plane(), q[1].plane()));
        assert(l == q.last().plane());
        lemma_wedge_antisymmetric(r, c);
    } else if j == m - 1 {
        let d = q.drop_last();
        assert(q.remove(j) =~= d);
        assert(q =~= d.push(q.last()));
        lemma_chain_push(d, q.last());
        assert(d.last() == q[m - 2] && d[0] == q[0]);
        assert(signed_area2(d) == chain(d) + wedge(q[m - 2].plane(), q[0].plane()));
        lemma_wedge_antisymmetric(r, c);
    } else {
        lemma_chain_remove(q, j);
        assert(q.remove(j).last() == q.last() && q.remove(j)[0] == q[0]);
        lemma_wedge_antisymmetric(r, c);
        lemma_wedge_antisymmetric(l, r);
    }
}

/// The signed area of a triangle given as a closed polygon.
pub proof fn lemma_area_triangle(q: Seq<Point>)
    requires
        q.len() == 3,
    ensures
        signed_area2(q) == -turn(q[1].plane(), q[0].plane(), q[2].plane()),
{
    assert(q.drop_first().drop_first() =~= seq![q[2]]);
    assert(chain(q.drop_first().drop_first()) == 0);
    assert(chain(q.drop_first()) == wedge(q[1].plane(), q[2].plane()));
    lemma_turn_wedges(q[1].plane(), q[0].plane(), q[2].plane());
    lemma_wedge_antisymmetric(q[0].plane(), q[2].plane());
    lemma_wedge_antisymmetric(q[1].plane(), q[0].plane());
    lemma_wedge_antisymmetric(q[2].plane(), q[1].plane());
}

proof fn lemma_reverse_index(q: Seq<Point>, i: int)
    requires
        0 <= i < q.len(),
    ensures
        q.reverse().len() == q.len(),
        q.reverse()[i] == q[q.len() - 1 - i],
{
}

proof fn lemma_chain_reverse(q: Seq<Point>)
    ensures
        chain(q.reverse()) == -chain(q),
    decreases q.len(),
{
    if q.len() >= 2 {
        let d = q.drop_first();
        assert(q.reverse() =~= d.reverse().push(q[0]));
        lemma_chain_reverse(d);
        lemma_reverse_index(d, d.len() - 1);
        lemma_chain_push(d.reverse(), q[0]);
        lemma_wedge_antisymmetric(q[1].plane(), q[0].plane());
    } else {
        assert(q.reverse().len() == q.len());
    }
}

/// Reversing a polygon's points negates its signed area.
pub proof fn lemma_area_reverse(q: Seq<Point>)
    ensures
        signed_area2(q.reverse()) == -signed_area2(q),
{
    lemma_chain_reverse(q);
    if q.len() >= 2 {
        lemma_reverse_index(q, 0);
        lemma_reverse_index(q, q.len() - 1);
        lemma_wedge_antisymmetric(q[0].plane(), q.last().plane());
    }
}

pub open spec fn distinct_points(s: Seq<Point>) -> bool {
    forall|i: int, j: int| 0 <= i < s.len() && 0 <= j < s.len() && i != j ==> s[i].plane() != s[j].plane()
}

proof fn lemma_pivot_lowest(s: Seq<Point>, k: nat)
    requires
        1 <= k <= s.len(),
    ensures
        forall|j: int| 0 <= j < k ==> !lower(s[j], s[pivot_upto(s, k) as int]),
    decreases k,
{
    lemma_pivot_bound(s, k);
    if k > 1 {
        lemma_pivot_lowest(s, (k - 1) as nat);
        lemma_pivot_bound(s, (k - 1) as nat);
        let p0 = pivot_upto(s, (k - 1) as nat) as int;
        let p = pivot_upto(s, k) as int;
        assert forall|j: int| 0 <= j < k implies !lower(s[j], s[p]) by {
            if j < k - 1 {
                assert(!lower(s[j], s[p0]));
            }
        }
    }
}

/// Under distinct points the pivot is the one point below all others.
proof fn lemma_pivot_unique(s: Seq<Point>, q: int)
    requires
        s.len() >= 1,
        distinct_points(s),
        0 <= q < s.len(),
        forall|j: int| 0 <= j < s.len() && j != q ==> lower(s[q], s[j]),
    ensures
        pivot(s) == q,
{
    lemma_pivot_bound(s, s.len());
    lemma_pivot_lowest(s, s.len());
    let p = pivot(s);
    if p != q {
        assert(lower(s[q], s[p]));
        assert(!lower(s[q], s[p]));
    }
}

proof fn lemma_pivot_below_all(s: Seq<Point>)
    requires
        s.len() >= 1,
        distinct_points(s),
    ensures
        0 <= pivot(s) < s.len(),
        forall|j: int| 0 <= j < s.len() && j != pivot(s) ==> lower(s[pivot(s)], s[j]),
{
    lemma_pivot_bound(s, s.len());
    lemma_pivot_lowest(s, s.len());
    let p = pivot(s);
    assert forall|j: int| 0 <= j < s.len() && j != p implies lower(s[p], s[j]) by {
        assert(s[j].plane() != s[p].plane());
        assert(!lower(s[j], s[p]));
    }
}

/// Reversing an outline of distinct points flips its winding direction.
pub proof fn lemma_winding_reverse(s: Seq<Point>)
    requires
        s.len() >= 3,
        distinct_points(s),
    ensures
        winding(s.reverse()) == -winding(s),
{
    let m = s.len() as int;
    let r = s.reverse();
    assert(r.len() == m);
    lemma_pivot_below_all(s);
    let p = pivot(s);
    let q = m - 1 - p;
    assert(distinct_points(r)) by {
        assert forall|i: int, j: int| 0 <= i < m && 0 <= j < m && i != j implies r[i].plane()
            != r[j].plane() by {
            lemma_reverse_index(s, i);
            lemma_reverse_index(s, j);
        }
    }
    assert forall|j: int| 0 <= j < m && j != q implies lower(r[q], r[j]) by {
        lemma_reverse_index(s, q);
        lemma_reverse_index(s, j);
    }
    lemma_pivot_unique(r, q);
    lemma_neighbours(p, m);
    lemma_neighbours(q, m);
    lemma_reverse_index(s, q);
    lemma_reverse_index(s, (q + m - 1) % m);
    lemma_reverse_index(s, (q + 1) % m);
    let o = s[p].plane();
    let a = s[(p + m - 1) % m].plane();
    let b = s[(p + 1) % m].plane();
    assert(r[(q + m - 1) % m].plane() == b);
    assert(r[(q + 1) % m].plane() == a);
    lemma_wedge_antisymmetric((a.0 - o.0, a.1 - o.1), (b.0 - o.0, b.1 - o.1));
}

fn lower_than(a: Point, b: Point) -> (r: bool)
    ensures
        r == lower(a, b),
{
    a.z < b.z || (a.z == b.z && a.x < b.x)
}

/// Position of the outline's pivot.
pub fn find_pivot(outline: &[Point]) -> (r: usize)
    requires
        outline@.len() >= 1,
    ensures
        r == pivot(outline@),
        r < outline@.len(),
{
    let n = outline.len();
    let mut best: usize = 0;
    let mut i: usize = 1;
    while i < n
        invariant
            1 <= i <= n,
            n == outline@.len(),
            best == pivot_upto(outline@, i as nat),
            best < i,
        decreases n - i,
    {
        if lower_than(outline[i], outline[best]) {
            best = i;
        }
        i = i + 1;
    }
    best
}

/// Winding direction of a closed outline (see [`winding`]): `1`, `-1`, or
/// `0` when no direction can be read at the pivot.
pub fn winding_direction(outline: &[Point]) -> (r: i8)
    requires
        outline@.len() >= 3,
    ensures
        r == winding(outline@),
{
    let n = outline.len();
    let p = find_pivot(outline);
    let before = if p == 0 {
        n - 1
    } else {
        p - 1
    };
    let after = if p + 1 == n {
        0
    } else {
        p + 1
    };
    assert(before == (p + n - 1) % (n as int)) by {
        if p == 0 {
            vstd::arithmetic::div_mod::lemma_small_mod((n - 1) as nat, n as nat);
        } else {
            vstd::arithmetic::div_mod::lemma_mod_add_multiples_vanish((p - 1) as int, n as int);
            vstd::arithmetic::div_mod::lemma_small_mod((p - 1) as nat, n as nat);
        }
    }
    assert(after == (p + 1) % (n as int)) by {
        if p + 1 == n {
            vstd::arithmetic::div_mod::lemma_mod_self_0(n as int);
        } else {
            vstd::arithmetic::div_mod::lemma_small_mod((p + 1) as nat, n as nat);
        }
    }
    let cross = cross_y(outline[p], outline[before], outline[after]);
    if cross > 0 {
        1
    } else if cross < 0 {
        -1
    } else {
        0
    }
}

} // verus!
