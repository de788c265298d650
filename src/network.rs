use vstd::prelude::*;

use crate::osm::{str_eq, Tags, Way};

verus! {

/// `highway` values of roads that routes run along.
pub open spec fn route_value(v: Seq<char>) -> bool {
    v == "trunk"@ || v == "primary"@ || v == "secondary"@ || v == "tertiary"@ || v
        == "unclassified"@ || v == "motorway"@ || v == "residential"@ || v == "service"@ || v
        == "road"@ || v == "living_street"@ || v == "track"@
}

pub open spec fn is_route(t: Map<Seq<char>, Seq<char>>) -> bool {
    t.contains_key("highway"@) && route_value(t["highway"@])
}

/// Ids of the route ways among `ways` that pass through `node`.
pub open spec fn ways_through(ways: Seq<(i64, Way)>, node: i64) -> Set<i64> {
    Set::new(
        |w: i64|
            exists|k: int|
                0 <= k < ways.len() && ways[k].0 == w && is_route(ways[k].1.tags@)
                    && ways[k].1.nodes@.contains(node),
    )
}

/// Whether a way with these tags is a road that routes run along.
pub fn is_route_way(tags: &Tags) -> (r: bool)
    ensures
        r == is_route(tags@),
{
    match tags.get("highway") {
        Some(value) => {
            let v = value.as_str();
            str_eq(v, "trunk") || str_eq(v, "primary") || str_eq(v, "secondary") || str_eq(
                v,
                "tertiary",
            ) || str_eq(v, "unclassified") || str_eq(v, "motorway") || str_eq(v, "residential")
                || str_eq(v, "service") || str_eq(v, "road") || str_eq(v, "living_street")
                || str_eq(v, "track")
        },
        None => false,
    }
}

fn contains_id(v: &Vec<i64>, x: i64) -> (r: bool)
    ensures
        r == v@.contains(x),
{
    let mut i: usize = 0;
    while i < v.len()
        invariant
            i <= v@.len(),
            forall|j: int| 0 <= j < i ==> v@[j] != x,
        decreases v@.len() - i,
    {
        if v[i] == x {
            return true;
        }
        i = i + 1;
    }
    false
}

/// Every `(node, way)` pair of a route way and a node on it.
fn route_pairs(ways: &Vec<(i64, Way)>) -> (r: Vec<(i64, i64)>)
    ensures
        forall|n: i64, w: i64| #[trigger]
            r@.contains((n, w)) <==> ways_through(ways@, n).contains(w),
{
    let mut pairs: Vec<(i64, i64)> = Vec::new();
    let mut k: usize = 0;
    while k < ways.len()
        invariant
            k <= ways@.len(),
            forall|n: i64, w: i64| #[trigger]
                pairs@.contains((n, w)) <==> ways_through(ways@.subrange(0, k as int), n).contains(
                    w,
                ),
        decreases ways@.len() - k,
    {
        let id = ways[k].0;
        let way = &ways[k].1;
        let ghost before = ways@.subrange(0, k as int);
        let ghost after = ways@.subrange(0, k + 1);
        if is_route_way(&way.tags) {
            let ghost base = pairs@;
            let mut j: usize = 0;
            while j < way.nodes.len()
                invariant
                    j <= way.nodes@.len(),
                    forall|n: i64, w: i64| #[trigger]
                        pairs@.contains((n, w)) <==> (base.contains((n, w)) || (w == id
                            && way.nodes@.subrange(0, j as int).contains(n))),
                decreases way.nodes@.len() - j,
            {
                let ghost old_pairs = pairs@;
                let node = way.nodes[j];
                pairs.push((node, id));
                j = j + 1;
                assert forall|n: i64, w: i64| #[trigger]
                    pairs@.contains((n, w)) <==> (base.contains((n, w)) || (w == id
                        && way.nodes@.subrange(0, j as int).contains(n))) by {
                    if pairs@.contains((n, w)) && !old_pairs.contains((n, w)) {
                        let q = choose|q: int| 0 <= q < pairs@.len() && pairs@[q] == (n, w);
                        assert(q == old_pairs.len());
                        assert(way.nodes@.subrange(0, j as int)[j - 1] == node);
                    }
                    if old_pairs.contains((n, w)) {
                        let q = choose|q: int| 0 <= q < old_pairs.len() && old_pairs[q] == (n, w);
                        assert(pairs@[q] == (n, w));
                    }
                    if w == id && way.nodes@.subrange(0, j as int).contains(n) {
                        let q = choose|q: int|
                            0 <= q < j && way.nodes@.subrange(0, j as int)[q] == n;
                        if q < j - 1 {
                            assert(way.nodes@.subrange(0, j - 1)[q] == n);
                        } else {
                            assert(pairs@[old_pairs.len() as int] == (n, w));
                        }
                    }
                }
            }
            assert(way.nodes@.subrange(0, j as int) =~= way.nodes@);
            assert forall|n: i64, w: i64| #[trigger]
                pairs@.contains((n, w)) <==> ways_through(after, n).contains(w) by {
                if ways_through(after, n).contains(w) {
                    let q = choose|q: int|
                        0 <= q < after.len() && after[q].0 == w && is_route(after[q].1.tags@)
                            && after[q].1.nodes@.contains(n);
                    if q < k {
                        assert(before[q] == after[q]);
                        assert(ways_through(before, n).contains(w));
                    }
                }
                if ways_through(before, n).contains(w) {
                    let q = choose|q: int|
                        0 <= q < before.len() && before[q].0 == w && is_route(before[q].1.tags@)
                            && before[q].1.nodes@.contains(n);
                    assert(after[q] == before[q]);
                }
                if w == id && way.nodes@.contains(n) {
                    assert(after[k as int].0 == w);
                }
            }
        } else {
            assert forall|n: i64, w: i64| #[trigger]
                pairs@.contains((n, w)) <==> ways_through(after, n).contains(w) by {
                if ways_through(after, n).contains(w) {
                    let q = choose|q: int|
                        0 <= q < after.len() && after[q].0 == w && is_route(after[q].1.tags@)
                            && after[q].1.nodes@.contains(n);
                    assert(q != k);
                    assert(before[q] == after[q]);
                }
                if ways_through(before, n).contains(w) {
                    let q = choose|q: int|
                        0 <= q < before.len() && before[q].0 == w && is_route(before[q].1.tags@)
                            && before[q].1.nodes@.contains(n);
                    assert(after[q] == before[q]);
                }
            }
        }
        k = k + 1;
    }
    assert(ways@.subrange(0, k as int) =~= ways@);
    pairs
}

proof fn lemma_push_contains<A>(s: Seq<A>, a: A, b: A)
    ensures
        s.push(a).contains(b) <==> (s.contains(b) || a == b),
{
    if s.push(a).contains(b) {
        let q = choose|q: int| 0 <= q < s.push(a).len() && s.push(a)[q] == b;
        if q < s.len() {
            assert(s[q] == b);
        }
    }
    if s.contains(b) {
        let q = choose|q: int| 0 <= q < s.len() && s[q] == b;
        assert(s.push(a)[q] == b);
    }
    if a == b {
        assert(s.push(a)[s.len() as int] == b);
    }
}

/// The distinct ways that the pairs list for `node`.
fn ways_at(pairs: &Vec<(i64, i64)>, node: i64) -> (r: Vec<i64>)
    ensures
        r@.no_duplicates(),
        forall|w: i64| r@.contains(w) <==> #[trigger] pairs@.contains((node, w)),
{
    let mut r: Vec<i64> = Vec::new();
    let mut t: usize = 0;
    while t < pairs.len()
        invariant
            t <= pairs@.len(),
            r@.no_duplicates(),
            forall|w: i64|
                r@.contains(w) <==> #[trigger] pairs@.subrange(0, t as int).contains((node, w)),
        decreases pairs@.len() - t,
    {
        let ghost old_r = r@;
        let ghost prev = pairs@.subrange(0, t as int);
        let (n, w) = pairs[t];
        if n == node && !contains_id(&r, w) {
            r.push(w);
            assert(r@ == old_r.push(w));
            assert forall|i: int, j: int| 0 <= i < j < r@.len() implies r@[i] != r@[j] by {
                if j == old_r.len() {
                    assert(old_r[i] == r@[i]);
                }
            }
        }
        t = t + 1;
        let ghost head = pairs@.subrange(0, t as int);
        assert(head =~= prev.push((n, w)));
        assert forall|x: i64| r@.contains(x) <==> #[trigger] head.contains((node, x)) by {
            lemma_push_contains(prev, (n, w), (node, x));
            if r@ != old_r {
                lemma_push_contains(old_r, w, x);
            }
        }
    }
    assert(pairs@.subrange(0, t as int) =~= pairs@);
    r
}

/// Whether a pair before position `t` names `node`.
fn seen_before(pairs: &Vec<(i64, i64)>, t: usize, node: i64) -> (r: bool)
    requires
        t <= pairs@.len(),
    ensures
        r == exists|i: int| 0 <= i < t && #[trigger] pairs@[i].0 == node,
{
    let mut i: usize = 0;
    while i < t
        invariant
            i <= t <= pairs@.len(),
            forall|j: int| 0 <= j < i ==> #[trigger] pairs@[j].0 != node,
        decreases t - i,
    {
        if pairs[i].0 == node {
            return true;
        }
        i = i + 1;
    }
    false
}

/// Two or more route ways pass through `node`.
pub open spec fn junction(ways: Seq<(i64, Way)>, node: i64) -> bool {
    exists|w1: i64, w2: i64|
        w1 != w2 && ways_through(ways, node).contains(w1) && ways_through(ways, node).contains(w2)
}

/// `ids` lists, without repeats, the route ways through `node`, and there
/// are at least two of them.
pub open spec fn junction_entry(ways: Seq<(i64, Way)>, node: i64, ids: Seq<i64>) -> bool {
    &&& ids.no_duplicates()
    &&& ids.len() >= 2
    &&& forall|w: i64| ids.contains(w) <==> ways_through(ways, node).contains(w)
}

/// The junctions of the road network: every node that two or more route ways
/// pass through, with the ids of those ways.
pub struct Network {
    pub intersections: Vec<(i64, Vec<i64>)>,
}

impl Network {
    pub fn new(ways: &Vec<(i64, Way)>) -> (r: Network)
        ensures
            forall|i: int|
                0 <= i < r.intersections@.len() ==> junction_entry(
                    ways@,
                    (#[trigger] r.intersections@[i]).0,
                    r.intersections@[i].1@,
                ),
            forall|i: int, j: int|
                0 <= i < j < r.intersections@.len() ==> (#[trigger] r.intersections@[i]).0
                    != (#[trigger] r.intersections@[j]).0,
            forall|node: i64|
                #[trigger] junction(ways@, node) ==> exists|i: int|
                    0 <= i < r.intersections@.len() && (#[trigger] r.intersections@[i]).0 == node,
    {
        let pairs = route_pairs(ways);
        let mut found: Vec<(i64, Vec<i64>)> = Vec::new();
        let mut t: usize = 0;
        while t < pairs.len()
            invariant
                t <= pairs@.len(),
                forall|n: i64, w: i64| #[trigger]
                    pairs@.contains((n, w)) <==> ways_through(ways@, n).contains(w),
                forall|i: int|
                    0 <= i < found@.len() ==> junction_entry(
                        ways@,
                        (#[trigger] found@[i]).0,
                        found@[i].1@,
                    ),
                forall|i: int|
                    0 <= i < found@.len() ==> exists|q: int|
                        0 <= q < t && #[trigger] pairs@[q].0 == (#[trigger] found@[i]).0,
                forall|i: int, j: int|
                    0 <= i < j < found@.len() ==> (#[trigger] found@[i]).0 != (#[trigger] found@[j]).0,
                forall|q: int|
                    0 <= q < t && junction(ways@, (#[trigger] pairs@[q]).0) ==> exists|i: int|
                        0 <= i < found@.len() && (#[trigger] found@[i]).0 == pairs@[q].0,
            decreases pairs@.len() - t,
        {
            let node = pairs[t].0;
            let ghost old_found = found@;
            if !seen_before(&pairs, t, node) {
                let ws = ways_at(&pairs, node);
                assert forall|w: i64| ws@.contains(w) <==> ways_through(ways@, node).contains(w) by {
                    assert(ws@.contains(w) <==> pairs@.contains((node, w)));
                }
                proof {
                    if junction(ways@, node) {
                        let (w1, w2) = choose|w1: i64, w2: i64|
                            w1 != w2 && ways_through(ways@, node).contains(w1)
                                && ways_through(ways@, node).contains(w2);
                        assert(ws@.contains(w1) && ws@.contains(w2));
                        let a = choose|a: int| 0 <= a < ws@.len() && ws@[a] == w1;
                        let b = choose|b: int| 0 <= b < ws@.len() && ws@[b] == w2;
                        assert(a != b);
                    }
                }
                if ws.len() >= 2 {
                    found.push((node, ws));
                    assert forall|i: int|
                        0 <= i < found@.len() implies exists|q: int|
                            0 <= q < t + 1 && #[trigger] pairs@[q].0 == (#[trigger] found@[i]).0 by {
                        if i < old_found.len() {
                            assert(found@[i] == old_found[i]);
                            let q = choose|q: int| 0 <= q < t && #[trigger] pairs@[q].0 == old_found[i].0;
                            assert(pairs@[q].0 == found@[i].0);
                        } else {
                            assert(pairs@[t as int].0 == found@[i].0);
                        }
                    }
                    assert forall|i: int, j: int|
                        0 <= i < j < found@.len() implies (#[trigger] found@[i]).0
                            != (#[trigger] found@[j]).0 by {
                        if j == old_found.len() {
                            assert(found@[i] == old_found[i]);
                            let q = choose|q: int| 0 <= q < t && #[trigger] pairs@[q].0 == old_found[i].0;
                        } else {
                            assert(found@[i] == old_found[i] && found@[j] == old_found[j]);
                        }
                    }
                    assert forall|i: int| 0 <= i < found@.len() implies junction_entry(
                        ways@,
                        (#[trigger] found@[i]).0,
                        found@[i].1@,
                    ) by {
                        if i < old_found.len() {
                            assert(found@[i] == old_found[i]);
                        }
                    }
                }
            }
            assert forall|q: int|
                0 <= q < t + 1 && junction(ways@, (#[trigger] pairs@[q]).0) implies exists|i: int|
                    0 <= i < found@.len() && (#[trigger] found@[i]).0 == pairs@[q].0 by {
                if q < t {
                    let i = choose|i: int| 0 <= i < old_found.len() && (#[trigger] old_found[i]).0 == pairs@[q].0;
                    assert(found@[i] == old_found[i]);
                } else if seen_before_spec(pairs@, t as int, node) {
                    let q2 = choose|q2: int| 0 <= q2 < t && #[trigger] pairs@[q2].0 == node;
                    let i = choose|i: int| 0 <= i < old_found.len() && (#[trigger] old_found[i]).0 == pairs@[q2].0;
                    assert(found@[i] == old_found[i]);
                } else {
                    assert(found@[old_found.len() as int].0 == node);
                }
            }
            t = t + 1;
        }
        assert forall|node: i64| #[trigger] junction(ways@, node) implies exists|i: int|
            0 <= i < found@.len() && (#[trigger] found@[i]).0 == node by {
            let (w1, w2) = choose|w1: i64, w2: i64|
                w1 != w2 && ways_through(ways@, node).contains(w1)
                    && ways_through(ways@, node).contains(w2);
            assert(pairs@.contains((node, w1)));
            let q = choose|q: int| 0 <= q < pairs@.len() && pairs@[q] == (node, w1);
            assert(pairs@[q].0 == node);
            assert(junction(ways@, pairs@[q].0));
            let i = choose|i: int| 0 <= i < found@.len() && (#[trigger] found@[i]).0 == pairs@[q].0;
            assert(found@[i].0 == node);
        }
        let r = Network { intersections: found };
        assert(r.intersections@ == found@);
        r
    }
}

pub open spec fn seen_before_spec(pairs: Seq<(i64, i64)>, t: int, node: i64) -> bool {
    exists|i: int| 0 <= i < t && #[trigger] pairs[i].0 == node
}

} // verus!
