//! Committing a new road: where its straight line crosses existing segments,
//! those are split, and the road is laid as a chain of straight segments
//! through the crossing nodes.

use crate::geometry::{
    clamp_i32, dist_sq3, floor_div, lemma_product_bound, saturate, Point3, UNIT,
};
use crate::road::{
    lemma_ids_below, lemma_register, lemma_split_segment, NetworkView, NodeId, RoadNetwork,
    RoadType, SegmentId, SegmentView, DEFAULT_ROAD_WIDTH,
};
use vstd::prelude::*;
use vstd::slice::{slice_subrange, slice_to_vec};

verus! {

/// A click within this distance of a node snaps to it: three world units.
pub const SNAP_RADIUS: i32 = 3 * UNIT;

/// Where two straight lines meet, as fractions along each: the point lies at
/// `t_num / denom` of the way along the first and `u_num / denom` along the
/// second. `denom` is positive.
#[derive(Clone, Copy, Debug, PartialEq, Eq, Structural)]
pub struct Crossing {
    pub t_num: i128,
    pub u_num: i128,
    pub denom: i128,
}

/// Cross product, on the ground plane, of the directions of `a1 -> a2` and
/// `b1 -> b2`. Zero when the two are parallel.
pub open spec fn cross_xz(a1: Point3, a2: Point3, b1: Point3, b2: Point3) -> int {
    (a2.x - a1.x) * (b2.z - b1.z) - (a2.z - a1.z) * (b2.x - b1.x)
}

/// Numerator of the meeting point's fraction along `a1 -> a2`, over `cross_xz`.
pub open spec fn t_numer(a1: Point3, a2: Point3, b1: Point3, b2: Point3) -> int {
    (b1.x - a1.x) * (b2.z - b1.z) - (b1.z - a1.z) * (b2.x - b1.x)
}

/// Numerator of the meeting point's fraction along `b1 -> b2`, over `cross_xz`.
pub open spec fn u_numer(a1: Point3, a2: Point3, b1: Point3, b2: Point3) -> int {
    (b1.x - a1.x) * (a2.z - a1.z) - (b1.z - a1.z) * (a2.x - a1.x)
}

/// The fraction `num / den`, `den` positive, lies strictly between one and
/// ninety-nine hundredths: clear of both ends of its segment.
pub open spec fn clear_of_ends(num: int, den: int) -> bool {
    100 * num > den && 100 * num < 99 * den
}

/// Where segment `a1 -> a2` crosses segment `b1 -> b2` on the ground plane.
/// Parallel segments do not cross, and a meeting closer than a hundredth of
/// either segment to one of its ends does not count.
pub open spec fn intersection(a1: Point3, a2: Point3, b1: Point3, b2: Point3) -> Option<Crossing> {
    let c = cross_xz(a1, a2, b1, b2);
    let t = if c > 0 { t_numer(a1, a2, b1, b2) } else { -t_numer(a1, a2, b1, b2) };
    let u = if c > 0 { u_numer(a1, a2, b1, b2) } else { -u_numer(a1, a2, b1, b2) };
    let d = if c > 0 { c } else { -c };
    if c != 0 && clear_of_ends(t, d) && clear_of_ends(u, d) {
        Some(Crossing { t_num: t as i128, u_num: u as i128, denom: d as i128 })
    } else {
        None
    }
}

/// The largest magnitude a crossing's numerators and denominator can have.
pub open spec fn crossing_bound() -> int {
    0x2_0000_0000_0000_0000
}

/// The point `num / den` of the way from `a` to `b`, each coordinate rounded
/// down.
pub open spec fn lerp(a: Point3, b: Point3, num: int, den: int) -> Point3 {
    Point3 {
        x: clamp_i32(a.x + ((b.x - a.x) * num) / den),
        y: clamp_i32(a.y + ((b.y - a.y) * num) / den),
        z: clamp_i32(a.z + ((b.z - a.z) * num) / den),
    }
}

fn lerp_coord(a: i32, b: i32, num: i128, den: i128) -> (r: i32)
    requires
        den > 0,
        -crossing_bound() <= num <= crossing_bound(),
    ensures
        r == clamp_i32(a + ((b - a) * num) / (den as int)),
{
    let d: i128 = b as i128 - a as i128;
    proof {
        lemma_product_bound(d as int, num as int, 0x1_0000_0000, crossing_bound());
    }
    let q = floor_div(d * num, den);
    proof {
        lemma_div_bound(d as int * num as int, den as int, 0x1_0000_0000 * crossing_bound());
    }
    saturate(a as i128 + q)
}

/// A quotient by a positive divisor is no larger in magnitude than the dividend.
proof fn lemma_div_bound(n: int, d: int, m: int)
    by (nonlinear_arith)
    requires
        d > 0,
        -m <= n <= m,
    ensures
        -m <= n / d <= m,
{
}

/// A fraction of the way from `a` to `b` lies between them.
pub proof fn lemma_lerp_between(a: int, b: int, num: int, den: int)
    requires
        0 <= num <= den,
        den > 0,
    ensures
        a <= b ==> a <= a + ((b - a) * num) / den <= b,
        b <= a ==> b <= a + ((b - a) * num) / den <= a,
{
    let d = b - a;
    if d >= 0 {
        assert(0 <= d * num <= d * den) by (nonlinear_arith)
            requires
                d >= 0,
                0 <= num <= den,
        ;
        vstd::arithmetic::div_mod::lemma_div_is_ordered(0, d * num, den);
        vstd::arithmetic::div_mod::lemma_div_is_ordered(d * num, d * den, den);
    } else {
        assert(d * den <= d * num <= 0) by (nonlinear_arith)
            requires
                d < 0,
                0 <= num <= den,
        ;
        vstd::arithmetic::div_mod::lemma_div_is_ordered(d * den, d * num, den);
        vstd::arithmetic::div_mod::lemma_div_is_ordered(d * num, 0, den);
    }
    assert(d * den == den * d) by (nonlinear_arith);
    vstd::arithmetic::div_mod::lemma_div_multiples_vanish(d, den);
    assert(0int / den == 0) by (nonlinear_arith)
        requires
            den > 0,
    ;
}

/// A crossing point lies in the box spanned by the ends of the crossing
/// road, so no coordinate of it is ever cut short.
pub proof fn lemma_crossing_point_between(a: Point3, b: Point3, c: Crossing)
    requires
        0 < c.t_num < c.denom,
    ensures
        lerp(a, b, c.t_num as int, c.denom as int).x == a.x + ((b.x - a.x) * c.t_num) / (
        c.denom as int),
        lerp(a, b, c.t_num as int, c.denom as int).y == a.y + ((b.y - a.y) * c.t_num) / (
        c.denom as int),
        lerp(a, b, c.t_num as int, c.denom as int).z == a.z + ((b.z - a.z) * c.t_num) / (
        c.denom as int),
{
    lemma_lerp_between(a.x as int, b.x as int, c.t_num as int, c.denom as int);
    lemma_lerp_between(a.y as int, b.y as int, c.t_num as int, c.denom as int);
    lemma_lerp_between(a.z as int, b.z as int, c.t_num as int, c.denom as int);
}

/// The point `num / den` of the way from `a` to `b`.
pub fn lerp_point(a: Point3, b: Point3, num: i128, den: i128) -> (r: Point3)
    requires
        den > 0,
        -crossing_bound() <= num <= crossing_bound(),
    ensures
        r == lerp(a, b, num as int, den as int),
{
    Point3 {
        x: lerp_coord(a.x, b.x, num, den),
        y: lerp_coord(a.y, b.y, num, den),
        z: lerp_coord(a.z, b.z, num, den),
    }
}

/// Where segment `a1 -> a2` crosses segment `b1 -> b2` on the ground plane,
/// if it does so clear of the ends of both.
pub fn segment_intersection_xz(a1: Point3, a2: Point3, b1: Point3, b2: Point3) -> (r: Option<
    Crossing,
>)
    ensures
        r == intersection(a1, a2, b1, b2),
        match r {
            Some(c) => 0 < c.t_num < c.denom <= crossing_bound() && 0 < c.u_num < c.denom,
            None => true,
        },
{
    let d1x: i128 = a2.x as i128 - a1.x as i128;
    let d1z: i128 = a2.z as i128 - a1.z as i128;
    let d2x: i128 = b2.x as i128 - b1.x as i128;
    let d2z: i128 = b2.z as i128 - b1.z as i128;
    let dx: i128 = b1.x as i128 - a1.x as i128;
    let dz: i128 = b1.z as i128 - a1.z as i128;
    proof {
        let m: int = 0x1_0000_0000;
        lemma_product_bound(d1x as int, d2z as int, m, m);
        lemma_product_bound(d1z as int, d2x as int, m, m);
        lemma_product_bound(dx as int, d2z as int, m, m);
        lemma_product_bound(dz as int, d2x as int, m, m);
        lemma_product_bound(dx as int, d1z as int, m, m);
        lemma_product_bound(dz as int, d1x as int, m, m);
    }
    let cross: i128 = d1x * d2z - d1z * d2x;
    if cross == 0 {
        return None;
    }
    let t: i128 = dx * d2z - dz * d2x;
    let u: i128 = dx * d1z - dz * d1x;
    let (t, u, d) = if cross > 0 {
        (t, u, cross)
    } else {
        (-t, -u, -cross)
    };
    if 100 * t > d && 100 * t < 99 * d && 100 * u > d && 100 * u < 99 * d {
        Some(Crossing { t_num: t, u_num: u, denom: d })
    } else {
        None
    }
}

/// An existing segment that a new road crosses, and where.
#[derive(Clone, Copy, Debug, PartialEq, Eq, Structural)]
pub struct Hit {
    pub segment: SegmentId,
    pub point: Point3,
}

/// `sorted` with `x` put behind the last hit that is no farther from `origin`.
pub open spec fn insert_by_distance(sorted: Seq<Hit>, x: Hit, origin: Point3) -> Seq<Hit>
    decreases sorted.len(),
{
    if sorted.len() == 0 {
        seq![x]
    } else if dist_sq3(sorted.last().point, origin) <= dist_sq3(x.point, origin) {
        sorted.push(x)
    } else {
        insert_by_distance(sorted.drop_last(), x, origin).push(sorted.last())
    }
}

/// `hits` in order of distance from `origin`, nearest first; hits equally
/// far keep their order.
pub open spec fn sort_by_distance(hits: Seq<Hit>, origin: Point3) -> Seq<Hit>
    decreases hits.len(),
{
    if hits.len() == 0 {
        Seq::empty()
    } else {
        insert_by_distance(sort_by_distance(hits.drop_last(), origin), hits.last(), origin)
    }
}

impl NetworkView {
    /// Where the straight line from `a` to `b` crosses the straight line
    /// between the ends of segment `s`. A segment with a missing end is not
    /// crossed.
    pub open spec fn segment_crossing(self, s: u32, a: Point3, b: Point3) -> Option<Point3> {
        if self.has_ends(s) {
            match intersection(
                a,
                b,
                self.nodes[self.segments[s].from.0].position,
                self.nodes[self.segments[s].to.0].position,
            ) {
                Some(c) => Some(lerp(a, b, c.t_num as int, c.denom as int)),
                None => None,
            }
        } else {
            None
        }
    }

    /// The hits of the line from `a` to `b` on the segments `ids`, in the
    /// order of `ids`.
    pub open spec fn hits_among(self, ids: Seq<SegmentId>, a: Point3, b: Point3) -> Seq<Hit>
        decreases ids.len(),
    {
        if ids.len() == 0 {
            Seq::empty()
        } else {
            let rest = self.hits_among(ids.drop_last(), a, b);
            match self.segment_crossing(ids.last().0, a, b) {
                Some(point) => rest.push(Hit { segment: ids.last(), point }),
                None => rest,
            }
        }
    }

    /// Every hit of the line from `a` to `b`, by ascending segment id.
    pub open spec fn hits(self, a: Point3, b: Point3) -> Seq<Hit> {
        self.hits_among(self.segment_ids(), a, b)
    }

    /// The node an anchor at `p` resolves to, and the network with that node:
    /// the nearest node within the snap radius, else a new node at `p`.
    pub open spec fn snap(self, p: Point3) -> (NetworkView, NodeId) {
        match self.nearest(p, SNAP_RADIUS) {
            Some(id) => (self, id),
            None => (self.add_node(p), NodeId(self.next_node_id)),
        }
    }

    /// The network after splitting, in turn, each hit's segment at its point.
    pub open spec fn split_all(self, hits: Seq<Hit>) -> NetworkView
        decreases hits.len(),
    {
        if hits.len() == 0 {
            self
        } else {
            self.split_all(hits.drop_last()).split_segment_at(
                hits.last().segment,
                hits.last().point,
            )
        }
    }

    /// The network after joining the first `links + 1` nodes of `chain`, each
    /// to the next, by straight dirt roads.
    pub open spec fn lay_chain(self, chain: Seq<NodeId>, links: nat) -> NetworkView
        decreases links,
    {
        if links == 0 {
            self
        } else {
            self.lay_chain(chain, (links - 1) as nat).add_segment(
                chain[links - 1],
                chain[links as int],
                Seq::empty(),
                RoadType::Dirt,
                DEFAULT_ROAD_WIDTH,
            )
        }
    }

    /// The ids of the next `n` nodes to be added.
    pub open spec fn next_nodes(self, n: nat) -> Seq<NodeId> {
        Seq::new(n, |i: int| NodeId((self.next_node_id + i) as u32))
    }

    /// The network after committing a road along `points`, and the road's
    /// chain of nodes from start to end.
    ///
    /// Both ends snap to a node or become one. A road that crosses nothing is
    /// one segment that keeps the waypoints between its ends as control
    /// points. A road that crosses segments splits each where it crosses, the
    /// nearest to the start first, and runs straight from crossing to
    /// crossing; its waypoints are dropped.
    pub open spec fn commit_road(self, points: Seq<Point3>) -> (NetworkView, Seq<NodeId>) {
        let (v1, start) = self.snap(points.first());
        let (v2, end) = v1.snap(points.last());
        let a = v2.nodes[start.0].position;
        let b = v2.nodes[end.0].position;
        let hits = sort_by_distance(v2.hits(a, b), a);
        if hits.len() == 0 {
            (
                v2.add_segment(
                    start,
                    end,
                    points.subrange(1, points.len() - 1),
                    RoadType::Dirt,
                    DEFAULT_ROAD_WIDTH,
                ),
                seq![start, end],
            )
        } else {
            let chain = seq![start] + v2.next_nodes(hits.len()) + seq![end];
            (v2.split_all(hits).lay_chain(chain, (chain.len() - 1) as nat), chain)
        }
    }
}

/// No two hits are on the same segment.
pub open spec fn distinct_segments(hits: Seq<Hit>) -> bool {
    forall|i: int, j: int|
        0 <= i < j < hits.len() ==> (#[trigger] hits[i]).segment != (#[trigger] hits[j]).segment
}

/// Every hit of `part` is a hit of `whole`.
pub open spec fn drawn_from(part: Seq<Hit>, whole: Seq<Hit>) -> bool {
    forall|i: int| 0 <= i < part.len() ==> whole.contains(#[trigger] part[i])
}

/// No hit is nearer `origin` than the one before it.
pub open spec fn ordered_by_distance(hits: Seq<Hit>, origin: Point3) -> bool {
    forall|i: int, j: int|
        0 <= i < j < hits.len() ==> dist_sq3((#[trigger] hits[i]).point, origin) <= dist_sq3(
            (#[trigger] hits[j]).point,
            origin,
        )
}

/// Inserting a hit adds it, keeps the others, and keeps the order by distance.
pub proof fn lemma_insert_by_distance(sorted: Seq<Hit>, x: Hit, origin: Point3)
    ensures
        insert_by_distance(sorted, x, origin).len() == sorted.len() + 1,
        insert_by_distance(sorted, x, origin).contains(x),
        drawn_from(sorted, insert_by_distance(sorted, x, origin)),
        drawn_from(insert_by_distance(sorted, x, origin), sorted.push(x)),
        ordered_by_distance(sorted, origin) ==> ordered_by_distance(
            insert_by_distance(sorted, x, origin),
            origin,
        ),
        distinct_segments(sorted.push(x)) ==> distinct_segments(
            insert_by_distance(sorted, x, origin),
        ),
    decreases sorted.len(),
{
    let r = insert_by_distance(sorted, x, origin);
    if sorted.len() == 0 {
        assert(r[0] == x);
        assert(sorted.push(x)[0] == x);
    } else if dist_sq3(sorted.last().point, origin) <= dist_sq3(x.point, origin) {
        assert(r[r.len() - 1] == x);
        assert forall|i: int| 0 <= i < sorted.len() implies r.contains(#[trigger] sorted[i]) by {
            assert(r[i] == sorted[i]);
        }
        assert forall|i: int| 0 <= i < r.len() implies sorted.push(x).contains(#[trigger] r[i]) by {
            assert(sorted.push(x)[i] == r[i]);
        }
    } else {
        let head = sorted.drop_last();
        let inner = insert_by_distance(head, x, origin);
        lemma_insert_by_distance(head, x, origin);
        let k = choose|k: int| 0 <= k < inner.len() && inner[k] == x;
        assert(r[k] == x);
        assert forall|i: int| 0 <= i < sorted.len() implies r.contains(#[trigger] sorted[i]) by {
            if i < head.len() {
                assert(inner.contains(head[i]));
                let j = choose|j: int| 0 <= j < inner.len() && inner[j] == head[i];
                assert(r[j] == sorted[i]);
            } else {
                assert(r[r.len() - 1] == sorted[i]);
            }
        }
        assert forall|i: int| 0 <= i < r.len() implies sorted.push(x).contains(#[trigger] r[i]) by {
            if i < inner.len() {
                assert(head.push(x).contains(inner[i]));
                let j = choose|j: int| 0 <= j < head.push(x).len() && head.push(x)[j] == inner[i];
                if j < head.len() {
                    assert(sorted.push(x)[j] == r[i]);
                } else {
                    assert(sorted.push(x)[sorted.len() as int] == r[i]);
                }
            } else {
                assert(sorted.push(x)[sorted.len() - 1] == r[i]);
            }
        }
        if ordered_by_distance(sorted, origin) {
            assert forall|i: int, j: int| 0 <= i < j < head.len() implies dist_sq3(
                (#[trigger] head[i]).point,
                origin,
            ) <= dist_sq3((#[trigger] head[j]).point, origin) by {
                assert(head[i] == sorted[i] && head[j] == sorted[j]);
            }
            assert forall|i: int, j: int| 0 <= i < j < r.len() implies dist_sq3(
                (#[trigger] r[i]).point,
                origin,
            ) <= dist_sq3((#[trigger] r[j]).point, origin) by {
                if j < inner.len() {
                    assert(r[i] == inner[i] && r[j] == inner[j]);
                } else {
                    assert(r[i] == inner[i]);
                    assert(head.push(x).contains(inner[i]));
                    let m = choose|m: int|
                        0 <= m < head.push(x).len() && head.push(x)[m] == inner[i];
                    if m < head.len() {
                        assert(sorted[m] == inner[i]);
                        assert(dist_sq3(sorted[m].point, origin) <= dist_sq3(
                            sorted[sorted.len() - 1].point,
                            origin,
                        ));
                    }
                }
            }
        }
        if distinct_segments(sorted.push(x)) {
            let sx = sorted.push(x);
            assert forall|i: int, j: int| 0 <= i < j < head.push(x).len() implies (
            #[trigger] head.push(x)[i]).segment != (#[trigger] head.push(x)[j]).segment by {
                if j < head.len() {
                    assert(sx[i] == head.push(x)[i] && sx[j] == head.push(x)[j]);
                } else {
                    assert(sx[i] == head.push(x)[i] && sx[sorted.len() as int] == head.push(x)[j]);
                }
            }
            assert forall|i: int, j: int| 0 <= i < j < r.len() implies (#[trigger] r[i]).segment
                != (#[trigger] r[j]).segment by {
                if j < inner.len() {
                    assert(r[i] == inner[i] && r[j] == inner[j]);
                } else {
                    assert(r[i] == inner[i]);
                    assert(head.push(x).contains(inner[i]));
                    let m = choose|m: int|
                        0 <= m < head.push(x).len() && head.push(x)[m] == inner[i];
                    if m < head.len() {
                        assert(sx[m] == inner[i]);
                        assert(sx[sorted.len() - 1] == r[j]);
                    } else {
                        assert(sx[sorted.len() as int] == inner[i]);
                        assert(sx[sorted.len() - 1] == r[j]);
                    }
                }
            }
        }
    }
}

/// Sorting keeps every hit, adds none, and orders them by distance.
pub proof fn lemma_sort_by_distance(hits: Seq<Hit>, origin: Point3)
    ensures
        sort_by_distance(hits, origin).len() == hits.len(),
        drawn_from(hits, sort_by_distance(hits, origin)),
        drawn_from(sort_by_distance(hits, origin), hits),
        ordered_by_distance(sort_by_distance(hits, origin), origin),
        distinct_segments(hits) ==> distinct_segments(sort_by_distance(hits, origin)),
    decreases hits.len(),
{
    if hits.len() > 0 {
        let head = hits.drop_last();
        let sorted = sort_by_distance(head, origin);
        let r = sort_by_distance(hits, origin);
        lemma_sort_by_distance(head, origin);
        lemma_insert_by_distance(sorted, hits.last(), origin);
        assert forall|i: int| 0 <= i < hits.len() implies r.contains(#[trigger] hits[i]) by {
            if i < head.len() {
                assert(head[i] == hits[i]);
                assert(sorted.contains(head[i]));
                let j = choose|j: int| 0 <= j < sorted.len() && sorted[j] == head[i];
                assert(r.contains(sorted[j]));
            }
        }
        assert forall|i: int| 0 <= i < r.len() implies hits.contains(#[trigger] r[i]) by {
            assert(sorted.push(hits.last()).contains(r[i]));
            let j = choose|j: int|
                0 <= j < sorted.push(hits.last()).len() && sorted.push(hits.last())[j] == r[i];
            if j < sorted.len() {
                assert(head.contains(sorted[j]));
                let m = choose|m: int| 0 <= m < head.len() && head[m] == sorted[j];
                assert(hits[m] == r[i]);
            } else {
                assert(hits[hits.len() - 1] == r[i]);
            }
        }
        if distinct_segments(hits) {
            assert forall|i: int, j: int| 0 <= i < j < head.len() implies (#[trigger] head[i]).segment
                != (#[trigger] head[j]).segment by {
                assert(head[i] == hits[i] && head[j] == hits[j]);
            }
            let sx = sorted.push(hits.last());
            assert forall|i: int, j: int| 0 <= i < j < sx.len() implies (#[trigger] sx[i]).segment
                != (#[trigger] sx[j]).segment by {
                if j < sorted.len() {
                    assert(sx[i] == sorted[i] && sx[j] == sorted[j]);
                } else {
                    assert(sx[i] == sorted[i]);
                    assert(head.contains(sorted[i]));
                    let m = choose|m: int| 0 <= m < head.len() && head[m] == sorted[i];
                    assert(hits[m] == sx[i] && hits[hits.len() - 1] == sx[j]);
                }
            }
        }
    }
}

/// Puts `x` in its place in `sorted`.
fn insert_hit(sorted: &mut Vec<Hit>, x: Hit, origin: Point3)
    ensures
        final(sorted)@ == insert_by_distance(old(sorted)@, x, origin),
{
    let d = x.point.distance_squared(&origin);
    let mut i: usize = sorted.len();
    assert(sorted@.take(i as int) =~= sorted@);
    assert(insert_by_distance(sorted@, x, origin) + sorted@.skip(i as int)
        =~= insert_by_distance(sorted@, x, origin));
    while i > 0
        invariant
            i <= sorted.len(),
            sorted@ == old(sorted)@,
            d == dist_sq3(x.point, origin),
            insert_by_distance(sorted@, x, origin) == insert_by_distance(
                sorted@.take(i as int),
                x,
                origin,
            ) + sorted@.skip(i as int),
        ensures
            i == 0 || dist_sq3(sorted@[i - 1].point, origin) <= d,
        decreases i,
    {
        let before = sorted[i - 1].point.distance_squared(&origin);
        if before <= d {
            break ;
        }
        proof {
            let head = sorted@.take(i as int);
            assert(head.last() == sorted@[i - 1]);
            assert(head.drop_last() =~= sorted@.take(i - 1));
            assert(insert_by_distance(head, x, origin) == insert_by_distance(
                sorted@.take(i - 1),
                x,
                origin,
            ).push(sorted@[i - 1]));
            assert(insert_by_distance(sorted@.take(i - 1), x, origin).push(sorted@[i - 1])
                + sorted@.skip(i as int) =~= insert_by_distance(sorted@.take(i - 1), x, origin)
                + sorted@.skip(i - 1));
        }
        i -= 1;
    }
    proof {
        let head = sorted@.take(i as int);
        if i > 0 {
            assert(head.last() == sorted@[i - 1]);
        }
        assert(insert_by_distance(head, x, origin) =~= head.push(x));
        assert(head.push(x) + sorted@.skip(i as int) =~= sorted@.insert(i as int, x));
    }
    sorted.insert(i, x);
}

/// Orders hits by distance from `origin`, nearest first; hits equally far
/// keep their order.
pub fn sort_hits(hits: &Vec<Hit>, origin: Point3) -> (sorted: Vec<Hit>)
    ensures
        sorted@ == sort_by_distance(hits@, origin),
{
    let mut sorted: Vec<Hit> = Vec::new();
    let mut i: usize = 0;
    while i < hits.len()
        invariant
            i <= hits.len(),
            sorted@ == sort_by_distance(hits@.take(i as int), origin),
        decreases hits.len() - i,
    {
        assert(hits@.take(i + 1).drop_last() =~= hits@.take(i as int));
        insert_hit(&mut sorted, hits[i], origin);
        i += 1;
    }
    assert(hits@.take(i as int) =~= hits@);
    sorted
}

impl RoadNetwork {
    /// Every existing segment that the straight line from `a` to `b`
    /// crosses, with the crossing point, by ascending segment id.
    pub fn find_hits(&self, a: Point3, b: Point3) -> (hits: Vec<Hit>)
        ensures
            hits@ == self@.hits(a, b),
    {
        let ids = self.segment_ids();
        let mut hits: Vec<Hit> = Vec::new();
        let mut i: usize = 0;
        while i < ids.len()
            invariant
                i <= ids.len(),
                ids@ == self@.segment_ids(),
                hits@ == self@.hits_among(ids@.take(i as int), a, b),
            decreases ids.len() - i,
        {
            let id = ids[i];
            assert(ids@.take(i + 1).drop_last() =~= ids@.take(i as int));
            if let Some(segment) = self.segment(id) {
                let from = self.node(segment.nodes[0]);
                let to = self.node(segment.nodes[1]);
                if let (Some(from), Some(to)) = (from, to) {
                    if let Some(c) = segment_intersection_xz(a, b, from.position, to.position) {
                        hits.push(Hit { segment: id, point: lerp_point(a, b, c.t_num, c.denom) });
                    }
                }
            }
            i += 1;
        }
        assert(ids@.take(i as int) =~= ids@);
        hits
    }

    /// Resolves an anchor at `p` to a node: the nearest node within the snap
    /// radius, else a new node at `p`.
    pub fn snap(&mut self, p: Point3) -> (id: NodeId)
        requires
            old(self)@.next_node_id < u32::MAX,
        ensures
            (final(self)@, id) == old(self)@.snap(p),
            final(self)@.wf(),
            old(self)@.closed() ==> final(self)@.closed(),
            final(self)@.nodes.contains_key(id.0),
            final(self)@.segments == old(self)@.segments,
            final(self)@.next_segment_id == old(self)@.next_segment_id,
            final(self)@.next_node_id <= old(self)@.next_node_id + 1,
            final(self)@.keeps_nodes_of(old(self)@),
    {
        proof {
            use_type_invariant(&*self);
        }
        match self.nearest_node(p, SNAP_RADIUS) {
            Some(id) => id,
            None => self.add_node(p),
        }
    }
}

/// Ids in strictly ascending order.
pub open spec fn ascending(ids: Seq<SegmentId>) -> bool {
    forall|i: int, j: int| 0 <= i < j < ids.len() ==> (#[trigger] ids[i]).0 < (#[trigger] ids[j]).0
}

/// The hits on ascending segment ids are on existing segments among them,
/// one hit to a segment at most.
pub proof fn lemma_hits_among(v: NetworkView, ids: Seq<SegmentId>, a: Point3, b: Point3)
    requires
        ascending(ids),
    ensures
        v.hits_among(ids, a, b).len() <= ids.len(),
        forall|i: int|
            0 <= i < v.hits_among(ids, a, b).len() ==> ids.contains(
                (#[trigger] v.hits_among(ids, a, b)[i]).segment,
            ) && v.segments.contains_key(v.hits_among(ids, a, b)[i].segment.0),
        distinct_segments(v.hits_among(ids, a, b)),
    decreases ids.len(),
{
    if ids.len() > 0 {
        let head = ids.drop_last();
        let rest = v.hits_among(head, a, b);
        let all = v.hits_among(ids, a, b);
        assert forall|i: int, j: int| 0 <= i < j < head.len() implies (#[trigger] head[i]).0 < (
        #[trigger] head[j]).0 by {
            assert(head[i] == ids[i] && head[j] == ids[j]);
        }
        lemma_hits_among(v, head, a, b);
        assert forall|i: int| 0 <= i < all.len() implies ids.contains((#[trigger] all[i]).segment)
            && v.segments.contains_key(all[i].segment.0) by {
            if i < rest.len() {
                assert(all[i] == rest[i]);
                assert(head.contains(rest[i].segment));
                let j = choose|j: int| 0 <= j < head.len() && head[j] == rest[i].segment;
                assert(ids[j] == all[i].segment);
            } else {
                assert(ids[ids.len() - 1] == all[i].segment);
            }
        }
        assert forall|i: int, j: int| 0 <= i < j < all.len() implies (#[trigger] all[i]).segment
            != (#[trigger] all[j]).segment by {
            if j < rest.len() {
                assert(all[i] == rest[i] && all[j] == rest[j]);
            } else {
                assert(all[i] == rest[i]);
                assert(head.contains(rest[i].segment));
                let m = choose|m: int| 0 <= m < head.len() && head[m] == rest[i].segment;
                assert(ids[m].0 < ids[ids.len() - 1].0);
            }
        }
    }
}

/// The hits of a line are on existing segments, one hit to a segment at
/// most, and no more than ids have been handed out.
pub proof fn lemma_hits(v: NetworkView, a: Point3, b: Point3)
    ensures
        v.hits(a, b).len() <= v.next_segment_id,
        forall|i: int|
            0 <= i < v.hits(a, b).len() ==> v.segments.contains_key(
                (#[trigger] v.hits(a, b)[i]).segment.0,
            ),
        distinct_segments(v.hits(a, b)),
{
    lemma_ids_below(v.segments, v.next_segment_id as nat);
    lemma_hits_among(v, v.segment_ids(), a, b);
}

impl RoadNetwork {
    /// Commits a road along `points`, from the first to the last, and
    /// returns its chain of nodes from start to end.
    ///
    /// Each crossed segment is replaced by two and the road itself is one
    /// segment more than it has crossings, so with `n` crossings the network
    /// gains `2 n + 1` segments and `n` nodes besides the road's ends.
    pub fn commit_road(&mut self, points: &[Point3]) -> (chain: Vec<NodeId>)
        requires
            old(self)@.room_for_road(),
            points.len() >= 2,
        ensures
            (final(self)@, chain@) == old(self)@.commit_road(points@),
            final(self)@.wf(),
            old(self)@.closed() ==> final(self)@.closed(),
            final(self)@.keeps_nodes_of(old(self)@),
            chain.len() >= 2,
            forall|i: int|
                0 <= i < chain.len() ==> final(self)@.nodes.contains_key((#[trigger] chain[i]).0),
            final(self)@.segments.dom().len() == old(self)@.segments.dom().len() + 2 * (chain.len()
                - 2) + 1,
            final(self)@.nodes.dom().len() == old(self)@.snap(points@.first()).0.snap(
                points@.last(),
            ).0.nodes.dom().len() + (chain.len() - 2),
    {
        proof {
            use_type_invariant(&*self);
        }
        let start = self.snap(points[0]);
        let end = self.snap(points[points.len() - 1]);
        let ghost v2 = self@;
        let a = match self.node(start) {
            Some(node) => node.position,
            None => points[0],
        };
        let b = match self.node(end) {
            Some(node) => node.position,
            None => points[points.len() - 1],
        };
        let found = self.find_hits(a, b);
        let hits = sort_hits(&found, a);
        proof {
            lemma_hits(v2, a, b);
            lemma_sort_by_distance(found@, a);
            assert forall|i: int| 0 <= i < hits.len() implies v2.segments.contains_key(
                (#[trigger] hits@[i]).segment.0,
            ) by {
                assert(found@.contains(hits@[i]));
            }
        }
        if hits.len() == 0 {
            let between = slice_subrange(points, 1, points.len() - 1);
            self.add_segment(start, end, slice_to_vec(between), RoadType::Dirt, DEFAULT_ROAD_WIDTH);
            let mut chain: Vec<NodeId> = Vec::new();
            chain.push(start);
            chain.push(end);
            proof {
                assert(chain@ =~= seq![start, end]);
                lemma_add_segment_dom(v2, start, end, between@, RoadType::Dirt, DEFAULT_ROAD_WIDTH);
            }
            return chain;
        }
        let n = hits.len();
        let mut chain: Vec<NodeId> = Vec::new();
        chain.push(start);
        let mut i: usize = 0;
        while i < n
            invariant
                i <= n,
                n == hits.len(),
                n <= v2.next_segment_id,
                v2.wf(),
                v2.next_node_id + v2.next_segment_id <= u32::MAX,
                4 * v2.next_segment_id + 1 <= u32::MAX,
                distinct_segments(hits@),
                self@ == v2.split_all(hits@.take(i as int)),
                self@.wf(),
                v2.closed() ==> self@.closed(),
                self@.next_node_id == v2.next_node_id + i,
                self@.next_segment_id == v2.next_segment_id + 2 * i,
                chain@ == seq![start] + v2.next_nodes(i as nat),
                forall|j: int|
                    i <= j < n ==> self@.segments.contains_key((#[trigger] hits@[j]).segment.0)
                        && hits@[j].segment.0 < v2.next_segment_id,
                self@.keeps_nodes_of(v2),
                forall|j: int|
                    0 <= j < i ==> self@.nodes.contains_key((#[trigger] v2.next_nodes(n as nat)[j]).0),
                self@.segments.dom().len() == v2.segments.dom().len() + i,
                self@.nodes.dom().len() == v2.nodes.dom().len() + i,
            decreases n - i,
        {
            let hit = hits[i];
            let ghost before = self@;
            proof {
                lemma_split_segment(before, hit.segment, hit.point);
                assert(hits@.take(i + 1).drop_last() =~= hits@.take(i as int));
            }
            let mid = self.split_segment_at(hit.segment, hit.point);
            chain.push(mid);
            proof {
                assert(chain@ =~= seq![start] + v2.next_nodes((i + 1) as nat));
                assert forall|j: int| i + 1 <= j < n implies self@.segments.contains_key(
                    (#[trigger] hits@[j]).segment.0,
                ) by {
                    assert(hits@[i as int].segment != hits@[j].segment);
                    assert(before.segments.contains_key(hits@[j].segment.0));
                }
                assert forall|j: int| 0 <= j < i + 1 implies self@.nodes.contains_key(
                    (#[trigger] v2.next_nodes(n as nat)[j]).0,
                ) by {
                    if j < i {
                        assert(before.nodes.contains_key(v2.next_nodes(n as nat)[j].0));
                    }
                }
            }
            i += 1;
        }
        chain.push(end);
        let ghost v3 = self@;
        proof {
            assert(hits@.take(n as int) =~= hits@);
            assert(chain@ =~= seq![start] + v2.next_nodes(n as nat) + seq![end]);
            assert forall|j: int| 0 <= j < chain.len() implies v3.nodes.contains_key(
                (#[trigger] chain@[j]).0,
            ) by {
                if 1 <= j <= n {
                    assert(chain@[j] == v2.next_nodes(n as nat)[j - 1]);
                }
            }
        }
        let mut k: usize = 0;
        while k < chain.len() - 1
            invariant
                k <= chain.len() - 1,
                chain.len() == n + 2,
                n <= v2.next_segment_id,
                4 * v2.next_segment_id + 1 <= u32::MAX,
                v3.next_segment_id == v2.next_segment_id + 2 * n,
                self@ == v3.lay_chain(chain@, k as nat),
                self@.wf(),
                v3.closed() ==> self@.closed(),
                self@.next_segment_id == v3.next_segment_id + k,
                self@.nodes.dom() == v3.nodes.dom(),
                self@.keeps_nodes_of(v3),
                forall|j: int|
                    0 <= j < chain.len() ==> v3.nodes.contains_key((#[trigger] chain@[j]).0),
                self@.segments.dom().len() == v3.segments.dom().len() + k,
            decreases chain.len() - 1 - k,
        {
            let ghost before = self@;
            proof {
                assert(before.nodes.contains_key(chain@[k as int].0));
                assert(before.nodes.contains_key(chain@[k + 1].0));
                lemma_add_segment_dom(
                    before,
                    chain@[k as int],
                    chain@[k + 1],
                    Seq::empty(),
                    RoadType::Dirt,
                    DEFAULT_ROAD_WIDTH,
                );
            }
            self.add_segment(chain[k], chain[k + 1], Vec::new(), RoadType::Dirt, DEFAULT_ROAD_WIDTH);
            k += 1;
        }
        chain
    }
}

/// Adding a segment adds one key to the segments and none to the nodes.
pub proof fn lemma_add_segment_dom(
    v: NetworkView,
    from: NodeId,
    to: NodeId,
    control_points: Seq<Point3>,
    road_type: RoadType,
    width: i32,
)
    requires
        v.wf(),
        v.next_segment_id < u32::MAX,
    ensures
        v.add_segment(from, to, control_points, road_type, width).nodes.dom() == v.nodes.dom(),
        v.add_segment(from, to, control_points, road_type, width).segments.dom()
            == v.segments.dom().insert(v.next_segment_id),
        v.add_segment(from, to, control_points, road_type, width).segments.dom().len()
            == v.segments.dom().len() + 1,
        v.add_segment(from, to, control_points, road_type, width).next_node_id == v.next_node_id,
{
    let id = SegmentId(v.next_segment_id);
    let v1 = NetworkView {
        segments: v.segments.insert(
            id.0,
            SegmentView { from, to, control_points, road_type, width },
        ),
        next_segment_id: (v.next_segment_id + 1) as u32,
        ..v
    };
    lemma_register(v1, from, id);
    lemma_register(v1.register(from, id), to, id);
    assert(!v.segments.contains_key(id.0));
    assert(v1.segments.dom() =~= v.segments.dom().insert(id.0));
}

} // verus!
