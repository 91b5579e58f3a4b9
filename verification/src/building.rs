//! Where a building may stand: the tests a lot must pass, the search for
//! lots along the roads, and the ranking of what the search finds.

use crate::economy::{BuildingCategory, BuildingDef};
use crate::geometry::{
    clamp_i32, dist_sq2, floor_div, is_sqrt, isqrt, lemma_product_bound, lemma_square_bound,
    saturate, sqrt_floor, Point2, Point3, UNIT,
};
use crate::lot::{
    corner_bound, corner_pairs, lot_corners, obb_overlap, overlaps, point_in_obb, Corner, Footprint,
    Lot, Rotation,
};
use crate::resources::ResourceMap;
use crate::resolver::ascending;
use crate::road::{lemma_ids_below, NetworkView, RoadNetwork, SegmentId};
use crate::spline::{sample_catmull_rom, spline_samples};
use crate::terrain::{Heightmap, TerrainConfig};
use vstd::prelude::*;

verus! {

/// From the road's centre line to the near edge of a lot.
pub const SETBACK: i32 = 3500;

/// Clear ground kept between a road's edge and a lot.
pub const ROAD_CLEARANCE: i32 = 1500;

/// The most that the ground may rise across a lot: three world units.
pub const MAX_CORNER_SPREAD: i32 = 3 * UNIT;

/// Samples taken on each span of a road's curve.
pub const CURVE_SAMPLES: usize = 4;

/// Squared distance from a corner to a point.
pub open spec fn corner_dist_sq(c: (int, int), p: Point2) -> int {
    (c.0 - p.x) * (c.0 - p.x) + (c.1 - p.y) * (c.1 - p.y)
}

/// Whether a lot crowds a point of a road of width `width`: a corner lies
/// closer to the point than half the width and the clearance together, or
/// the point lies in the lot.
pub open spec fn crowds(f: Footprint, sample: Point2, width: int) -> bool {
    let reach = width + 2 * ROAD_CLEARANCE;
    ||| reach > 0 && exists|i: int|
        0 <= i < 4 && 4 * corner_dist_sq(#[trigger] f.corners()[i], sample) < reach * reach
    ||| f.contains(sample)
}

/// The samples of the curve of segment `s`.
pub open spec fn road_samples(v: NetworkView, s: u32) -> Seq<Point3> {
    spline_samples(v.path(s), CURVE_SAMPLES as int)
}

/// Whether a lot crowds segment `s`, which has both its ends.
pub open spec fn blocked_by(v: NetworkView, f: Footprint, s: u32) -> bool {
    v.has_ends(s) && exists|j: int|
        0 <= j < road_samples(v, s).len() && crowds(
            f,
            (#[trigger] road_samples(v, s)[j]).ground(),
            v.segments[s].width as int,
        )
}

/// Whether a lot crowds any road.
pub open spec fn on_road(v: NetworkView, f: Footprint) -> bool {
    exists|s: u32| #[trigger] blocked_by(v, f, s)
}

/// Whether a lot overlaps any of `lots`.
pub open spec fn overlaps_any(f: Footprint, lots: Seq<Lot>) -> bool {
    exists|i: int| 0 <= i < lots.len() && overlaps(f, (#[trigger] lots[i]).footprint())
}

/// Elevation of the terrain under corner `i` of a lot.
pub open spec fn corner_height(heightmap: &Heightmap, f: Footprint, i: int, map_size: int) -> int {
    heightmap.height_at(
        clamp_i32(f.corners()[i].0) as int,
        clamp_i32(f.corners()[i].1) as int,
        map_size,
    )
}

/// Whether any corner of a lot stands below the water.
pub open spec fn in_water(heightmap: &Heightmap, f: Footprint, config: TerrainConfig) -> bool {
    exists|i: int|
        0 <= i < 4 && #[trigger] corner_height(heightmap, f, i, config.map_size as int)
            < config.water_level
}

/// Whether the ground rises more across a lot's corners than a building
/// can take.
pub open spec fn too_steep(heightmap: &Heightmap, f: Footprint, config: TerrainConfig) -> bool {
    exists|i: int, j: int|
        0 <= i < 4 && 0 <= j < 4 && #[trigger] corner_height(
            heightmap,
            f,
            i,
            config.map_size as int,
        ) - #[trigger] corner_height(heightmap, f, j, config.map_size as int) > MAX_CORNER_SPREAD
}

/// Whether a lot may be placed: it overlaps no other lot, crowds no road,
/// stands clear of the water, and the ground under it is level enough.
pub open spec fn placement_valid(
    f: Footprint,
    lots: Seq<Lot>,
    v: NetworkView,
    heightmap: &Heightmap,
    config: TerrainConfig,
) -> bool {
    &&& !overlaps_any(f, lots)
    &&& !on_road(v, f)
    &&& !in_water(heightmap, f, config)
    &&& !too_steep(heightmap, f, config)
}

fn corner_distance_squared(c: Corner, p: Point2) -> (d: i128)
    requires
        -corner_bound() <= c.x <= corner_bound(),
        -corner_bound() <= c.y <= corner_bound(),
    ensures
        d == corner_dist_sq((c.x as int, c.y as int), p),
        0 <= d <= 0x2_0000_0000_0000_0000_0000_0000_0000,
{
    let dx: i128 = c.x as i128 - p.x as i128;
    let dy: i128 = c.y as i128 - p.y as i128;
    proof {
        lemma_product_bound(dx as int, dx as int, 0x100_0000_0000_0000, 0x100_0000_0000_0000);
        lemma_product_bound(dy as int, dy as int, 0x100_0000_0000_0000, 0x100_0000_0000_0000);
        assert(dx * dx >= 0) by (nonlinear_arith);
        assert(dy * dy >= 0) by (nonlinear_arith);
    }
    dx * dx + dy * dy
}

fn crowds_sample(
    corners: &[Corner; 4],
    center: Point2,
    half_extents: Point2,
    rotation: Rotation,
    sample: Point2,
    width: i32,
) -> (r: bool)
    requires
        corner_pairs(*corners) == (Footprint { center, half_extents, rotation }).corners(),
        forall|i: int|
            0 <= i < 4 ==> -corner_bound() <= (#[trigger] corners[i]).x <= corner_bound()
                && -corner_bound() <= corners[i].y <= corner_bound(),
    ensures
        r == crowds(Footprint { center, half_extents, rotation }, sample, width as int),
{
    let ghost f = Footprint { center, half_extents, rotation };
    let reach: i128 = width as i128 + 2 * (ROAD_CLEARANCE as i128);
    if reach > 0 {
        proof {
            lemma_square_bound(reach as int);
        }
        let reach_sq: i128 = reach * reach;
        let mut i: usize = 0;
        while i < 4
            invariant
                i <= 4,
                reach == width + 2 * ROAD_CLEARANCE,
                reach > 0,
                reach_sq == reach * reach,
                f == (Footprint { center, half_extents, rotation }),
                corner_pairs(*corners) == f.corners(),
                forall|j: int|
                    0 <= j < 4 ==> -corner_bound() <= (#[trigger] corners[j]).x <= corner_bound()
                        && -corner_bound() <= corners[j].y <= corner_bound(),
                forall|j: int|
                    0 <= j < i ==> 4 * corner_dist_sq(#[trigger] f.corners()[j], sample)
                        >= reach_sq,
            decreases 4 - i,
        {
            let d = corner_distance_squared(corners[i], sample);
            assert(corner_pairs(*corners)[i as int] == (
                corners[i as int].x as int,
                corners[i as int].y as int,
            ));
            if 4 * d < reach_sq {
                assert(4 * corner_dist_sq(f.corners()[i as int], sample) < reach * reach);
                return true;
            }
            i += 1;
        }
    }
    point_in_obb(sample, center, half_extents, rotation)
}

/// Whether a lot crowds one segment of the network.
fn blocked_by_segment(
    network: &RoadNetwork,
    id: SegmentId,
    corners: &[Corner; 4],
    center: Point2,
    half_extents: Point2,
    rotation: Rotation,
) -> (r: bool)
    requires
        corner_pairs(*corners) == (Footprint { center, half_extents, rotation }).corners(),
        forall|i: int|
            0 <= i < 4 ==> -corner_bound() <= (#[trigger] corners[i]).x <= corner_bound()
                && -corner_bound() <= corners[i].y <= corner_bound(),
    ensures
        r == blocked_by(network@, Footprint { center, half_extents, rotation }, id.0),
{
    let ghost f = Footprint { center, half_extents, rotation };
    let path = match network.segment_path(id) {
        Some(path) => path,
        None => {
            return false;
        },
    };
    let width = match network.segment(id) {
        Some(segment) => segment.width,
        None => {
            return false;
        },
    };
    let samples = sample_catmull_rom(path.as_slice(), CURVE_SAMPLES);
    let mut j: usize = 0;
    while j < samples.len()
        invariant
            j <= samples.len(),
            f == (Footprint { center, half_extents, rotation }),
            network@.has_ends(id.0),
            width == network@.segments[id.0].width,
            samples@ == road_samples(network@, id.0),
            corner_pairs(*corners) == f.corners(),
            forall|i: int|
                0 <= i < 4 ==> -corner_bound() <= (#[trigger] corners[i]).x <= corner_bound()
                    && -corner_bound() <= corners[i].y <= corner_bound(),
            forall|k: int|
                0 <= k < j ==> !crowds(
                    f,
                    (#[trigger] road_samples(network@, id.0)[k]).ground(),
                    width as int,
                ),
        decreases samples.len() - j,
    {
        if crowds_sample(corners, center, half_extents, rotation, samples[j].xz(), width) {
            assert(crowds(f, road_samples(network@, id.0)[j as int].ground(), width as int));
            return true;
        }
        j += 1;
    }
    false
}

/// Whether a lot may be placed. The tests, in order: it overlaps none of
/// `lots`; it crowds no road; none of its corners stands below the water;
/// the ground does not rise more than three world units across its corners.
pub fn validate_placement(
    center: Point2,
    half_extents: Point2,
    rotation: Rotation,
    lots: &[Lot],
    road_network: &RoadNetwork,
    heightmap: &Heightmap,
    config: &TerrainConfig,
) -> (valid: bool)
    requires
        heightmap.wf(),
        config.map_size > 0,
    ensures
        valid == placement_valid(
            Footprint { center, half_extents, rotation },
            lots@,
            road_network@,
            heightmap,
            *config,
        ),
{
    let ghost f = Footprint { center, half_extents, rotation };
    let mut i: usize = 0;
    while i < lots.len()
        invariant
            i <= lots.len(),
            f == (Footprint { center, half_extents, rotation }),
            forall|k: int| 0 <= k < i ==> !overlaps(f, (#[trigger] lots@[k]).footprint()),
        decreases lots.len() - i,
    {
        let lot = lots[i];
        if obb_overlap(center, half_extents, rotation, lot.center, lot.half_extents, lot.rotation) {
            assert(overlaps(f, lots@[i as int].footprint()));
            return false;
        }
        i += 1;
    }
    let corners = lot_corners(center, half_extents, rotation);
    let ids = road_network.segment_ids();
    proof {
        use_type_invariant(road_network);
    }
    let mut s: usize = 0;
    while s < ids.len()
        invariant
            s <= ids.len(),
            f == (Footprint { center, half_extents, rotation }),
            ids@ == road_network@.segment_ids(),
            corner_pairs(corners) == f.corners(),
            forall|k: int|
                0 <= k < 4 ==> -corner_bound() <= (#[trigger] corners[k]).x <= corner_bound()
                    && -corner_bound() <= corners[k].y <= corner_bound(),
            forall|k: int| 0 <= k < s ==> !blocked_by(road_network@, f, (#[trigger] ids@[k]).0),
        decreases ids.len() - s,
    {
        if blocked_by_segment(road_network, ids[s], &corners, center, half_extents, rotation) {
            assert(blocked_by(road_network@, f, ids@[s as int].0));
            return false;
        }
        s += 1;
    }
    proof {
        lemma_ids_below(road_network@.segments, road_network@.next_segment_id as nat);
        assert forall|k: u32| !#[trigger] blocked_by(road_network@, f, k) by {
            if blocked_by(road_network@, f, k) {
                assert(road_network@.segments.contains_key(k));
                assert(ids@.contains(SegmentId(k)));
                let m = choose|m: int| 0 <= m < ids@.len() && ids@[m] == SegmentId(k);
                assert(!blocked_by(road_network@, f, ids@[m].0));
            }
        }
    }
    let mut min_h: i32 = i32::MAX;
    let mut max_h: i32 = i32::MIN;
    let mut c: usize = 0;
    while c < 4
        invariant
            c <= 4,
            heightmap.wf(),
            config.map_size > 0,
            f == (Footprint { center, half_extents, rotation }),
            corner_pairs(corners) == f.corners(),
            forall|k: int|
                0 <= k < c ==> config.water_level <= #[trigger] corner_height(
                    heightmap,
                    f,
                    k,
                    config.map_size as int,
                ),
            forall|k: int|
                0 <= k < c ==> min_h <= #[trigger] corner_height(
                    heightmap,
                    f,
                    k,
                    config.map_size as int,
                ) <= max_h,
            c == 0 ==> min_h == i32::MAX && max_h == i32::MIN,
            c > 0 ==> exists|k: int|
                0 <= k < c && min_h == #[trigger] corner_height(
                    heightmap,
                    f,
                    k,
                    config.map_size as int,
                ),
            c > 0 ==> exists|k: int|
                0 <= k < c && max_h == #[trigger] corner_height(
                    heightmap,
                    f,
                    k,
                    config.map_size as int,
                ),
        decreases 4 - c,
    {
        let corner = corners[c];
        assert(corner_pairs(corners)[c as int] == (corner.x as int, corner.y as int));
        let h = heightmap.sample_world(
            saturate(corner.x as i128),
            saturate(corner.y as i128),
            config.map_size,
        );
        assert(h == corner_height(heightmap, f, c as int, config.map_size as int));
        if h < config.water_level {
            return false;
        }
        if h < min_h {
            min_h = h;
        }
        if h > max_h {
            max_h = h;
        }
        c += 1;
    }
    max_h as i64 - min_h as i64 <= MAX_CORNER_SPREAD as i64
}

/// The side of a road, for one who walks it from its first end to its
/// second.
#[derive(Clone, Copy, Debug, PartialEq, Eq, Structural)]
pub enum Side {
    Left,
    Right,
}

/// A lot that could be built on.
#[derive(Clone, Copy, Debug, PartialEq, Eq, Structural)]
pub struct Candidate {
    /// The lot's centre on the terrain.
    pub position: Point3,
    pub lot_center: Point2,
    pub rotation: Rotation,
    /// The segment the lot lies on.
    pub segment_id: SegmentId,
    /// The side of the segment the lot lies on.
    pub side: Side,
}

/// Two samples closer than a tenth of a world unit give no direction: the
/// square of that distance.
pub const MIN_TANGENT_SQ: i128 = 10_000;

/// Squared length on the ground of the step from `p0` to `p1`.
pub open spec fn tangent_sq(p0: Point3, p1: Point3) -> int {
    dist_sq2(p1.ground(), p0.ground())
}

/// The direction on the ground from `p0` to `p1`, as a vector of length
/// `UNIT`, each coordinate rounded down.
pub open spec fn heading(p0: Point3, p1: Point3) -> Rotation {
    let len = sqrt_floor(tangent_sq(p0, p1));
    Rotation {
        cos: (((p1.x - p0.x) * UNIT) / len) as i32,
        sin: (((p1.z - p0.z) * UNIT) / len) as i32,
    }
}

/// From a point of the road to the centre of a lot of half depth `depth`
/// on its right: the setback and the half depth along the perpendicular.
pub open spec fn lot_offset(dir: Rotation, depth: int) -> (int, int) {
    (((-dir.sin) * (SETBACK + depth)) / (UNIT as int), (dir.cos * (SETBACK + depth)) / (
    UNIT as int))
}

/// The centre of the lot beside road point `p0` on side `side`.
pub open spec fn side_center(p0: Point3, dir: Rotation, depth: int, side: Side) -> Point2 {
    let off = lot_offset(dir, depth);
    match side {
        Side::Left => Point2 { x: clamp_i32(p0.x - off.0), y: clamp_i32(p0.z - off.1) },
        Side::Right => Point2 { x: clamp_i32(p0.x + off.0), y: clamp_i32(p0.z + off.1) },
    }
}

/// How a lot on side `side` is turned: along the road on the right,
/// against it on the left.
pub open spec fn side_rotation(dir: Rotation, side: Side) -> Rotation {
    match side {
        Side::Left => dir.reversed(),
        Side::Right => dir,
    }
}

/// Whether a lot centred at `center` would stand closer than a lot's width
/// to the lot last accepted on its side.
pub open spec fn too_near(center: Point2, last: Option<Point2>, half_width: int) -> bool {
    match last {
        Some(prev) => half_width > 0 && dist_sq2(center, prev) < (2 * half_width) * (2
            * half_width),
        None => false,
    }
}

/// How far the walk along one segment has come: the candidates found, and
/// the centre of the last one on each side.
pub struct Walk {
    pub found: Seq<Candidate>,
    pub last_left: Option<Point2>,
    pub last_right: Option<Point2>,
}

/// All that a search for lots reads.
pub struct Survey {
    /// Half extents of the lot searched for.
    pub half_extents: Point2,
    /// The lots that stand.
    pub lots: Seq<Lot>,
    pub network: NetworkView,
    pub heights: Heightmap,
    pub config: TerrainConfig,
}

impl Survey {
    /// The lot beside road point `p0` on side `side`.
    pub open spec fn footprint(self, p0: Point3, dir: Rotation, side: Side) -> Footprint {
        Footprint {
            center: side_center(p0, dir, self.half_extents.y as int, side),
            half_extents: self.half_extents,
            rotation: side_rotation(dir, side),
        }
    }

    /// Whether the lot beside road point `p0` on side `side` is accepted:
    /// it is not too near the last one on its side, and it may be placed.
    pub open spec fn accepts(self, walk: Walk, p0: Point3, dir: Rotation, side: Side) -> bool {
        let last = match side {
            Side::Left => walk.last_left,
            Side::Right => walk.last_right,
        };
        !too_near(self.footprint(p0, dir, side).center, last, self.half_extents.x as int)
            && placement_valid(
            self.footprint(p0, dir, side),
            self.lots,
            self.network,
            &self.heights,
            self.config,
        )
    }

    /// The candidate beside road point `p0` on side `side`.
    pub open spec fn candidate(
        self,
        p0: Point3,
        dir: Rotation,
        id: SegmentId,
        side: Side,
    ) -> Candidate {
        let f = self.footprint(p0, dir, side);
        Candidate {
            position: Point3 {
                x: f.center.x,
                y: self.heights.height_at(
                    f.center.x as int,
                    f.center.y as int,
                    self.config.map_size as int,
                ) as i32,
                z: f.center.y,
            },
            lot_center: f.center,
            rotation: f.rotation,
            segment_id: id,
            side,
        }
    }

    /// The walk after trying the lot beside `p0` on side `side`.
    pub open spec fn try_side(
        self,
        walk: Walk,
        p0: Point3,
        dir: Rotation,
        id: SegmentId,
        side: Side,
    ) -> Walk {
        if self.accepts(walk, p0, dir, side) {
            let c = self.candidate(p0, dir, id, side);
            match side {
                Side::Left => Walk {
                    found: walk.found.push(c),
                    last_left: Some(c.lot_center),
                    last_right: walk.last_right,
                },
                Side::Right => Walk {
                    found: walk.found.push(c),
                    last_left: walk.last_left,
                    last_right: Some(c.lot_center),
                },
            }
        } else {
            walk
        }
    }

    /// The walk after the step from sample `p0` to sample `p1`: the left
    /// side is tried, then the right. Samples too close together are passed
    /// over.
    pub open spec fn step(self, walk: Walk, p0: Point3, p1: Point3, id: SegmentId) -> Walk {
        if tangent_sq(p0, p1) < MIN_TANGENT_SQ {
            walk
        } else {
            let dir = heading(p0, p1);
            self.try_side(self.try_side(walk, p0, dir, id, Side::Left), p0, dir, id, Side::Right)
        }
    }

    /// The walk after the first `steps` steps along `samples`.
    pub open spec fn walk(self, samples: Seq<Point3>, id: SegmentId, steps: nat) -> Walk
        decreases steps,
    {
        if steps == 0 {
            Walk { found: Seq::empty(), last_left: None, last_right: None }
        } else {
            self.step(
                self.walk(samples, id, (steps - 1) as nat),
                samples[steps - 1],
                samples[steps as int],
                id,
            )
        }
    }

    /// The candidates along segment `s`, in the order of the walk. A
    /// segment with a missing end has none.
    pub open spec fn along_segment(self, s: u32) -> Seq<Candidate> {
        if self.network.has_ends(s) {
            self.walk(
                road_samples(self.network, s),
                SegmentId(s),
                (road_samples(self.network, s).len() - 1) as nat,
            ).found
        } else {
            Seq::empty()
        }
    }

    /// The candidates along the segments `ids`, in the order of `ids`.
    pub open spec fn along(self, ids: Seq<SegmentId>) -> Seq<Candidate>
        decreases ids.len(),
    {
        if ids.len() == 0 {
            Seq::empty()
        } else {
            self.along(ids.drop_last()) + self.along_segment(ids.last().0)
        }
    }

    /// Every candidate, segment by segment in ascending order of id.
    pub open spec fn candidates(self) -> Seq<Candidate> {
        self.along(self.network.segment_ids())
    }
}

/// A coordinate of a step is no longer than the step.
proof fn lemma_leg_bound(t: int, other: int, len: int)
    by (nonlinear_arith)
    requires
        is_sqrt(t * t + other * other, len),
    ensures
        -len <= t <= len,
{
}

/// A leg scaled to a hypotenuse of `UNIT` is no longer than `UNIT`.
proof fn lemma_unit_leg(t: int, len: int)
    by (nonlinear_arith)
    requires
        -len <= t <= len,
        len > 0,
    ensures
        -1000 <= (t * 1000) / len <= 1000,
{
}

/// The direction on the ground from `p0` to `p1`.
fn heading_between(p0: Point3, p1: Point3, len_sq: i128) -> (dir: Rotation)
    requires
        len_sq == tangent_sq(p0, p1),
        len_sq >= MIN_TANGENT_SQ,
    ensures
        dir == heading(p0, p1),
        -UNIT <= dir.cos <= UNIT,
        -UNIT <= dir.sin <= UNIT,
{
    let len = isqrt(len_sq as u128);
    let tx: i128 = p1.x as i128 - p0.x as i128;
    let tz: i128 = p1.z as i128 - p0.z as i128;
    proof {
        lemma_leg_bound(tx as int, tz as int, len as int);
        assert(tz * tz + tx * tx == tx * tx + tz * tz);
        lemma_leg_bound(tz as int, tx as int, len as int);
        assert(len > 0) by (nonlinear_arith)
            requires
                (len + 1) * (len + 1) > len_sq,
                len_sq >= 10_000,
                len >= 0,
        ;
        lemma_unit_leg(tx as int, len as int);
        lemma_unit_leg(tz as int, len as int);
    }
    let cos = floor_div(tx * (UNIT as i128), len as i128);
    let sin = floor_div(tz * (UNIT as i128), len as i128);
    Rotation { cos: cos as i32, sin: sin as i32 }
}

/// The centre of the lot beside road point `p0` on side `side`.
fn center_beside(p0: Point3, dir: Rotation, depth: i32, side: Side) -> (c: Point2)
    requires
        -UNIT <= dir.cos <= UNIT,
        -UNIT <= dir.sin <= UNIT,
    ensures
        c == side_center(p0, dir, depth as int, side),
{
    let reach: i128 = SETBACK as i128 + depth as i128;
    proof {
        lemma_product_bound(-(dir.sin as int), reach as int, 1000, 0x1_0000_0000);
        lemma_product_bound(dir.cos as int, reach as int, 1000, 0x1_0000_0000);
        lemma_offset_bound((-(dir.sin as int)) * reach as int);
        lemma_offset_bound(dir.cos as int * reach as int);
    }
    let off_x = floor_div((-(dir.sin as i128)) * reach, UNIT as i128);
    let off_z = floor_div((dir.cos as i128) * reach, UNIT as i128);
    match side {
        Side::Left => Point2 {
            x: saturate(p0.x as i128 - off_x),
            y: saturate(p0.z as i128 - off_z),
        },
        Side::Right => Point2 {
            x: saturate(p0.x as i128 + off_x),
            y: saturate(p0.z as i128 + off_z),
        },
    }
}

proof fn lemma_offset_bound(n: int)
    by (nonlinear_arith)
    requires
        -1000 * 0x1_0000_0000 <= n <= 1000 * 0x1_0000_0000,
    ensures
        -0x1_0000_0000 <= n / 1000 <= 0x1_0000_0000,
{
}

/// Tries the lot beside road point `p0` on side `side`, and appends it to
/// `out` if it is accepted. Returns the centre of the lot last accepted on
/// that side.
fn try_side(
    def: &BuildingDef,
    road_network: &RoadNetwork,
    heightmap: &Heightmap,
    config: &TerrainConfig,
    existing_lots: &[Lot],
    p0: Point3,
    dir: Rotation,
    id: SegmentId,
    side: Side,
    last: Option<Point2>,
    out: &mut Vec<Candidate>,
    Ghost(survey): Ghost<Survey>,
    Ghost(walk): Ghost<Walk>,
    Ghost(base): Ghost<Seq<Candidate>>,
) -> (r: Option<Point2>)
    requires
        survey == (Survey {
            half_extents: def.lot_half_extents,
            lots: existing_lots@,
            network: road_network@,
            heights: *heightmap,
            config: *config,
        }),
        heightmap.wf(),
        config.map_size > 0,
        -UNIT <= dir.cos <= UNIT,
        -UNIT <= dir.sin <= UNIT,
        last == (match side {
            Side::Left => walk.last_left,
            Side::Right => walk.last_right,
        }),
        old(out)@ == base + walk.found,
    ensures
        final(out)@ == base + survey.try_side(walk, p0, dir, id, side).found,
        r == (match side {
            Side::Left => survey.try_side(walk, p0, dir, id, side).last_left,
            Side::Right => survey.try_side(walk, p0, dir, id, side).last_right,
        }),
{
    let half_extents = def.lot_half_extents;
    let center = center_beside(p0, dir, half_extents.y, side);
    if let Some(prev) = last {
        let spacing: i128 = 2 * (half_extents.x as i128);
        if spacing > 0 {
            proof {
                lemma_square_bound(spacing as int);
            }
            if center.distance_squared(&prev) < spacing * spacing {
                return last;
            }
        }
    }
    let rotation = match side {
        Side::Left => dir.reverse(),
        Side::Right => dir,
    };
    if validate_placement(
        center,
        half_extents,
        rotation,
        existing_lots,
        road_network,
        heightmap,
        config,
    ) {
        let y = heightmap.sample_world(center.x, center.y, config.map_size);
        out.push(
            Candidate {
                position: Point3 { x: center.x, y, z: center.y },
                lot_center: center,
                rotation,
                segment_id: id,
                side,
            },
        );
        assert(out@ =~= base + survey.try_side(walk, p0, dir, id, side).found);
        Some(center)
    } else {
        last
    }
}

/// Takes the step of the walk from sample `p0` to sample `p1`: tries a lot
/// on the left, then on the right. Returns the centres of the lots last
/// accepted on the left and on the right.
fn walk_step(
    def: &BuildingDef,
    road_network: &RoadNetwork,
    heightmap: &Heightmap,
    config: &TerrainConfig,
    existing_lots: &[Lot],
    p0: Point3,
    p1: Point3,
    id: SegmentId,
    last: (Option<Point2>, Option<Point2>),
    out: &mut Vec<Candidate>,
    Ghost(survey): Ghost<Survey>,
    Ghost(walk): Ghost<Walk>,
    Ghost(base): Ghost<Seq<Candidate>>,
) -> (r: (Option<Point2>, Option<Point2>))
    requires
        survey == (Survey {
            half_extents: def.lot_half_extents,
            lots: existing_lots@,
            network: road_network@,
            heights: *heightmap,
            config: *config,
        }),
        heightmap.wf(),
        config.map_size > 0,
        last == (walk.last_left, walk.last_right),
        old(out)@ == base + walk.found,
    ensures
        final(out)@ == base + survey.step(walk, p0, p1, id).found,
        r == (survey.step(walk, p0, p1, id).last_left, survey.step(walk, p0, p1, id).last_right),
{
    let len_sq = p1.xz().distance_squared(&p0.xz());
    if len_sq < MIN_TANGENT_SQ {
        return last;
    }
    let dir = heading_between(p0, p1, len_sq);
    let ghost after_left = survey.try_side(walk, p0, dir, id, Side::Left);
    let left = try_side(
        def,
        road_network,
        heightmap,
        config,
        existing_lots,
        p0,
        dir,
        id,
        Side::Left,
        last.0,
        out,
        Ghost(survey),
        Ghost(walk),
        Ghost(base),
    );
    let right = try_side(
        def,
        road_network,
        heightmap,
        config,
        existing_lots,
        p0,
        dir,
        id,
        Side::Right,
        last.1,
        out,
        Ghost(survey),
        Ghost(after_left),
        Ghost(base),
    );
    (left, right)
}

/// Walks one segment and appends its candidates to `out`.
fn walk_segment(
    def: &BuildingDef,
    road_network: &RoadNetwork,
    heightmap: &Heightmap,
    config: &TerrainConfig,
    existing_lots: &[Lot],
    id: SegmentId,
    out: &mut Vec<Candidate>,
    Ghost(survey): Ghost<Survey>,
)
    requires
        survey == (Survey {
            half_extents: def.lot_half_extents,
            lots: existing_lots@,
            network: road_network@,
            heights: *heightmap,
            config: *config,
        }),
        heightmap.wf(),
        config.map_size > 0,
    ensures
        final(out)@ == old(out)@ + survey.along_segment(id.0),
{
    let ghost base = out@;
    let path = match road_network.segment_path(id) {
        Some(path) => path,
        None => {
            assert(out@ =~= base + survey.along_segment(id.0));
            return ;
        },
    };
    let samples = sample_catmull_rom(path.as_slice(), CURVE_SAMPLES);
    if samples.len() < 2 {
        assert(out@ =~= base + survey.along_segment(id.0));
        return ;
    }
    let mut last: (Option<Point2>, Option<Point2>) = (None, None);
    let ghost mut walk = Walk { found: Seq::empty(), last_left: None, last_right: None };
    let mut i: usize = 0;
    assert(out@ =~= base + walk.found);
    while i < samples.len() - 1
        invariant
            samples.len() >= 2,
            i <= samples.len() - 1,
            survey == (Survey {
                half_extents: def.lot_half_extents,
                lots: existing_lots@,
                network: road_network@,
                heights: *heightmap,
                config: *config,
            }),
            heightmap.wf(),
            config.map_size > 0,
            walk == survey.walk(samples@, id, i as nat),
            last == (walk.last_left, walk.last_right),
            out@ == base + walk.found,
        decreases samples.len() - 1 - i,
    {
        last =
        walk_step(
            def,
            road_network,
            heightmap,
            config,
            existing_lots,
            samples[i],
            samples[i + 1],
            id,
            last,
            out,
            Ghost(survey),
            Ghost(walk),
            Ghost(base),
        );
        proof {
            walk = survey.step(walk, samples@[i as int], samples@[i + 1], id);
        }
        i += 1;
    }
}

/// Finds every lot along the roads where a building of kind `def` could
/// stand.
///
/// Each segment with both its ends is walked along its curve, segment by
/// segment in ascending order of id. At each sample a lot is tried on the
/// left and on the right, set back from the road. A lot is passed over if
/// it stands closer than its own width to the last one accepted on its side
/// of the segment, or if it may not be placed.
pub fn find_candidates(
    def: &BuildingDef,
    road_network: &RoadNetwork,
    heightmap: &Heightmap,
    config: &TerrainConfig,
    existing_lots: &[Lot],
) -> (candidates: Vec<Candidate>)
    requires
        heightmap.wf(),
        config.map_size > 0,
    ensures
        candidates@ == (Survey {
            half_extents: def.lot_half_extents,
            lots: existing_lots@,
            network: road_network@,
            heights: *heightmap,
            config: *config,
        }).candidates(),
        def.lot_half_extents.x >= 0 ==> spaced(candidates@, def.lot_half_extents.x as int),
{
    let ghost survey = Survey {
        half_extents: def.lot_half_extents,
        lots: existing_lots@,
        network: road_network@,
        heights: *heightmap,
        config: *config,
    };
    let ids = road_network.segment_ids();
    let mut candidates: Vec<Candidate> = Vec::new();
    let mut i: usize = 0;
    while i < ids.len()
        invariant
            i <= ids.len(),
            survey == (Survey {
                half_extents: def.lot_half_extents,
                lots: existing_lots@,
                network: road_network@,
                heights: *heightmap,
                config: *config,
            }),
                heightmap.wf(),
            config.map_size > 0,
            ids@ == road_network@.segment_ids(),
            candidates@ == survey.along(ids@.take(i as int)),
        decreases ids.len() - i,
    {
        assert(ids@.take(i + 1).drop_last() =~= ids@.take(i as int));
        walk_segment(
            def,
            road_network,
            heightmap,
            config,
            existing_lots,
            ids[i],
            &mut candidates,
            Ghost(survey),
        );
        i += 1;
    }
    proof {
        assert(ids@.take(i as int) =~= ids@);
        if def.lot_half_extents.x >= 0 {
            lemma_candidates_spaced(survey);
        }
    }
    candidates
}

/// Two candidates lie on the same side of the same segment.
pub open spec fn same_row(a: Candidate, b: Candidate) -> bool {
    a.segment_id == b.segment_id && a.side == b.side
}

/// Candidate `j` follows candidate `i` on its side of its segment, with
/// none between them there.
pub open spec fn successive(found: Seq<Candidate>, i: int, j: int) -> bool {
    &&& 0 <= i < j < found.len()
    &&& same_row(found[i], found[j])
    &&& forall|k: int| i < k < j ==> !same_row(#[trigger] found[k], found[j])
}

/// Two lot centres are at least a lot's width apart.
pub open spec fn apart(a: Point2, b: Point2, half_width: int) -> bool {
    dist_sq2(a, b) >= (2 * half_width) * (2 * half_width)
}

/// Each candidate is at least a lot's width from the one before it on its
/// side of its segment.
pub open spec fn spaced(found: Seq<Candidate>, half_width: int) -> bool {
    forall|i: int, j: int| #[trigger]
        successive(found, i, j) ==> apart(found[j].lot_center, found[i].lot_center, half_width)
}

/// The centre of the last candidate on side `side`.
pub open spec fn last_on(found: Seq<Candidate>, side: Side) -> Option<Point2>
    decreases found.len(),
{
    if found.len() == 0 {
        None
    } else if found.last().side == side {
        Some(found.last().lot_center)
    } else {
        last_on(found.drop_last(), side)
    }
}

/// The last candidate on a side is the one that no later one on that side
/// follows.
proof fn lemma_last_on(found: Seq<Candidate>, side: Side, i: int)
    requires
        0 <= i < found.len(),
        found[i].side == side,
        forall|k: int| i < k < found.len() ==> (#[trigger] found[k]).side != side,
    ensures
        last_on(found, side) == Some(found[i].lot_center),
    decreases found.len(),
{
    if i < found.len() - 1 {
        assert(found[found.len() - 1].side != side);
        lemma_last_on(found.drop_last(), side, i);
    }
}

/// What holds of a walk at every step: all its candidates are on the
/// walked segment, the last centre on each side is remembered, and the
/// candidates are spaced.
pub open spec fn walk_inv(w: Walk, id: SegmentId, half_width: int) -> bool {
    &&& forall|k: int| 0 <= k < w.found.len() ==> (#[trigger] w.found[k]).segment_id == id
    &&& w.last_left == last_on(w.found, Side::Left)
    &&& w.last_right == last_on(w.found, Side::Right)
    &&& spaced(w.found, half_width)
}

proof fn lemma_try_side(survey: Survey, w: Walk, p0: Point3, dir: Rotation, id: SegmentId, side: Side)
    requires
        walk_inv(w, id, survey.half_extents.x as int),
        survey.half_extents.x >= 0,
    ensures
        walk_inv(survey.try_side(w, p0, dir, id, side), id, survey.half_extents.x as int),
{
    let hw = survey.half_extents.x as int;
    let r = survey.try_side(w, p0, dir, id, side);
    if survey.accepts(w, p0, dir, side) {
        let c = survey.candidate(p0, dir, id, side);
        let n = w.found.len() as int;
        assert(r.found.drop_last() =~= w.found);
        assert forall|i: int, j: int| #[trigger] successive(r.found, i, j) implies apart(
            r.found[j].lot_center,
            r.found[i].lot_center,
            hw,
        ) by {
            if j < n {
                // both were there before, with the same lots between them
                assert forall|k: int| i < k < j implies !same_row(
                    #[trigger] w.found[k],
                    w.found[j],
                ) by {
                    assert(r.found[k] == w.found[k]);
                }
                assert(successive(w.found, i, j));
            } else {
                // the new lot follows the last one on its side, from which
                // it was found to be far enough
                assert forall|k: int| i < k < n implies (#[trigger] w.found[k]).side != side by {
                    assert(!same_row(r.found[k], r.found[j]));
                }
                lemma_last_on(w.found, side, i);
                lemma_square_bound(c.lot_center.x - w.found[i].lot_center.x);
                lemma_square_bound(c.lot_center.y - w.found[i].lot_center.y);
                if hw == 0 {
                    assert((2 * hw) * (2 * hw) == 0) by (nonlinear_arith)
                        requires
                            hw == 0,
                    ;
                }
            }
        }
    }
}

/// The candidates of a walk are all on the walked segment, and spaced.
pub proof fn lemma_walk(survey: Survey, samples: Seq<Point3>, id: SegmentId, steps: nat)
    requires
        survey.half_extents.x >= 0,
    ensures
        walk_inv(survey.walk(samples, id, steps), id, survey.half_extents.x as int),
    decreases steps,
{
    if steps > 0 {
        let before = survey.walk(samples, id, (steps - 1) as nat);
        lemma_walk(survey, samples, id, (steps - 1) as nat);
        let p0 = samples[steps - 1];
        let p1 = samples[steps as int];
        if tangent_sq(p0, p1) >= MIN_TANGENT_SQ {
            let dir = heading(p0, p1);
            lemma_try_side(survey, before, p0, dir, id, Side::Left);
            lemma_try_side(
                survey,
                survey.try_side(before, p0, dir, id, Side::Left),
                p0,
                dir,
                id,
                Side::Right,
            );
        }
    }
}

/// The candidates along ascending segments are on those segments, and
/// spaced.
pub proof fn lemma_along(survey: Survey, ids: Seq<SegmentId>)
    requires
        survey.half_extents.x >= 0,
        ascending(ids),
    ensures
        forall|k: int|
            0 <= k < survey.along(ids).len() ==> ids.contains(
                (#[trigger] survey.along(ids)[k]).segment_id,
            ),
        spaced(survey.along(ids), survey.half_extents.x as int),
    decreases ids.len(),
{
    let hw = survey.half_extents.x as int;
    if ids.len() > 0 {
        let head = ids.drop_last();
        let s = ids.last();
        let a = survey.along(head);
        let b = survey.along_segment(s.0);
        let all = survey.along(ids);
        assert forall|i: int, j: int| 0 <= i < j < head.len() implies (#[trigger] head[i]).0 < (
        #[trigger] head[j]).0 by {
            assert(head[i] == ids[i] && head[j] == ids[j]);
        }
        lemma_along(survey, head);
        if survey.network.has_ends(s.0) {
            lemma_walk(
                survey,
                road_samples(survey.network, s.0),
                SegmentId(s.0),
                (road_samples(survey.network, s.0).len() - 1) as nat,
            );
        }
        assert(spaced(b, hw));
        assert forall|k: int| 0 <= k < b.len() implies (#[trigger] b[k]).segment_id == s by {}
        assert forall|k: int| 0 <= k < a.len() implies (#[trigger] a[k]).segment_id != s by {
            assert(head.contains(a[k].segment_id));
            let m = choose|m: int| 0 <= m < head.len() && head[m] == a[k].segment_id;
            assert(ids[m].0 < ids[ids.len() - 1].0);
        }
        assert forall|k: int| 0 <= k < all.len() implies ids.contains(
            (#[trigger] all[k]).segment_id,
        ) by {
            if k < a.len() {
                assert(all[k] == a[k]);
                assert(head.contains(a[k].segment_id));
                let m = choose|m: int| 0 <= m < head.len() && head[m] == a[k].segment_id;
                assert(ids[m] == all[k].segment_id);
            } else {
                assert(all[k] == b[k - a.len()]);
                assert(ids[ids.len() - 1] == all[k].segment_id);
            }
        }
        assert forall|i: int, j: int| #[trigger] successive(all, i, j) implies apart(
            all[j].lot_center,
            all[i].lot_center,
            hw,
        ) by {
            let n = a.len() as int;
            if j < n {
                assert(all[i] == a[i] && all[j] == a[j]);
                assert forall|k: int| i < k < j implies !same_row(#[trigger] a[k], a[j]) by {
                    assert(all[k] == a[k]);
                }
                assert(successive(a, i, j));
            } else {
                assert(all[j] == b[j - n]);
                if i < n {
                    assert(all[i] == a[i]);
                    assert(a[i].segment_id != s);
                } else {
                    assert(all[i] == b[i - n]);
                    assert forall|k: int| i - n < k < j - n implies !same_row(
                        #[trigger] b[k],
                        b[j - n],
                    ) by {
                        assert(all[k + n] == b[k]);
                    }
                    assert(successive(b, i - n, j - n));
                }
            }
        }
    }
}

/// Of the candidates that a search finds, each is at least a lot's width,
/// centre to centre, from the one before it on its side of its segment.
pub proof fn lemma_candidates_spaced(survey: Survey)
    requires
        survey.half_extents.x >= 0,
    ensures
        spaced(survey.candidates(), survey.half_extents.x as int),
{
    lemma_ids_below(survey.network.segments, survey.network.next_segment_id as nat);
    lemma_along(survey, survey.network.segment_ids());
}

/// Weight of the terrain's flatness in a score.
pub const FLATNESS_WEIGHT: i128 = 2;

/// Weight of the resource's richness in a producer's score.
pub const RICHNESS_WEIGHT: i128 = 8;

/// What each home nearby costs a producer: two points.
pub const CROWDING_PENALTY: i128 = 2000;

/// How near a home must be to count for crowding or for company: twenty
/// world units.
pub const NEIGHBOUR_RADIUS: i32 = 20 * UNIT;

/// How near a producer must be to count as work for a home: fifty world
/// units.
pub const WORK_RADIUS: i32 = 50 * UNIT;

/// What each producer nearby is worth to a home: two points.
pub const WORK_BONUS: i128 = 2000;

/// The most that producers nearby are worth to a home: six points.
pub const WORK_BONUS_CAP: i128 = 6000;

/// What each home nearby is worth to a home: half a point.
pub const COMPANY_BONUS: i128 = 500;

/// The most that homes nearby are worth to a home: two points.
pub const COMPANY_BONUS_CAP: i128 = 2000;

/// Whether a building is of category `category` and stands, on the ground,
/// closer than `radius` to `pos`.
pub open spec fn counts_near(
    building: (Point3, usize),
    defs: Seq<BuildingDef>,
    category: BuildingCategory,
    pos: Point2,
    radius: int,
) -> bool {
    defs[building.1 as int].category == category && dist_sq2(building.0.ground(), pos) < radius
        * radius
}

/// How many of `buildings` are of category `category` and stand closer than
/// `radius` to `pos`.
pub open spec fn count_near(
    buildings: Seq<(Point3, usize)>,
    defs: Seq<BuildingDef>,
    category: BuildingCategory,
    pos: Point2,
    radius: int,
) -> nat
    decreases buildings.len(),
{
    if buildings.len() == 0 {
        0
    } else {
        count_near(buildings.drop_last(), defs, category, pos, radius) + (if counts_near(
            buildings.last(),
            defs,
            category,
            pos,
            radius,
        ) {
            1nat
        } else {
            0nat
        })
    }
}

/// What the resource under a site is worth to a building of kind `def`:
/// its richness, weighted, if it is the resource that the kind extracts.
pub open spec fn resource_bonus(def: BuildingDef, cell: Option<crate::resources::ResourceCell>) -> int {
    match cell {
        Some(c) => if def.extracts_from == Some(c.resource) {
            c.richness * RICHNESS_WEIGHT
        } else {
            0
        },
        None => 0,
    }
}

/// The lesser of two numbers.
pub open spec fn at_most(v: int, cap: int) -> int {
    if v < cap {
        v
    } else {
        cap
    }
}

/// How desirable a site is for a building of kind `def`, in thousandths of
/// a point.
///
/// Level ground is worth up to two points to every kind. A producer gains
/// up to eight points for the resource under it and loses two for each home
/// nearby. A home gains two points for each producer within reach of work,
/// six at most, and half a point for each home nearby, two at most.
pub open spec fn score_of(
    candidate: Candidate,
    def: BuildingDef,
    buildings: Seq<(Point3, usize)>,
    defs: Seq<BuildingDef>,
    heightmap: &Heightmap,
    config: TerrainConfig,
    resource_map: &ResourceMap,
) -> int {
    let pos = candidate.position;
    let flat = heightmap.flatness_at(pos.x as int, pos.z as int, config.map_size as int)
        * FLATNESS_WEIGHT;
    let homes = count_near(
        buildings,
        defs,
        BuildingCategory::Residential,
        pos.ground(),
        NEIGHBOUR_RADIUS as int,
    );
    match def.category {
        BuildingCategory::Producer => flat + resource_bonus(
            def,
            resource_map.resource_at(pos.x as int, pos.z as int, config.map_size as int),
        ) - homes * CROWDING_PENALTY,
        BuildingCategory::Residential => flat + at_most(
            count_near(buildings, defs, BuildingCategory::Producer, pos.ground(), WORK_RADIUS as int)
                * WORK_BONUS,
            WORK_BONUS_CAP as int,
        ) + at_most(homes * COMPANY_BONUS, COMPANY_BONUS_CAP as int),
    }
}

/// Counts the buildings of a category that stand closer than `radius` to
/// `pos`.
fn count_buildings_near(
    buildings: &[(Point3, usize)],
    defs: &[BuildingDef],
    category: BuildingCategory,
    pos: Point2,
    radius: i32,
) -> (n: usize)
    requires
        forall|i: int| 0 <= i < buildings.len() ==> (#[trigger] buildings[i]).1 < defs.len(),
    ensures
        n == count_near(buildings@, defs@, category, pos, radius as int),
{
    proof {
        lemma_square_bound(radius as int);
    }
    let radius_sq: i128 = (radius as i128) * (radius as i128);
    let mut n: usize = 0;
    let mut i: usize = 0;
    while i < buildings.len()
        invariant
            i <= buildings.len(),
            n <= i,
            radius_sq == radius * radius,
            forall|k: int| 0 <= k < buildings.len() ==> (#[trigger] buildings[k]).1 < defs.len(),
            n == count_near(buildings@.take(i as int), defs@, category, pos, radius as int),
        decreases buildings.len() - i,
    {
        let (position, def_index) = buildings[i];
        assert(buildings@.take(i + 1).drop_last() =~= buildings@.take(i as int));
        let same = match (defs[def_index].category, category) {
            (BuildingCategory::Producer, BuildingCategory::Producer) => true,
            (BuildingCategory::Residential, BuildingCategory::Residential) => true,
            _ => false,
        };
        if same && position.xz().distance_squared(&pos) < radius_sq {
            n += 1;
        }
        i += 1;
    }
    assert(buildings@.take(i as int) =~= buildings@);
    n
}

/// How desirable a site is for a building of kind `def`, in thousandths of
/// a point. `buildings` are the buildings that stand, each with its
/// position and its place in the catalog `defs`.
pub fn score_candidate(
    candidate: &Candidate,
    def: &BuildingDef,
    buildings: &[(Point3, usize)],
    defs: &[BuildingDef],
    heightmap: &Heightmap,
    config: &TerrainConfig,
    resource_map: &ResourceMap,
) -> (score: i128)
    requires
        heightmap.wf(),
        resource_map.wf(),
        config.map_size > 0,
        forall|i: int| 0 <= i < buildings.len() ==> (#[trigger] buildings[i]).1 < defs.len(),
    ensures
        score == score_of(*candidate, *def, buildings@, defs@, heightmap, *config, resource_map),
{
    let pos = candidate.position;
    let pos2 = pos.xz();
    let flatness = heightmap.sample_flatness(pos.x, pos.z, config.map_size);
    let mut score: i128 = (flatness as i128) * FLATNESS_WEIGHT;
    let homes = count_buildings_near(
        buildings,
        defs,
        BuildingCategory::Residential,
        pos2,
        NEIGHBOUR_RADIUS,
    );
    match def.category {
        BuildingCategory::Producer => {
            if let Some(cell) = resource_map.sample_world(pos.x, pos.z, config.map_size) {
                let extracted = match def.extracts_from {
                    Some(resource) => same_resource(resource, cell.resource),
                    None => false,
                };
                if extracted {
                    score = score + (cell.richness as i128) * RICHNESS_WEIGHT;
                }
            }
            score = score - (homes as i128) * CROWDING_PENALTY;
        },
        BuildingCategory::Residential => {
            let producers = count_buildings_near(
                buildings,
                defs,
                BuildingCategory::Producer,
                pos2,
                WORK_RADIUS,
            );
            let work = (producers as i128) * WORK_BONUS;
            score = score + (if work < WORK_BONUS_CAP {
                work
            } else {
                WORK_BONUS_CAP
            });
            let company = (homes as i128) * COMPANY_BONUS;
            score = score + (if company < COMPANY_BONUS_CAP {
                company
            } else {
                COMPANY_BONUS_CAP
            });
        },
    }
    score
}

/// Whether two resources are the same.
pub fn same_resource(a: crate::resources::ResourceType, b: crate::resources::ResourceType) -> (r:
    bool)
    ensures
        r == (a == b),
{
    a == b
}

/// Whether candidate `i` is the best of `candidates`: none scores higher,
/// and none before it scores as high.
pub open spec fn is_best(
    i: int,
    candidates: Seq<Candidate>,
    def: BuildingDef,
    buildings: Seq<(Point3, usize)>,
    defs: Seq<BuildingDef>,
    heightmap: &Heightmap,
    config: TerrainConfig,
    resource_map: &ResourceMap,
) -> bool {
    &&& 0 <= i < candidates.len()
    &&& forall|j: int|
        0 <= j < candidates.len() ==> score_of(
            #[trigger] candidates[j],
            def,
            buildings,
            defs,
            heightmap,
            config,
            resource_map,
        ) <= score_of(candidates[i], def, buildings, defs, heightmap, config, resource_map)
    &&& forall|j: int|
        0 <= j < i ==> score_of(
            #[trigger] candidates[j],
            def,
            buildings,
            defs,
            heightmap,
            config,
            resource_map,
        ) < score_of(candidates[i], def, buildings, defs, heightmap, config, resource_map)
}

/// The best of `candidates` for a building of kind `def`, with its score:
/// the one that scores highest, and of several that do, the first. None if
/// there are no candidates.
pub fn best_candidate(
    candidates: &[Candidate],
    def: &BuildingDef,
    buildings: &[(Point3, usize)],
    defs: &[BuildingDef],
    heightmap: &Heightmap,
    config: &TerrainConfig,
    resource_map: &ResourceMap,
) -> (best: Option<(usize, i128)>)
    requires
        heightmap.wf(),
        resource_map.wf(),
        config.map_size > 0,
        forall|i: int| 0 <= i < buildings.len() ==> (#[trigger] buildings[i]).1 < defs.len(),
    ensures
        best is None <==> candidates.len() == 0,
        best is Some ==> is_best(
            best.unwrap().0 as int,
            candidates@,
            *def,
            buildings@,
            defs@,
            heightmap,
            *config,
            resource_map,
        ) && best.unwrap().1 == score_of(
            candidates[best.unwrap().0 as int],
            *def,
            buildings@,
            defs@,
            heightmap,
            *config,
            resource_map,
        ),
{
    let mut best: Option<(usize, i128)> = None;
    let mut i: usize = 0;
    while i < candidates.len()
        invariant
            i <= candidates.len(),
            heightmap.wf(),
            resource_map.wf(),
            config.map_size > 0,
            forall|k: int| 0 <= k < buildings.len() ==> (#[trigger] buildings[k]).1 < defs.len(),
            best is None <==> i == 0,
            best is Some ==> {
                let b = best.unwrap().0 as int;
                &&& 0 <= b < i
                &&& best.unwrap().1 == score_of(
                    candidates[b],
                    *def,
                    buildings@,
                    defs@,
                    heightmap,
                    *config,
                    resource_map,
                )
                &&& forall|j: int|
                    0 <= j < i ==> score_of(
                        #[trigger] candidates[j],
                        *def,
                        buildings@,
                        defs@,
                        heightmap,
                        *config,
                        resource_map,
                    ) <= best.unwrap().1
                &&& forall|j: int|
                    0 <= j < b ==> score_of(
                        #[trigger] candidates[j],
                        *def,
                        buildings@,
                        defs@,
                        heightmap,
                        *config,
                        resource_map,
                    ) < best.unwrap().1
            },
        decreases candidates.len() - i,
    {
        let score = score_candidate(
            &candidates[i],
            def,
            buildings,
            defs,
            heightmap,
            config,
            resource_map,
        );
        let better = match best {
            Some((_, s)) => score > s,
            None => true,
        };
        if better {
            best = Some((i, score));
        }
        i += 1;
    }
    best
}

} // verus!
