//! Building lots as rotated rectangles on the ground plane, and the tests
//! between them: corners, projections, overlap, containment.

use crate::geometry::{floor_div, lemma_product_bound, Point2, UNIT};
use vstd::prelude::*;

verus! {

/// How a lot is turned: the direction of its local x axis, as the cosine and
/// sine of its angle in steps, so a vector of length `UNIT`.
#[derive(Clone, Copy, Debug, PartialEq, Eq, Structural)]
pub struct Rotation {
    pub cos: i32,
    pub sin: i32,
}

impl Rotation {
    /// The lot's local x axis.
    pub open spec fn axis_x(self) -> Point2 {
        Point2 { x: self.cos, y: self.sin }
    }

    /// The lot's local y axis: the x axis turned a quarter to the left.
    /// Its first coordinate is `-sin`, or the largest value there is where
    /// `-sin` does not fit.
    pub open spec fn axis_y(self) -> Point2 {
        Point2 { x: if self.sin == i32::MIN { i32::MAX } else { (-self.sin) as i32 }, y: self.cos }
    }

    /// The rotation half a turn on: both coordinates negated, or the largest
    /// value there is where the negative does not fit.
    pub open spec fn reversed(self) -> Rotation {
        Rotation {
            cos: if self.cos == i32::MIN { i32::MAX } else { (-self.cos) as i32 },
            sin: if self.sin == i32::MIN { i32::MAX } else { (-self.sin) as i32 },
        }
    }

    pub fn x_axis(&self) -> (a: Point2)
        ensures
            a == self.axis_x(),
    {
        Point2 { x: self.cos, y: self.sin }
    }

    pub fn y_axis(&self) -> (a: Point2)
        ensures
            a == self.axis_y(),
    {
        Point2 { x: if self.sin == i32::MIN { i32::MAX } else { -self.sin }, y: self.cos }
    }

    /// The rotation half a turn on.
    pub fn reverse(&self) -> (r: Rotation)
        ensures
            r == self.reversed(),
    {
        Rotation {
            cos: if self.cos == i32::MIN { i32::MAX } else { -self.cos },
            sin: if self.sin == i32::MIN { i32::MAX } else { -self.sin },
        }
    }
}

/// A point on the ground plane with room for a lot's corner, which may lie
/// outside the range of world positions.
#[derive(Clone, Copy, Debug, PartialEq, Eq, Structural)]
pub struct Corner {
    pub x: i64,
    pub y: i64,
}

/// A rotated rectangle on the ground plane.
#[derive(Clone, Copy, Debug, PartialEq, Eq, Structural)]
pub struct Footprint {
    pub center: Point2,
    /// Half the width along the local x axis and half the depth along the
    /// local y axis, in steps.
    pub half_extents: Point2,
    pub rotation: Rotation,
}

/// A footprint that a building stands on.
#[derive(Clone, Copy, Debug, PartialEq, Eq, Structural)]
pub struct Lot {
    pub center: Point2,
    pub rotation: Rotation,
    pub half_extents: Point2,
    /// The building on the lot, by the number its owner knows it by.
    pub building: u64,
}

impl Lot {
    pub open spec fn footprint(self) -> Footprint {
        Footprint { center: self.center, half_extents: self.half_extents, rotation: self.rotation }
    }
}

/// `axis` scaled from length `UNIT` to length `extent`, each coordinate
/// rounded down.
pub open spec fn scaled(axis: Point2, extent: int) -> (int, int) {
    ((axis.x * extent) / (UNIT as int), (axis.y * extent) / (UNIT as int))
}

impl Footprint {
    /// From the centre to the middle of the edge on the local x side.
    pub open spec fn half_x(self) -> (int, int) {
        scaled(self.rotation.axis_x(), self.half_extents.x as int)
    }

    /// From the centre to the middle of the edge on the local y side.
    pub open spec fn half_y(self) -> (int, int) {
        scaled(self.rotation.axis_y(), self.half_extents.y as int)
    }

    /// The four corners, counterclockwise from the one at local (-x, -y).
    pub open spec fn corners(self) -> Seq<(int, int)> {
        let c = self.center;
        let dx = self.half_x();
        let dy = self.half_y();
        seq![
            (c.x - dx.0 - dy.0, c.y - dx.1 - dy.1),
            (c.x + dx.0 - dy.0, c.y + dx.1 - dy.1),
            (c.x + dx.0 + dy.0, c.y + dx.1 + dy.1),
            (c.x - dx.0 + dy.0, c.y - dx.1 + dy.1),
        ]
    }

    /// Whether `p` lies in the rectangle, edges included: the offset from
    /// the centre, turned into the local frame, is within the half extents.
    pub open spec fn contains(self, p: Point2) -> bool {
        let dx = p.x - self.center.x;
        let dy = p.y - self.center.y;
        let local_x = dx * self.rotation.cos + dy * self.rotation.sin;
        let local_y = dy * self.rotation.cos - dx * self.rotation.sin;
        &&& -(self.half_extents.x * UNIT) <= local_x <= self.half_extents.x * UNIT
        &&& -(self.half_extents.y * UNIT) <= local_y <= self.half_extents.y * UNIT
    }
}

/// Inner product of a point and a direction.
pub open spec fn dot(p: (int, int), axis: Point2) -> int {
    p.0 * axis.x + p.1 * axis.y
}

pub open spec fn min2(a: int, b: int) -> int {
    if a <= b {
        a
    } else {
        b
    }
}

pub open spec fn max2(a: int, b: int) -> int {
    if a >= b {
        a
    } else {
        b
    }
}

/// The least inner product of four corners with `axis`.
pub open spec fn projection_min(corners: Seq<(int, int)>, axis: Point2) -> int {
    min2(
        min2(dot(corners[0], axis), dot(corners[1], axis)),
        min2(dot(corners[2], axis), dot(corners[3], axis)),
    )
}

/// The greatest inner product of four corners with `axis`.
pub open spec fn projection_max(corners: Seq<(int, int)>, axis: Point2) -> int {
    max2(
        max2(dot(corners[0], axis), dot(corners[1], axis)),
        max2(dot(corners[2], axis), dot(corners[3], axis)),
    )
}

/// Whether the shadows of two rectangles on `axis` meet.
pub open spec fn shadows_meet(a: Footprint, b: Footprint, axis: Point2) -> bool {
    !(projection_max(a.corners(), axis) < projection_min(b.corners(), axis) || projection_max(
        b.corners(),
        axis,
    ) < projection_min(a.corners(), axis))
}

/// Whether two rectangles overlap: their shadows meet on each of the four
/// directions that their edges face.
pub open spec fn overlaps(a: Footprint, b: Footprint) -> bool {
    &&& shadows_meet(a, b, a.rotation.axis_x())
    &&& shadows_meet(a, b, a.rotation.axis_y())
    &&& shadows_meet(a, b, b.rotation.axis_x())
    &&& shadows_meet(a, b, b.rotation.axis_y())
}

/// Half the length of a rectangle's shadow on `axis`.
pub open spec fn half_shadow(f: Footprint, axis: Point2) -> int {
    let u = dot(f.half_x(), axis);
    let v = dot(f.half_y(), axis);
    (if u >= 0 { u } else { -u }) + (if v >= 0 { v } else { -v })
}

/// How far apart the centres of two rectangles are along `axis`.
pub open spec fn center_gap(a: Footprint, b: Footprint, axis: Point2) -> int {
    let d = dot((b.center.x as int, b.center.y as int), axis) - dot(
        (a.center.x as int, a.center.y as int),
        axis,
    );
    if d >= 0 {
        d
    } else {
        -d
    }
}

fn scale_axis(axis: Point2, extent: i32) -> (r: (i64, i64))
    ensures
        (r.0 as int, r.1 as int) == scaled(axis, extent as int),
        -0x20_0000_0000_0000 <= r.0 <= 0x20_0000_0000_0000,
        -0x20_0000_0000_0000 <= r.1 <= 0x20_0000_0000_0000,
{
    proof {
        lemma_product_bound(axis.x as int, extent as int, 0x8000_0000, 0x8000_0000);
        lemma_product_bound(axis.y as int, extent as int, 0x8000_0000, 0x8000_0000);
        lemma_scaled_bound(axis.x as int * extent as int);
        lemma_scaled_bound(axis.y as int * extent as int);
    }
    let x = floor_div((axis.x as i128) * (extent as i128), UNIT as i128);
    let y = floor_div((axis.y as i128) * (extent as i128), UNIT as i128);
    (x as i64, y as i64)
}

proof fn lemma_scaled_bound(n: int)
    by (nonlinear_arith)
    requires
        -0x4000_0000_0000_0000 <= n <= 0x4000_0000_0000_0000,
    ensures
        -0x20_0000_0000_0000 <= n / 1000 <= 0x20_0000_0000_0000,
{
}

/// The corners as plain pairs.
pub open spec fn corner_pairs(corners: [Corner; 4]) -> Seq<(int, int)> {
    seq![
        (corners[0].x as int, corners[0].y as int),
        (corners[1].x as int, corners[1].y as int),
        (corners[2].x as int, corners[2].y as int),
        (corners[3].x as int, corners[3].y as int),
    ]
}

/// The corners of a rectangle are never farther than this from the origin,
/// along either axis.
pub open spec fn corner_bound() -> int {
    0x80_0000_0000_0000
}

/// The four corners of a rotated rectangle, counterclockwise from the one at
/// local (-x, -y).
pub fn lot_corners(center: Point2, half_extents: Point2, rotation: Rotation) -> (corners: [Corner; 4])
    ensures
        corner_pairs(corners) == (Footprint { center, half_extents, rotation }).corners(),
        forall|i: int|
            0 <= i < 4 ==> -corner_bound() <= (#[trigger] corners[i]).x <= corner_bound()
                && -corner_bound() <= corners[i].y <= corner_bound(),
{
    let dx = scale_axis(rotation.x_axis(), half_extents.x);
    let dy = scale_axis(rotation.y_axis(), half_extents.y);
    let cx = center.x as i64;
    let cy = center.y as i64;
    let corners = [
        Corner { x: cx - dx.0 - dy.0, y: cy - dx.1 - dy.1 },
        Corner { x: cx + dx.0 - dy.0, y: cy + dx.1 - dy.1 },
        Corner { x: cx + dx.0 + dy.0, y: cy + dx.1 + dy.1 },
        Corner { x: cx - dx.0 + dy.0, y: cy - dx.1 + dy.1 },
    ];
    assert(corner_pairs(corners) =~= (Footprint { center, half_extents, rotation }).corners());
    corners
}

fn corner_dot(c: Corner, axis: Point2) -> (d: i128)
    requires
        -corner_bound() <= c.x <= corner_bound(),
        -corner_bound() <= c.y <= corner_bound(),
    ensures
        d == dot((c.x as int, c.y as int), axis),
{
    proof {
        lemma_product_bound(c.x as int, axis.x as int, corner_bound(), 0x8000_0000);
        lemma_product_bound(c.y as int, axis.y as int, corner_bound(), 0x8000_0000);
    }
    (c.x as i128) * (axis.x as i128) + (c.y as i128) * (axis.y as i128)
}

/// The shadow of four corners on `axis`: the least and the greatest of
/// their inner products with it.
pub fn project_corners(corners: &[Corner; 4], axis: Point2) -> (r: (i128, i128))
    requires
        forall|i: int|
            0 <= i < 4 ==> -corner_bound() <= (#[trigger] corners[i]).x <= corner_bound()
                && -corner_bound() <= corners[i].y <= corner_bound(),
    ensures
        r.0 == projection_min(corner_pairs(*corners), axis),
        r.1 == projection_max(corner_pairs(*corners), axis),
{
    let mut min = corner_dot(corners[0], axis);
    let mut max = min;
    let d1 = corner_dot(corners[1], axis);
    let d2 = corner_dot(corners[2], axis);
    let d3 = corner_dot(corners[3], axis);
    if d1 < min {
        min = d1;
    }
    if d1 > max {
        max = d1;
    }
    if d2 < min {
        min = d2;
    }
    if d2 > max {
        max = d2;
    }
    if d3 < min {
        min = d3;
    }
    if d3 > max {
        max = d3;
    }
    (min, max)
}

/// Whether two rotated rectangles overlap, by the separating-axis test over
/// the directions their edges face.
pub fn obb_overlap(
    center_a: Point2,
    half_a: Point2,
    rot_a: Rotation,
    center_b: Point2,
    half_b: Point2,
    rot_b: Rotation,
) -> (r: bool)
    ensures
        r == overlaps(
            Footprint { center: center_a, half_extents: half_a, rotation: rot_a },
            Footprint { center: center_b, half_extents: half_b, rotation: rot_b },
        ),
{
    let corners_a = lot_corners(center_a, half_a, rot_a);
    let corners_b = lot_corners(center_b, half_b, rot_b);
    let axes = [rot_a.x_axis(), rot_a.y_axis(), rot_b.x_axis(), rot_b.y_axis()];
    let mut i: usize = 0;
    while i < 4
        invariant
            i <= 4,
            axes[0] == rot_a.axis_x(),
            axes[1] == rot_a.axis_y(),
            axes[2] == rot_b.axis_x(),
            axes[3] == rot_b.axis_y(),
            corner_pairs(corners_a) == (Footprint {
                center: center_a,
                half_extents: half_a,
                rotation: rot_a,
            }).corners(),
            corner_pairs(corners_b) == (Footprint {
                center: center_b,
                half_extents: half_b,
                rotation: rot_b,
            }).corners(),
            forall|j: int|
                0 <= j < 4 ==> -corner_bound() <= (#[trigger] corners_a[j]).x <= corner_bound()
                    && -corner_bound() <= corners_a[j].y <= corner_bound(),
            forall|j: int|
                0 <= j < 4 ==> -corner_bound() <= (#[trigger] corners_b[j]).x <= corner_bound()
                    && -corner_bound() <= corners_b[j].y <= corner_bound(),
            forall|j: int|
                0 <= j < i ==> shadows_meet(
                    Footprint { center: center_a, half_extents: half_a, rotation: rot_a },
                    Footprint { center: center_b, half_extents: half_b, rotation: rot_b },
                    #[trigger] axes[j],
                ),
        decreases 4 - i,
    {
        let (min_a, max_a) = project_corners(&corners_a, axes[i]);
        let (min_b, max_b) = project_corners(&corners_b, axes[i]);
        if max_a < min_b || max_b < min_a {
            return false;
        }
        i += 1;
    }
    proof {
        let a = Footprint { center: center_a, half_extents: half_a, rotation: rot_a };
        let b = Footprint { center: center_b, half_extents: half_b, rotation: rot_b };
        assert(shadows_meet(a, b, axes[0]));
        assert(shadows_meet(a, b, axes[1]));
        assert(shadows_meet(a, b, axes[2]));
        assert(shadows_meet(a, b, axes[3]));
    }
    true
}

/// Whether `point` lies in a rotated rectangle, edges included.
pub fn point_in_obb(point: Point2, center: Point2, half_extents: Point2, rotation: Rotation) -> (r:
    bool)
    ensures
        r == (Footprint { center, half_extents, rotation }).contains(point),
{
    let dx: i128 = point.x as i128 - center.x as i128;
    let dy: i128 = point.y as i128 - center.y as i128;
    proof {
        lemma_product_bound(dx as int, rotation.cos as int, 0x1_0000_0000, 0x8000_0000);
        lemma_product_bound(dy as int, rotation.sin as int, 0x1_0000_0000, 0x8000_0000);
        lemma_product_bound(dy as int, rotation.cos as int, 0x1_0000_0000, 0x8000_0000);
        lemma_product_bound(dx as int, rotation.sin as int, 0x1_0000_0000, 0x8000_0000);
        lemma_product_bound(half_extents.x as int, UNIT as int, 0x8000_0000, 1000);
        lemma_product_bound(half_extents.y as int, UNIT as int, 0x8000_0000, 1000);
    }
    let local_x: i128 = dx * (rotation.cos as i128) + dy * (rotation.sin as i128);
    let local_y: i128 = dy * (rotation.cos as i128) - dx * (rotation.sin as i128);
    let limit_x: i128 = (half_extents.x as i128) * (UNIT as i128);
    let limit_y: i128 = (half_extents.y as i128) * (UNIT as i128);
    -limit_x <= local_x && local_x <= limit_x && -limit_y <= local_y && local_y <= limit_y
}

/// A rectangle overlaps itself.
pub proof fn lemma_overlaps_itself(a: Footprint)
    ensures
        overlaps(a, a),
{
}

/// Overlap does not depend on the order of the two rectangles.
pub proof fn lemma_overlap_symmetric(a: Footprint, b: Footprint)
    ensures
        overlaps(a, b) == overlaps(b, a),
{
}

/// The inner product with a direction distributes over a corner's parts.
proof fn lemma_dot_corner(c: Point2, dx: (int, int), dy: (int, int), sx: int, sy: int, axis: Point2)
    by (nonlinear_arith)
    requires
        sx == 1 || sx == -1,
        sy == 1 || sy == -1,
    ensures
        dot((c.x + sx * dx.0 + sy * dy.0, c.y + sx * dx.1 + sy * dy.1), axis) == dot(
            (c.x as int, c.y as int),
            axis,
        ) + sx * dot(dx, axis) + sy * dot(dy, axis),
{
}

/// A rectangle's shadow on a direction is centred on the shadow of its
/// centre and reaches `half_shadow` to either side.
pub proof fn lemma_shadow(f: Footprint, axis: Point2)
    ensures
        projection_min(f.corners(), axis) == dot((f.center.x as int, f.center.y as int), axis)
            - half_shadow(f, axis),
        projection_max(f.corners(), axis) == dot((f.center.x as int, f.center.y as int), axis)
            + half_shadow(f, axis),
{
    let c = f.center;
    let dx = f.half_x();
    let dy = f.half_y();
    lemma_dot_corner(c, dx, dy, -1, -1, axis);
    lemma_dot_corner(c, dx, dy, 1, -1, axis);
    lemma_dot_corner(c, dx, dy, 1, 1, axis);
    lemma_dot_corner(c, dx, dy, -1, 1, axis);
    let k = f.corners();
    assert(k[0] == (c.x + (-1) * dx.0 + (-1) * dy.0, c.y + (-1) * dx.1 + (-1) * dy.1));
    assert(k[1] == (c.x + 1 * dx.0 + (-1) * dy.0, c.y + 1 * dx.1 + (-1) * dy.1));
    assert(k[2] == (c.x + 1 * dx.0 + 1 * dy.0, c.y + 1 * dx.1 + 1 * dy.1));
    assert(k[3] == (c.x + (-1) * dx.0 + 1 * dy.0, c.y + (-1) * dx.1 + 1 * dy.1));
}

/// Two rectangles whose centres are farther apart along an edge direction of
/// either than their two half shadows on it together do not overlap.
pub proof fn lemma_separated_never_overlap(a: Footprint, b: Footprint, axis: Point2)
    requires
        axis == a.rotation.axis_x() || axis == a.rotation.axis_y() || axis == b.rotation.axis_x()
            || axis == b.rotation.axis_y(),
        center_gap(a, b, axis) > half_shadow(a, axis) + half_shadow(b, axis),
    ensures
        !overlaps(a, b),
{
    lemma_shadow(a, axis);
    lemma_shadow(b, axis);
    assert(!shadows_meet(a, b, axis));
}

} // verus!
