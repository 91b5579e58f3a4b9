//! Catmull-Rom curves through an ordered list of control points, sampled at
//! evenly spaced parameters.
//!
//! The curve parameter of sample `s` of `k` is the exact fraction `s / k`;
//! each coordinate is the blend's value there, rounded down to a whole step.

use crate::geometry::{clamp_i32, floor_div, lemma_product_bound, saturate, Point3};
use vstd::arithmetic::div_mod::{lemma_div_multiples_vanish, lemma_fundamental_div_mod_converse};
use vstd::prelude::*;
use vstd::slice::slice_to_vec;

verus! {

/// The densest sampling for which every intermediate value fits the machine.
pub const MAX_SAMPLES_PER_SEGMENT: usize = 0x4000_0000;

/// One coordinate of the blend `0.5 * (2 p1 + (p2 - p0) t + (2 p0 - 5 p1 + 4 p2 - p3) t^2
/// + (3 p1 - p0 - 3 p2 + p3) t^3)` at `t = s / k`, rounded down.
pub open spec fn spline_coord(p0: int, p1: int, p2: int, p3: int, s: int, k: int) -> int {
    (2 * p1 * (k * k * k) + (p2 - p0) * (s * (k * k)) + (2 * p0 - 5 * p1 + 4 * p2 - p3) * (s * s
        * k) + (3 * p1 - p0 - 3 * p2 + p3) * (s * s * s)) / (2 * (k * k * k))
}

/// The curve point between `p1` and `p2` at parameter `s / k`, with `p0` and
/// `p3` as context.
pub open spec fn spline_point(
    p0: Point3,
    p1: Point3,
    p2: Point3,
    p3: Point3,
    s: int,
    k: int,
) -> Point3 {
    Point3 {
        x: clamp_i32(spline_coord(p0.x as int, p1.x as int, p2.x as int, p3.x as int, s, k)),
        y: clamp_i32(spline_coord(p0.y as int, p1.y as int, p2.y as int, p3.y as int, s, k)),
        z: clamp_i32(spline_coord(p0.z as int, p1.z as int, p2.z as int, p3.z as int, s, k)),
    }
}

/// Sample `s` of `k` on the span from `points[i]` to `points[i + 1]`. The
/// context points are the neighbours, or the span's own ends where the list
/// stops.
pub open spec fn span_sample(points: Seq<Point3>, i: int, s: int, k: int) -> Point3 {
    let n = points.len() as int;
    spline_point(
        points[if i == 0 { 0 } else { i - 1 }],
        points[i],
        points[i + 1],
        points[if i + 2 < n { i + 2 } else { n - 1 }],
        s,
        k,
    )
}

/// The samples of the whole curve: `k` per span, then the last control point.
/// Fewer than two control points are their own samples.
pub open spec fn spline_samples(points: Seq<Point3>, k: int) -> Seq<Point3> {
    let n = points.len() as int;
    if n < 2 {
        points
    } else {
        Seq::new(
            (k * (n - 1) + 1) as nat,
            |j: int|
                if j == k * (n - 1) {
                    points[n - 1]
                } else {
                    span_sample(points, j / k, j % k, k)
                },
        )
    }
}

proof fn lemma_cube_bound(k: int)
    by (nonlinear_arith)
    requires
        0 <= k <= 0x4000_0000,
    ensures
        0 <= k * k <= 0x1000_0000_0000_0000,
        0 <= k * k * k <= 0x400_0000_0000_0000_0000_0000,
{
}

proof fn lemma_mixed_bound(s: int, k: int)
    by (nonlinear_arith)
    requires
        0 <= s <= k <= 0x4000_0000,
    ensures
        0 <= s * (k * k) <= 0x400_0000_0000_0000_0000_0000,
        0 <= s * s * k <= 0x400_0000_0000_0000_0000_0000,
        0 <= s * s * s <= 0x400_0000_0000_0000_0000_0000,
        0 <= s * s <= 0x1000_0000_0000_0000,
{
}

fn catmull_rom_coord(p0: i32, p1: i32, p2: i32, p3: i32, s: usize, k: usize) -> (r: i32)
    requires
        0 < k <= MAX_SAMPLES_PER_SEGMENT,
        s <= k,
    ensures
        r == clamp_i32(spline_coord(p0 as int, p1 as int, p2 as int, p3 as int, s as int, k as int)),
{
    let kk: i128 = k as i128;
    let ss: i128 = s as i128;
    proof {
        lemma_cube_bound(kk as int);
        lemma_mixed_bound(ss as int, kk as int);
    }
    let k3: i128 = kk * kk * kk;
    let sk2: i128 = ss * (kk * kk);
    let s2k: i128 = ss * ss * kk;
    let s3: i128 = ss * ss * ss;
    let a0: i128 = 2 * (p1 as i128);
    let a1: i128 = p2 as i128 - p0 as i128;
    let a2: i128 = 2 * (p0 as i128) - 5 * (p1 as i128) + 4 * (p2 as i128) - p3 as i128;
    let a3: i128 = 3 * (p1 as i128) - p0 as i128 - 3 * (p2 as i128) + p3 as i128;
    proof {
        let m: int = 0x400_0000_0000_0000_0000_0000;
        lemma_product_bound(a0 as int, k3 as int, 0x1_0000_0000, m);
        lemma_product_bound(a1 as int, sk2 as int, 0x1_0000_0000, m);
        lemma_product_bound(a2 as int, s2k as int, 0x6_0000_0000, m);
        lemma_product_bound(a3 as int, s3 as int, 0x4_0000_0000, m);
        assert(k3 > 0) by (nonlinear_arith)
            requires
                k3 == kk * kk * kk,
                kk > 0,
        ;
    }
    let num: i128 = a0 * k3 + a1 * sk2 + a2 * s2k + a3 * s3;
    saturate(floor_div(num, 2 * k3))
}

/// The curve point between `p1` and `p2` at parameter `s / k`, with `p0` and
/// `p3` as context.
pub fn catmull_rom_point(
    p0: Point3,
    p1: Point3,
    p2: Point3,
    p3: Point3,
    s: usize,
    k: usize,
) -> (r: Point3)
    requires
        0 < k <= MAX_SAMPLES_PER_SEGMENT,
        s <= k,
    ensures
        r == spline_point(p0, p1, p2, p3, s as int, k as int),
{
    Point3 {
        x: catmull_rom_coord(p0.x, p1.x, p2.x, p3.x, s, k),
        y: catmull_rom_coord(p0.y, p1.y, p2.y, p3.y, s, k),
        z: catmull_rom_coord(p0.z, p1.z, p2.z, p3.z, s, k),
    }
}

/// Samples the curve through `points`: `samples_per_segment` points on each
/// span between neighbours, then the last control point once.
pub fn sample_catmull_rom(points: &[Point3], samples_per_segment: usize) -> (result: Vec<Point3>)
    requires
        samples_per_segment <= MAX_SAMPLES_PER_SEGMENT,
    ensures
        result@ == spline_samples(points@, samples_per_segment as int),
        points.len() >= 2 ==> result.len() == samples_per_segment * (points.len() - 1) + 1,
        points.len() >= 2 && samples_per_segment >= 1 ==> result@.first() == points@.first()
            && result@.last() == points@.last(),
{
    let n = points.len();
    if n < 2 {
        return slice_to_vec(points);
    }
    proof {
        if samples_per_segment >= 1 {
            lemma_spline_hits_endpoints(points@, samples_per_segment as int);
        }
    }
    let k = samples_per_segment;
    let ghost want = spline_samples(points@, k as int);
    let mut result: Vec<Point3> = Vec::new();
    let mut i: usize = 0;
    while i < n - 1
        invariant
            n == points.len(),
            n >= 2,
            i <= n - 1,
            k == samples_per_segment,
            k <= MAX_SAMPLES_PER_SEGMENT,
            want == spline_samples(points@, k as int),
            result.len() == i * k,
            forall|j: int| 0 <= j < result.len() ==> result[j] == want[j],
        decreases n - 1 - i,
    {
        let p0 = if i == 0 { points[0] } else { points[i - 1] };
        let p1 = points[i];
        let p2 = points[i + 1];
        let p3 = if i + 2 < n { points[i + 2] } else { points[n - 1] };
        let mut s: usize = 0;
        while s < k
            invariant
                n == points.len(),
                n >= 2,
                i < n - 1,
                s <= k,
                0 <= k <= MAX_SAMPLES_PER_SEGMENT,
                want == spline_samples(points@, k as int),
                p0 == points[if i == 0 { 0 } else { i - 1 }],
                p1 == points[i as int],
                p2 == points[i + 1],
                p3 == points[if i + 2 < n { i + 2 } else { n - 1 }],
                result.len() == i * k + s,
                forall|j: int| 0 <= j < result.len() ==> result[j] == want[j],
            decreases k - s,
        {
            let p = catmull_rom_point(p0, p1, p2, p3, s, k);
            proof {
                let j = i * k + s;
                lemma_fundamental_div_mod_converse(j as int, k as int, i as int, s as int);
                assert(i * k + s < k * (n - 1)) by (nonlinear_arith)
                    requires
                        i < n - 1,
                        s < k,
                ;
                assert(want[j as int] == span_sample(points@, i as int, s as int, k as int));
            }
            result.push(p);
            s += 1;
        }
        assert((i + 1) * k == i * k + k) by (nonlinear_arith);
        i += 1;
    }
    assert(i * k == k * (n - 1)) by (nonlinear_arith)
        requires
            i == n - 1,
    ;
    result.push(points[n - 1]);
    assert(result@ =~= want);
    result
}

/// A curve sampled at least once per span passes through every control
/// point: sample `i * k` is control point `i`.
pub proof fn lemma_spline_passes_through(points: Seq<Point3>, k: int, i: int)
    requires
        points.len() >= 2,
        k >= 1,
        0 <= i < points.len(),
    ensures
        0 <= i * k < spline_samples(points, k).len(),
        spline_samples(points, k)[i * k] == points[i],
{
    let n = points.len() as int;
    assert(0 <= i * k <= k * (n - 1) && i * k == k * i) by (nonlinear_arith)
        requires
            k >= 1,
            0 <= i <= n - 1,
    ;
    if i < n - 1 {
        assert(i * k < k * (n - 1)) by (nonlinear_arith)
            requires
                k >= 1,
                0 <= i < n - 1,
        ;
        lemma_fundamental_div_mod_converse(i * k, k, i, 0);
        let p0 = points[if i == 0 { 0 } else { i - 1 }];
        let p1 = points[i];
        let p2 = points[i + 1];
        let p3 = points[if i + 2 < n { i + 2 } else { n - 1 }];
        lemma_coord_at_start(p0.x as int, p1.x as int, p2.x as int, p3.x as int, k);
        lemma_coord_at_start(p0.y as int, p1.y as int, p2.y as int, p3.y as int, k);
        lemma_coord_at_start(p0.z as int, p1.z as int, p2.z as int, p3.z as int, k);
    }
}

/// A curve through at least two control points, sampled at least once per
/// span, has one sample more than `k` for each span, starts at the first
/// control point and ends at the last.
pub proof fn lemma_spline_hits_endpoints(points: Seq<Point3>, k: int)
    requires
        points.len() >= 2,
        k >= 1,
    ensures
        spline_samples(points, k).len() == k * (points.len() - 1) + 1,
        spline_samples(points, k).first() == points.first(),
        spline_samples(points, k).last() == points.last(),
{
    let n = points.len() as int;
    assert(k * (n - 1) >= 1) by (nonlinear_arith)
        requires
            k >= 1,
            n >= 2,
    ;
    lemma_spline_passes_through(points, k, 0);
    assert(0 * k == 0);
}

/// At the start of a span the blend is the span's first end.
proof fn lemma_coord_at_start(p0: int, p1: int, p2: int, p3: int, k: int)
    requires
        k >= 1,
    ensures
        spline_coord(p0, p1, p2, p3, 0, k) == p1,
{
    let k3 = k * k * k;
    assert(k3 >= 1) by (nonlinear_arith)
        requires
            k3 == k * k * k,
            k >= 1,
    ;
    assert((p2 - p0) * (0 * (k * k)) == 0) by (nonlinear_arith);
    assert((2 * p0 - 5 * p1 + 4 * p2 - p3) * (0 * 0 * k) == 0) by (nonlinear_arith);
    assert((3 * p1 - p0 - 3 * p2 + p3) * (0 * 0 * 0) == 0) by (nonlinear_arith);
    assert(2 * p1 * k3 == (2 * k3) * p1) by (nonlinear_arith);
    lemma_div_multiples_vanish(p1, 2 * k3);
}

} // verus!
