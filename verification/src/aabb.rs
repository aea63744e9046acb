//! Axis-aligned bounding boxes and the slab test used to prune traversal.

use vstd::prelude::*;
use crate::fixed::{clip, smul, tdiv, CMAX, SCALE, TMAX};
use crate::fixed::{lemma_mul_bound, lemma_tdiv_bound, lemma_tdiv_close};
use crate::ray::{at_c, ray_wf, spec_at, Ray};
use crate::util::{ival_wf, Interval, MIN_EXTENT};
use crate::vec3::Vec3;

verus! {

#[derive(Debug, Clone, Copy)]
pub struct Aabb {
    pub x: Interval,
    pub y: Interval,
    pub z: Interval,
}

/// All six bounds lie strictly inside the coordinate range.
pub open spec fn box_wf(b: Aabb) -> bool {
    &&& ival_wf(b.x)
    &&& ival_wf(b.y)
    &&& ival_wf(b.z)
}

/// Every axis spans at least the minimum extent.
pub open spec fn box_min_extent(b: Aabb) -> bool {
    &&& b.x.1 - b.x.0 >= MIN_EXTENT
    &&& b.y.1 - b.y.0 >= MIN_EXTENT
    &&& b.z.1 - b.z.0 >= MIN_EXTENT
}

/// The point lies inside the box on every axis.
pub open spec fn box_contains(b: Aabb, p: Vec3) -> bool {
    &&& b.x.0 <= p.x <= b.x.1
    &&& b.y.0 <= p.y <= b.y.1
    &&& b.z.0 <= p.z <= b.z.1
}

/// `inner` fits inside `outer` on every axis.
pub open spec fn box_encloses(outer: Aabb, inner: Aabb) -> bool {
    &&& outer.x.0 <= inner.x.0 && inner.x.1 <= outer.x.1
    &&& outer.y.0 <= inner.y.0 && inner.y.1 <= outer.y.1
    &&& outer.z.0 <= inner.z.0 && inner.z.1 <= outer.z.1
}

/// The box `span_points` builds over two corner points.
pub open spec fn spec_span(a: Vec3, b: Vec3) -> Aabb {
    Aabb {
        x: grow_axis(Interval(if a.x <= b.x { a.x } else { b.x }, if a.x >= b.x { a.x } else { b.x })),
        y: grow_axis(Interval(if a.y <= b.y { a.y } else { b.y }, if a.y >= b.y { a.y } else { b.y })),
        z: grow_axis(Interval(if a.z <= b.z { a.z } else { b.z }, if a.z >= b.z { a.z } else { b.z })),
    }
}

/// One axis shifted by an offset, saturated to the well-formed range.
pub open spec fn spec_shift_axis(i: Interval, off: int) -> Interval {
    Interval(
        clip(i.0 + off, CMAX as int - 1) as i64,
        clip(i.1 + off, CMAX as int - 1) as i64,
    )
}

/// The box a translation wrapper reports: every bound shifted, saturated.
pub open spec fn spec_shift(b: Aabb, off: Vec3) -> Aabb {
    Aabb {
        x: spec_shift_axis(b.x, off.x as int),
        y: spec_shift_axis(b.y, off.y as int),
        z: spec_shift_axis(b.z, off.z as int),
    }
}

/// Applying the minimum-extent rule only ever widens an axis.
pub proof fn lemma_grow_axis_widens(i: Interval)
    requires
        ival_wf(i),
    ensures
        grow_axis(i).0 <= i.0,
        i.1 <= grow_axis(i).1,
{
}

/// An axis interval after the minimum-extent rule is applied.
pub open spec fn grow_axis(i: Interval) -> Interval {
    if i.1 - i.0 >= MIN_EXTENT {
        i
    } else {
        Interval(
            (if i.0 - (MIN_EXTENT + 1) / 2 < 1 - CMAX { 1 - CMAX } else { i.0 - (MIN_EXTENT + 1) / 2 }) as i64,
            (if i.1 + (MIN_EXTENT + 1) / 2 > CMAX - 1 { CMAX - 1 } else { i.1 + (MIN_EXTENT + 1) / 2 }) as i64,
        )
    }
}

impl Aabb {
    /// The box containing nothing; the identity of `combine`.
    pub fn empty() -> (r: Self)
        ensures
            box_wf(r),
            forall|p: Vec3| !box_contains(r, p),
            forall|b: Aabb| box_wf(b) ==> Self::spec_combine(r, b) == b,
    {
        let r = Aabb { x: Interval::empty(), y: Interval::empty(), z: Interval::empty() };
        proof {
            assert forall|b: Aabb| box_wf(b) implies Self::spec_combine(r, b) == b by {
                assert(Self::spec_combine(r, b).x == b.x);
                assert(Self::spec_combine(r, b).y == b.y);
                assert(Self::spec_combine(r, b).z == b.z);
            }
        }
        r
    }

    /// Build from one interval per axis, widening degenerate axes.
    pub fn new(x: Interval, y: Interval, z: Interval) -> (r: Self)
        requires
            ival_wf(x),
            ival_wf(y),
            ival_wf(z),
        ensures
            r.x == grow_axis(x),
            r.y == grow_axis(y),
            r.z == grow_axis(z),
            r.x.0 <= x.0 && x.1 <= r.x.1,
            r.y.0 <= y.0 && y.1 <= r.y.1,
            r.z.0 <= z.0 && z.1 <= r.z.1,
            box_wf(r),
    {
        proof {
            lemma_grow_axis_widens(x);
            lemma_grow_axis_widens(y);
            lemma_grow_axis_widens(z);
        }
        Aabb { x, y, z }.min_extents()
    }

    /// The smallest (extent-corrected) box containing both corner points.
    pub fn span_points(a: Vec3, b: Vec3) -> (r: Self)
        requires
            crate::vec3::bounded(a, CMAX as int - 10),
            crate::vec3::bounded(b, CMAX as int - 10),
        ensures
            r.x == grow_axis(Interval(if a.x <= b.x { a.x } else { b.x }, if a.x >= b.x { a.x } else { b.x })),
            r.y == grow_axis(Interval(if a.y <= b.y { a.y } else { b.y }, if a.y >= b.y { a.y } else { b.y })),
            r.z == grow_axis(Interval(if a.z <= b.z { a.z } else { b.z }, if a.z >= b.z { a.z } else { b.z })),
            r == spec_span(a, b),
            box_wf(r),
            box_contains(r, a) && box_contains(r, b),
            box_min_extent(r),
    {
        let s = Aabb {
            x: Interval(if a.x <= b.x { a.x } else { b.x }, if a.x >= b.x { a.x } else { b.x }),
            y: Interval(if a.y <= b.y { a.y } else { b.y }, if a.y >= b.y { a.y } else { b.y }),
            z: Interval(if a.z <= b.z { a.z } else { b.z }, if a.z >= b.z { a.z } else { b.z }),
        };
        s.min_extents()
    }

    pub open spec fn spec_combine(a: Aabb, b: Aabb) -> Aabb {
        Aabb {
            x: Interval(
                (if a.x.0 <= b.x.0 { a.x.0 } else { b.x.0 }) as i64,
                (if a.x.1 >= b.x.1 { a.x.1 } else { b.x.1 }) as i64,
            ),
            y: Interval(
                (if a.y.0 <= b.y.0 { a.y.0 } else { b.y.0 }) as i64,
                (if a.y.1 >= b.y.1 { a.y.1 } else { b.y.1 }) as i64,
            ),
            z: Interval(
                (if a.z.0 <= b.z.0 { a.z.0 } else { b.z.0 }) as i64,
                (if a.z.1 >= b.z.1 { a.z.1 } else { b.z.1 }) as i64,
            ),
        }
    }

    /// The tightest box containing both inputs.
    pub fn combine(a: Aabb, b: Aabb) -> (r: Self)
        ensures
            r == Self::spec_combine(a, b),
            box_encloses(r, a),
            box_encloses(r, b),
            box_wf(a) && box_wf(b) ==> box_wf(r),
            box_min_extent(a) || box_min_extent(b) ==> box_min_extent(r),
            forall|p: Vec3| box_contains(a, p) || box_contains(b, p) ==> box_contains(r, p),
    {
        Aabb {
            x: Interval::combine(a.x, b.x),
            y: Interval::combine(a.y, b.y),
            z: Interval::combine(a.z, b.z),
        }
    }

    pub open spec fn spec_axis(&self, i: int) -> Interval {
        if i == 0 { self.x } else if i == 1 { self.y } else { self.z }
    }

    /// Axis accessor; an index outside 0..3 is a caller defect.
    pub fn axis(&self, i: usize) -> (r: Interval)
        requires
            i < 3,
        ensures
            r == self.spec_axis(i as int),
    {
        if i == 0 {
            self.x
        } else if i == 1 {
            self.y
        } else {
            self.z
        }
    }

    /// Exact membership test for a point.
    pub fn contains_point(&self, p: Vec3) -> (r: bool)
        ensures
            r == box_contains(*self, p),
    {
        self.x.0 <= p.x && p.x <= self.x.1
            && self.y.0 <= p.y && p.y <= self.y.1
            && self.z.0 <= p.z && p.z <= self.z.1
    }

    /// The box shifted by an offset, each bound saturated to the well-formed
    /// range; used by spatial translation wrappers.
    pub fn shifted(&self, offset: Vec3) -> (r: Self)
        requires
            box_wf(*self),
            crate::vec3::bounded(offset, CMAX as int),
        ensures
            r == spec_shift(*self, offset),
            box_wf(r),
    {
        Aabb {
            x: shift_axis(self.x, offset.x),
            y: shift_axis(self.y, offset.y),
            z: shift_axis(self.z, offset.z),
        }
    }

    fn min_extents(self) -> (r: Self)
        requires
            ival_wf(self.x),
            ival_wf(self.y),
            ival_wf(self.z),
        ensures
            r.x == grow_axis(self.x),
            r.y == grow_axis(self.y),
            r.z == grow_axis(self.z),
            box_wf(r),
    {
        let x = if self.x.size() < MIN_EXTENT { self.x.expand(MIN_EXTENT) } else { self.x };
        let y = if self.y.size() < MIN_EXTENT { self.y.expand(MIN_EXTENT) } else { self.y };
        let z = if self.z.size() < MIN_EXTENT { self.z.expand(MIN_EXTENT) } else { self.z };
        Aabb { x, y, z }
    }

    /// Conservative slab test: a `false` answer guarantees that no parameter
    /// in the allowed range puts the ray inside the box.
    pub fn hit(&self, ray: &Ray, allowed_t: Interval) -> (r: bool)
        requires
            ray_wf(*ray),
            box_wf(*self),
        ensures
            !r ==> forall|t: int|
                allowed_t.0 <= t <= allowed_t.1 && -TMAX <= t <= TMAX
                    ==> !box_contains(*self, spec_at(*ray, t)),
    {
        let mut tlo: i128 = if allowed_t.0 < -TMAX { -(TMAX as i128) } else { allowed_t.0 as i128 };
        let mut thi: i128 = if allowed_t.1 > TMAX { TMAX as i128 } else { allowed_t.1 as i128 };

        let rx = match axis_range(ray.origin.x, ray.direction.x, self.x.0, self.x.1) {
            Some(r) => r,
            None => {
                return false;
            },
        };
        let ry = match axis_range(ray.origin.y, ray.direction.y, self.y.0, self.y.1) {
            Some(r) => r,
            None => {
                return false;
            },
        };
        let rz = match axis_range(ray.origin.z, ray.direction.z, self.z.0, self.z.1) {
            Some(r) => r,
            None => {
                return false;
            },
        };
        if rx.0 > tlo { tlo = rx.0; }
        if ry.0 > tlo { tlo = ry.0; }
        if rz.0 > tlo { tlo = rz.0; }
        if rx.1 < thi { thi = rx.1; }
        if ry.1 < thi { thi = ry.1; }
        if rz.1 < thi { thi = rz.1; }
        let hit = tlo <= thi;
        proof {
            if !hit {
                assert forall|t: int|
                    allowed_t.0 <= t <= allowed_t.1 && -TMAX <= t <= TMAX
                        implies !box_contains(*self, spec_at(*ray, t)) by {
                    if box_contains(*self, spec_at(*ray, t)) {
                        assert(rx.0 <= t <= rx.1);
                        assert(ry.0 <= t <= ry.1);
                        assert(rz.0 <= t <= rz.1);
                    }
                }
            }
        }
        hit
    }
}

/// `combine` contains both arguments: any point inside either input is inside
/// the result, and the result encloses both boxes.
pub proof fn lemma_combine_contains(a: Aabb, b: Aabb, p: Vec3)
    ensures
        box_contains(a, p) ==> box_contains(Aabb::spec_combine(a, b), p),
        box_contains(b, p) ==> box_contains(Aabb::spec_combine(a, b), p),
        box_encloses(Aabb::spec_combine(a, b), a),
        box_encloses(Aabb::spec_combine(a, b), b),
{
}

/// Containment is carried through an enclosing box.
pub proof fn lemma_encloses_contains(outer: Aabb, inner: Aabb, p: Vec3)
    requires
        box_encloses(outer, inner),
        box_contains(inner, p),
    ensures
        box_contains(outer, p),
{
}

fn shift_axis(i: Interval, off: i64) -> (r: Interval)
    requires
        ival_wf(i),
        -CMAX <= off <= CMAX,
    ensures
        r == spec_shift_axis(i, off as int),
        ival_wf(r),
{
    let lo0 = i.0 + off;
    let hi0 = i.1 + off;
    let lo = if lo0 < 1 - CMAX { 1 - CMAX } else if lo0 > CMAX - 1 { CMAX - 1 } else { lo0 };
    let hi = if hi0 > CMAX - 1 { CMAX - 1 } else if hi0 < 1 - CMAX { 1 - CMAX } else { hi0 };
    Interval(lo, hi)
}

/// For one axis, a conservative range of ray parameters that could place the
/// ray's coordinate inside `[lo, hi]`.
fn axis_range(o: i64, d: i64, lo: i64, hi: i64) -> (res: Option<(i128, i128)>)
    requires
        -CMAX <= o <= CMAX,
        -CMAX <= d <= CMAX,
        -CMAX < lo < CMAX,
        -CMAX < hi < CMAX,
    ensures
        match res {
            None => forall|t: int| -TMAX <= t <= TMAX ==> !(lo <= #[trigger] at_c(o as int, d as int, t) <= hi),
            Some(r) => forall|t: int|
                -TMAX <= t <= TMAX && lo <= #[trigger] at_c(o as int, d as int, t) <= hi
                    ==> r.0 <= t <= r.1,
        },
{
    if d == 0 {
        proof {
            assert forall|t: int| -TMAX <= t <= TMAX implies #[trigger] at_c(o as int, 0int, t) == o by {
                assert(t * 0 == 0) by (nonlinear_arith);
                assert(smul(t, 0int) == 0);
            }
        }
        if lo <= o && o <= hi {
            Some((-(TMAX as i128), TMAX as i128))
        } else {
            None
        }
    } else if d > 0 {
        let a = range_lo(o, d, lo);
        let b = range_hi(o, d, hi);
        proof {
            assert forall|t: int|
                -TMAX <= t <= TMAX && lo <= #[trigger] at_c(o as int, d as int, t) <= hi
                    implies a as int <= t <= b as int by {
                lemma_axis_complete(o as int, d as int, lo as int, hi as int, t);
            }
        }
        Some((a, b))
    } else {
        // at(t) with direction d equals at(-t) with direction -d, so the
        // admissible range is the mirrored range for the positive direction.
        let a = range_lo(o, -d, lo);
        let b = range_hi(o, -d, hi);
        proof {
            assert forall|t: int|
                -TMAX <= t <= TMAX && lo <= #[trigger] at_c(o as int, d as int, t) <= hi
                    implies -(b as int) <= t <= -(a as int) by {
                assert(t * d == (-t) * (-d)) by (nonlinear_arith);
                assert(at_c(o as int, d as int, t) == at_c(o as int, -(d as int), -t));
                lemma_axis_complete(o as int, -(d as int), lo as int, hi as int, -t);
            }
        }
        Some((-b, -a))
    }
}

/// Conservative lower bound: `tdiv((lo - o - 1) * SCALE, d) - 1`.
fn range_lo(o: i64, d: i64, lo: i64) -> (r: i128)
    requires
        0 < d <= CMAX,
        -CMAX <= o <= CMAX,
        -CMAX < lo < CMAX,
    ensures
        r == tdiv((lo - o - 1) * SCALE as int, d as int) - 1,
{
    let m: i128 = (lo as i128) - (o as i128) - 1;
    proof {
        lemma_mul_bound(m as int, SCALE as int, 3 * CMAX as int, SCALE as int);
        lemma_tdiv_bound(m as int * SCALE as int, d as int, 3 * CMAX as int * SCALE as int);
    }
    crate::fixed::div_i128(m * (SCALE as i128), d as i128) - 1
}

/// Conservative upper bound: `tdiv((hi - o + 1) * SCALE, d) + 1`.
fn range_hi(o: i64, d: i64, hi: i64) -> (r: i128)
    requires
        0 < d <= CMAX,
        -CMAX <= o <= CMAX,
        -CMAX < hi < CMAX,
    ensures
        r == tdiv((hi - o + 1) * SCALE as int, d as int) + 1,
{
    let m: i128 = (hi as i128) - (o as i128) + 1;
    proof {
        lemma_mul_bound(m as int, SCALE as int, 3 * CMAX as int, SCALE as int);
        lemma_tdiv_bound(m as int * SCALE as int, d as int, 3 * CMAX as int * SCALE as int);
    }
    crate::fixed::div_i128(m * (SCALE as i128), d as i128) + 1
}

/// If the ray's coordinate at `t` lies in `[lo, hi]`, then `t` lies in the
/// conservative range computed by `range_lo` / `range_hi`.
proof fn lemma_axis_complete(o: int, d: int, lo: int, hi: int, t: int)
    requires
        0 < d,
        -CMAX <= o <= CMAX,
        -CMAX < lo < CMAX,
        -CMAX < hi < CMAX,
        lo <= at_c(o, d, t) <= hi,
    ensures
        tdiv((lo - o - 1) * SCALE as int, d) - 1 <= t,
        t <= tdiv((hi - o + 1) * SCALE as int, d) + 1,
{
    let s = SCALE as int;
    let q = tdiv(t * d, s);
    let v = o + q;
    // The clamp cannot be active: a clamped coordinate would sit outside
    // the strict bounds of the box axis.
    assert(lo <= v <= hi);
    let m = lo - o;
    let bigm = hi - o;
    assert(m <= q <= bigm);
    lemma_tdiv_close(t * d, s);
    assert(s * (m - 1) < t * d) by (nonlinear_arith)
        requires s > 0 && m <= q
            && (t * d >= 0 ==> s * q <= t * d < s * q + s)
            && (t * d < 0 ==> s * q - s < t * d <= s * q);
    assert(t * d < s * (bigm + 1)) by (nonlinear_arith)
        requires s > 0 && q <= bigm
            && (t * d >= 0 ==> s * q <= t * d < s * q + s)
            && (t * d < 0 ==> s * q - s < t * d <= s * q);

    let aa = (lo - o - 1) * s;
    assert(aa == s * (m - 1)) by (nonlinear_arith) requires aa == (m - 1) * s;
    let q1 = tdiv(aa, d);
    lemma_tdiv_close(aa, d);
    assert(d * q1 <= aa + d - 1);
    if t < q1 - 1 {
        assert(t * d <= (q1 - 2) * d) by (nonlinear_arith) requires d > 0 && t <= q1 - 2;
        assert((q1 - 2) * d == d * q1 - 2 * d) by (nonlinear_arith);
        assert(false);
    }

    let bb = (hi - o + 1) * s;
    assert(bb == s * (bigm + 1)) by (nonlinear_arith) requires bb == (bigm + 1) * s;
    let q2 = tdiv(bb, d);
    lemma_tdiv_close(bb, d);
    assert(d * q2 >= bb - d + 1);
    if t > q2 + 1 {
        assert(t * d >= (q2 + 2) * d) by (nonlinear_arith) requires d > 0 && t >= q2 + 2;
        assert((q2 + 2) * d == d * q2 + 2 * d) by (nonlinear_arith);
        assert(false);
    }
}

} // verus!
