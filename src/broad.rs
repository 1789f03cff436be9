//! The broad phase: where a ray enters and leaves a box placed in the world.
use vstd::prelude::*;
use crate::vector::{
    Vec3, IVec, ivec, in_limit, bounded, vsub, vdot, vcross, lemma_dot_bound, lemma_cross_bound, COORD_LIMIT, SPAN_LIMIT, AXIS_LIMIT, DET_LIMIT,
    BOX_LIMIT, lemma_mul_bound,
};
use crate::primitives::{Ray3d, Frac, Transform, cross_axes};
use crate::narrow::oriented;

verus! {

/// An axis-aligned box in local coordinates.
#[derive(Clone, Copy, Debug, PartialEq, Eq, Structural)]
pub struct Aabb {
    pub min: Vec3,
    pub max: Vec3,
}

impl Aabb {
    pub open spec fn wf(self) -> bool {
        in_limit(self.min) && in_limit(self.max) && self.min.x <= self.max.x && self.min.y
            <= self.max.y && self.min.z <= self.max.z
    }

    pub fn from_min_max(min: Vec3, max: Vec3) -> (r: Aabb)
        ensures
            r.min == min && r.max == max,
    {
        Aabb { min, max }
    }
}

/// The set of distances along a ray that lie between two parallel planes, or
/// within several such pairs.
#[derive(Clone, Copy, Debug, PartialEq, Eq, Structural)]
pub enum Interval {
    /// Every distance.
    Free,
    /// No distance.
    Empty,
    /// The distances from `lo` to `hi`, both included.
    Range(Frac, Frac),
}

/// The slab of one axis: the distances at which `o + t * d` lies between
/// the planes `lo` and `hi`, all measured along that axis in one common
/// scale.
pub open spec fn slab_spec(o: int, d: int, lo: int, hi: int) -> Interval {
    if d == 0 {
        if lo <= o && o <= hi {
            Interval::Free
        } else {
            Interval::Empty
        }
    } else if d > 0 {
        Interval::Range(Frac { num: (lo - o) as i64, den: d as i64 }, Frac { num: (hi - o) as i64, den: d as i64 })
    } else {
        Interval::Range(Frac { num: (o - hi) as i64, den: -d as i64 }, Frac { num: (o - lo) as i64, den: -d as i64 })
    }
}

/// The intersection of two intervals; a range ends up empty only when one
/// lies wholly beyond the other (touching ranges meet).
pub open spec fn meet_spec(a: Interval, b: Interval) -> Interval {
    match (a, b) {
        (Interval::Empty, _) => Interval::Empty,
        (_, Interval::Empty) => Interval::Empty,
        (Interval::Free, _) => b,
        (_, Interval::Free) => a,
        (Interval::Range(alo, ahi), Interval::Range(blo, bhi)) => {
            if ahi.lt_spec(blo) || bhi.lt_spec(alo) {
                Interval::Empty
            } else {
                let lo = if alo.lt_spec(blo) {
                    blo
                } else {
                    alo
                };
                let hi = if bhi.lt_spec(ahi) {
                    bhi
                } else {
                    ahi
                };
                Interval::Range(lo, hi)
            }
        },
    }
}

pub open spec fn interval_wf(a: Interval) -> bool {
    a matches Interval::Range(lo, hi) ==> lo.wf() && hi.wf()
}

/// Row `axis` of `det * L^-1`, for the transform's linear part `L` with
/// columns `x_axis`, `y_axis`, `z_axis`: the local coordinate `axis` of a
/// world vector `w` is `w . row / det`.
pub open spec fn inverse_row(tf: Transform, axis: int) -> IVec {
    if axis == 0 {
        vcross(tf.y_axis@, tf.z_axis@)
    } else if axis == 1 {
        vcross(tf.z_axis@, tf.x_axis@)
    } else {
        vcross(tf.x_axis@, tf.y_axis@)
    }
}

/// The slab of one local axis, with the box's planes at `lo` and `hi`: the
/// ray's origin and direction are taken to local coordinates scaled by
/// `|det|`, and so are the planes.
pub open spec fn local_slab(ray: Ray3d, tf: Transform, row: IVec, lo: int, hi: int) -> Interval {
    let det = tf.det();
    let ad = oriented(det, det);
    slab_spec(
        oriented(vdot(vsub(ray.origin@, tf.translation@), row), det),
        oriented(vdot(ray.direction@, row), det),
        ad * lo,
        ad * hi,
    )
}

/// The interval of distances at which the ray lies in the box placed by `tf`.
pub open spec fn box_interval(ray: Ray3d, aabb: Aabb, tf: Transform) -> Interval {
    meet_spec(
        meet_spec(
            local_slab(ray, tf, inverse_row(tf, 0), aabb.min.x as int, aabb.max.x as int),
            local_slab(ray, tf, inverse_row(tf, 1), aabb.min.y as int, aabb.max.y as int),
        ),
        local_slab(ray, tf, inverse_row(tf, 2), aabb.min.z as int, aabb.max.z as int),
    )
}

/// The inputs of one slab are small enough for exact fractions in `i64`.
pub open spec fn slab_inputs_ok(o: int, d: int, lo: int, hi: int) -> bool {
    &&& -SPAN_LIMIT <= o <= SPAN_LIMIT
    &&& -SPAN_LIMIT <= d <= SPAN_LIMIT
    &&& -BOX_LIMIT <= lo <= BOX_LIMIT
    &&& -BOX_LIMIT <= hi <= BOX_LIMIT
}

fn slab(o: i64, d: i64, lo: i64, hi: i64) -> (r: Interval)
    requires
        slab_inputs_ok(o as int, d as int, lo as int, hi as int),
    ensures
        r == slab_spec(o as int, d as int, lo as int, hi as int),
        interval_wf(r),
{
    if d == 0 {
        if lo <= o && o <= hi {
            Interval::Free
        } else {
            Interval::Empty
        }
    } else if d > 0 {
        Interval::Range(Frac { num: lo - o, den: d }, Frac { num: hi - o, den: d })
    } else {
        Interval::Range(Frac { num: o - hi, den: -d }, Frac { num: o - lo, den: -d })
    }
}

fn meet(a: Interval, b: Interval) -> (r: Interval)
    requires
        interval_wf(a),
        interval_wf(b),
    ensures
        r == meet_spec(a, b),
        interval_wf(r),
{
    match (a, b) {
        (Interval::Empty, _) => Interval::Empty,
        (_, Interval::Empty) => Interval::Empty,
        (Interval::Free, _) => b,
        (_, Interval::Free) => a,
        (Interval::Range(alo, ahi), Interval::Range(blo, bhi)) => {
            if ahi.lt(&blo) || bhi.lt(&alo) {
                Interval::Empty
            } else {
                let lo = if alo.lt(&blo) {
                    blo
                } else {
                    alo
                };
                let hi = if bhi.lt(&ahi) {
                    bhi
                } else {
                    ahi
                };
                Interval::Range(lo, hi)
            }
        },
    }
}

/// The slab of one local axis, computed.
fn local_slab_exec(ray: &Ray3d, tf: &Transform, det: i64, row: &Vec3, lo: i64, hi: i64) -> (r: Interval)
    requires
        ray.wf(),
        tf.wf(),
        det == tf.det(),
        -DET_LIMIT <= det <= DET_LIMIT,
        bounded(row@, 2 * AXIS_LIMIT * AXIS_LIMIT),
        -COORD_LIMIT <= lo <= hi <= COORD_LIMIT,
    ensures
        r == local_slab(*ray, *tf, row@, lo as int, hi as int),
        interval_wf(r),
        interval_ordered(r),
{
    let rel = ray.origin.minus(&tf.translation);
    let o = rel.dot(row);
    let d = ray.direction.dot(row);
    let (o, d, ad) = if det < 0 {
        (-o, -d, -det)
    } else {
        (o, d, det)
    };
    proof {
        lemma_mul_bound(ad as int, lo as int, DET_LIMIT as int, COORD_LIMIT as int);
        lemma_mul_bound(ad as int, hi as int, DET_LIMIT as int, COORD_LIMIT as int);
        lemma_scaled_le(ad as int, lo as int, hi as int);
        lemma_slab_ordered(o as int, d as int, ad * lo, ad * hi);
    }
    slab(o, d, ad * lo, ad * hi)
}

impl Ray3d {
    /// Where the ray enters and leaves the box placed in the world by
    /// `model_to_world`: the nearest and farthest distances at which it lies
    /// in the box, or `None` if it misses the box's slabs. The distances may be
    /// negative: a box behind the origin gives a `far` below zero.
    pub fn intersects_aabb(&self, aabb: &Aabb, model_to_world: &Transform) -> (r: Option<(Frac, Frac)>)
        requires
            self.wf(),
            aabb.wf(),
            model_to_world.wf(),
        ensures
            match box_interval(*self, *aabb, *model_to_world) {
                Interval::Range(lo, hi) => r == Some((lo, hi)),
                _ => r.is_none(),
            },
            r matches Some((n, f)) ==> n.wf() && f.wf() && !f.lt_spec(n),
    {
        let tf = model_to_world;
        let det = tf.determinant();
        let sx = local_slab_exec(self, tf, det, &cross_axes(&tf.y_axis, &tf.z_axis), aabb.min.x, aabb.max.x);
        let sy = local_slab_exec(self, tf, det, &cross_axes(&tf.z_axis, &tf.x_axis), aabb.min.y, aabb.max.y);
        let sz = local_slab_exec(self, tf, det, &cross_axes(&tf.x_axis, &tf.y_axis), aabb.min.z, aabb.max.z);
        let all = meet(meet(sx, sy), sz);
        match all {
            Interval::Range(lo, hi) => {
                proof {
                    lemma_meet_ordered(sx, sy);
                    lemma_meet_ordered(meet_spec(sx, sy), sz);
                }
                Some((lo, hi))
            },
            _ => None,
        }
    }
}

proof fn lemma_scaled_le(s: int, a: int, b: int)
    requires
        s >= 1,
        a <= b,
    ensures
        s * a <= s * b,
{
    vstd::arithmetic::mul::lemma_mul_inequality(a, b, s);
    vstd::arithmetic::mul::lemma_mul_is_commutative(a, s);
    vstd::arithmetic::mul::lemma_mul_is_commutative(b, s);
}

pub open spec fn interval_ordered(a: Interval) -> bool {
    a matches Interval::Range(lo, hi) ==> !hi.lt_spec(lo)
}

proof fn lemma_slab_ordered(o: int, d: int, lo: int, hi: int)
    requires
        lo <= hi,
        slab_inputs_ok(o as int, d as int, lo as int, hi as int),
    ensures
        interval_ordered(slab_spec(o, d, lo, hi)),
{
    if d > 0 {
        vstd::arithmetic::mul::lemma_mul_inequality(lo - o, hi - o, d);
        vstd::arithmetic::mul::lemma_mul_is_commutative(lo - o, d);
        vstd::arithmetic::mul::lemma_mul_is_commutative(hi - o, d);
    } else if d < 0 {
        vstd::arithmetic::mul::lemma_mul_inequality(o - hi, o - lo, -d);
        vstd::arithmetic::mul::lemma_mul_is_commutative(o - hi, -d);
        vstd::arithmetic::mul::lemma_mul_is_commutative(o - lo, -d);
    }
}

proof fn lemma_meet_ordered(a: Interval, b: Interval)
    requires
        interval_ordered(a),
        interval_ordered(b),
        interval_wf(a),
        interval_wf(b),
    ensures
        interval_ordered(meet_spec(a, b)),
{
    if let (Interval::Range(alo, ahi), Interval::Range(blo, bhi)) = (a, b) {
        if !(ahi.lt_spec(blo) || bhi.lt_spec(alo)) {
            lemma_frac_total(alo, blo);
            lemma_frac_total(bhi, ahi);
        }
    }
}

/// Two fractions with positive denominators are ordered one way or the other.
pub proof fn lemma_frac_total(a: Frac, b: Frac)
    ensures
        a.lt_spec(b) || b.lt_spec(a) || a.num * b.den == b.num * a.den,
{
}


/// `t` lies in the interval.
pub open spec fn in_interval(iv: Interval, t: Frac) -> bool {
    match iv {
        Interval::Free => true,
        Interval::Empty => false,
        Interval::Range(lo, hi) => !t.lt_spec(lo) && !hi.lt_spec(t),
    }
}

/// At distance `t`, the ray's coordinate along one axis, `o + t * d`, lies
/// between `lo` and `hi`; all scaled by `t`'s denominator.
pub open spec fn within_slab(o: int, d: int, lo: int, hi: int, t: Frac) -> bool {
    t.den * lo <= t.den * o + t.num * d <= t.den * hi
}

/// The ray's point at distance `t`, less the translation, scaled by `t`'s
/// denominator: `den * (origin - translation) + num * direction`.
pub open spec fn offset_at(ray: Ray3d, tf: Transform, t: Frac) -> IVec {
    let (o, d, tr) = (ray.origin, ray.direction, tf.translation);
    ivec(
        t.den * (o.x - tr.x) + t.num * d.x,
        t.den * (o.y - tr.y) + t.num * d.y,
        t.den * (o.z - tr.z) + t.num * d.z,
    )
}

/// Along one local axis the point at distance `t` lies between `lo` and
/// `hi`: its local coordinate is `offset . row / (den * det)`; both sides
/// are scaled by `den * |det|`.
pub open spec fn within_local(ray: Ray3d, tf: Transform, t: Frac, row: IVec, lo: int, hi: int) -> bool {
    let det = tf.det();
    let ad = oriented(det, det);
    t.den * (ad * lo) <= oriented(vdot(offset_at(ray, tf, t), row), det) <= t.den * (ad * hi)
}

/// At distance `t` the ray's point lies in the box placed by `tf`: its local
/// coordinates lie between the box's corners.
pub open spec fn in_placed_box(ray: Ray3d, aabb: Aabb, tf: Transform, t: Frac) -> bool {
    &&& within_local(ray, tf, t, inverse_row(tf, 0), aabb.min.x as int, aabb.max.x as int)
    &&& within_local(ray, tf, t, inverse_row(tf, 1), aabb.min.y as int, aabb.max.y as int)
    &&& within_local(ray, tf, t, inverse_row(tf, 2), aabb.min.z as int, aabb.max.z as int)
}

/// The slab test of one local axis is exact.
proof fn lemma_local_slab_exact(ray: Ray3d, tf: Transform, t: Frac, row: IVec, lo: int, hi: int)
    requires
        ray.wf(),
        tf.wf(),
        t.wf(),
        bounded(row, 2 * AXIS_LIMIT * AXIS_LIMIT),
        -COORD_LIMIT <= lo <= COORD_LIMIT,
        -COORD_LIMIT <= hi <= COORD_LIMIT,
    ensures
        in_interval(local_slab(ray, tf, row, lo, hi), t) <==> within_local(ray, tf, t, row, lo, hi),
        interval_wf(local_slab(ray, tf, row, lo, hi)),
{
    let det = tf.det();
    let ad = oriented(det, det);
    let rel = vsub(ray.origin@, tf.translation@);
    let x = vdot(rel, row);
    let y = vdot(ray.direction@, row);
    lemma_dot_bound(rel, row, 131072, 33554432);
    lemma_dot_bound(ray.direction@, row, 65536, 33554432);
    lemma_det_bound(tf);
    lemma_mul_bound(ad, lo, DET_LIMIT as int, COORD_LIMIT as int);
    lemma_mul_bound(ad, hi, DET_LIMIT as int, COORD_LIMIT as int);
    let o = oriented(x, det);
    let d = oriented(y, det);
    lemma_slab_exact(o, d, ad * lo, ad * hi, t);
    lemma_slab_wf(o, d, ad * lo, ad * hi);
    let (n, m) = (t.num as int, t.den as int);
    lemma_dot_offset(rel, ray.direction@, row, m, n);
    assert(offset_at(ray, tf, t) == ivec(m * rel.x + n * ray.direction@.x, m * rel.y + n * ray.direction@.y, m * rel.z + n * ray.direction@.z));
    assert(m * -x + n * -y == -(m * x + n * y)) by (nonlinear_arith);
}

/// `(m a + n d) . r == m (a . r) + n (d . r)`.
proof fn lemma_dot_offset(a: IVec, d: IVec, r: IVec, m: int, n: int)
    ensures
        vdot(ivec(m * a.x + n * d.x, m * a.y + n * d.y, m * a.z + n * d.z), r) == m * vdot(a, r) + n * vdot(d, r),
{
    assert((m * a.x + n * d.x) * r.x == m * (a.x * r.x) + n * (d.x * r.x)) by (nonlinear_arith);
    assert((m * a.y + n * d.y) * r.y == m * (a.y * r.y) + n * (d.y * r.y)) by (nonlinear_arith);
    assert((m * a.z + n * d.z) * r.z == m * (a.z * r.z) + n * (d.z * r.z)) by (nonlinear_arith);
    assert(m * vdot(a, r) == m * (a.x * r.x) + m * (a.y * r.y) + m * (a.z * r.z)) by (nonlinear_arith);
    assert(n * vdot(d, r) == n * (d.x * r.x) + n * (d.y * r.y) + n * (d.z * r.z)) by (nonlinear_arith);
}

/// The determinant of axes within `AXIS_LIMIT` lies within `DET_LIMIT`.
pub proof fn lemma_det_bound(tf: Transform)
    requires
        bounded(tf.x_axis@, AXIS_LIMIT as int),
        bounded(tf.y_axis@, AXIS_LIMIT as int),
        bounded(tf.z_axis@, AXIS_LIMIT as int),
    ensures
        -DET_LIMIT <= tf.det() <= DET_LIMIT,
{
    lemma_cross_bound(tf.y_axis@, tf.z_axis@, AXIS_LIMIT as int);
    lemma_dot_bound(tf.x_axis@, vcross(tf.y_axis@, tf.z_axis@), AXIS_LIMIT as int, 2 * AXIS_LIMIT * AXIS_LIMIT);
}

proof fn lemma_slab_exact(o: int, d: int, lo: int, hi: int, t: Frac)
    requires
        t.wf(),
        slab_inputs_ok(o as int, d as int, lo as int, hi as int),
    ensures
        in_interval(slab_spec(o, d, lo, hi), t) <==> within_slab(o, d, lo, hi, t),
{
    let (n, m) = (t.num as int, t.den as int);
    assert(m * lo - m * o == (lo - o) * m && m * hi - m * o == (hi - o) * m && (o - hi) * m == m * o - m * hi
        && (o - lo) * m == m * o - m * lo && n * d == d * n && n * -d == -(n * d)) by (nonlinear_arith);
    if d == 0 {
        assert(n * d == 0) by (nonlinear_arith)
            requires
                d == 0,
        ;
        assert(m * lo <= m * o <==> lo <= o) by (nonlinear_arith)
            requires
                m > 0,
        ;
        assert(m * o <= m * hi <==> o <= hi) by (nonlinear_arith)
            requires
                m > 0,
        ;
    }
}

proof fn lemma_le_trans(a: Frac, b: Frac, c: Frac)
    requires
        a.wf(),
        b.wf(),
        c.wf(),
        !b.lt_spec(a),
        !c.lt_spec(b),
    ensures
        !c.lt_spec(a),
{
    if c.lt_spec(a) {
        crate::primitives::lemma_lt_le_trans(c, a, b);
    }
}

proof fn lemma_meet_exact(a: Interval, b: Interval, t: Frac)
    requires
        interval_wf(a),
        interval_wf(b),
        t.wf(),
    ensures
        in_interval(meet_spec(a, b), t) <==> in_interval(a, t) && in_interval(b, t),
{
    if let (Interval::Range(alo, ahi), Interval::Range(blo, bhi)) = (a, b) {
        if ahi.lt_spec(blo) {
            if in_interval(a, t) && in_interval(b, t) {
                // blo <= t <= ahi contradicts ahi < blo.
                crate::primitives::lemma_lt_le_trans(ahi, blo, t);
            }
        } else if bhi.lt_spec(alo) {
            if in_interval(a, t) && in_interval(b, t) {
                crate::primitives::lemma_lt_le_trans(bhi, alo, t);
            }
        } else {
            lemma_frac_total(alo, blo);
            lemma_frac_total(bhi, ahi);
            if alo.lt_spec(blo) {
                if !t.lt_spec(blo) {
                    lemma_le_trans(alo, blo, t);
                }
            } else {
                if !t.lt_spec(alo) {
                    lemma_le_trans(blo, alo, t);
                }
            }
            if bhi.lt_spec(ahi) {
                if !bhi.lt_spec(t) {
                    lemma_le_trans(t, bhi, ahi);
                }
            } else {
                if !ahi.lt_spec(t) {
                    lemma_le_trans(t, ahi, bhi);
                }
            }
        }
    }
}

/// The broad phase is exact: a distance lies in the box's interval exactly
/// when the ray's point at that distance lies in the placed box.
pub proof fn lemma_box_interval_exact(ray: Ray3d, aabb: Aabb, tf: Transform, t: Frac)
    requires
        ray.wf(),
        aabb.wf(),
        tf.wf(),
        t.wf(),
    ensures
        in_interval(box_interval(ray, aabb, tf), t) <==> in_placed_box(ray, aabb, tf, t),
{
    lemma_cross_bound(tf.y_axis@, tf.z_axis@, AXIS_LIMIT as int);
    lemma_cross_bound(tf.z_axis@, tf.x_axis@, AXIS_LIMIT as int);
    lemma_cross_bound(tf.x_axis@, tf.y_axis@, AXIS_LIMIT as int);
    let sx = local_slab(ray, tf, inverse_row(tf, 0), aabb.min.x as int, aabb.max.x as int);
    let sy = local_slab(ray, tf, inverse_row(tf, 1), aabb.min.y as int, aabb.max.y as int);
    let sz = local_slab(ray, tf, inverse_row(tf, 2), aabb.min.z as int, aabb.max.z as int);
    lemma_local_slab_exact(ray, tf, t, inverse_row(tf, 0), aabb.min.x as int, aabb.max.x as int);
    lemma_local_slab_exact(ray, tf, t, inverse_row(tf, 1), aabb.min.y as int, aabb.max.y as int);
    lemma_local_slab_exact(ray, tf, t, inverse_row(tf, 2), aabb.min.z as int, aabb.max.z as int);
    lemma_meet_exact(sx, sy, t);
    lemma_meet_wf(sx, sy);
    lemma_meet_exact(meet_spec(sx, sy), sz, t);
}

proof fn lemma_slab_wf(o: int, d: int, lo: int, hi: int)
    requires
        slab_inputs_ok(o, d, lo, hi),
    ensures
        interval_wf(slab_spec(o, d, lo, hi)),
{
}

proof fn lemma_meet_wf(a: Interval, b: Interval)
    requires
        interval_wf(a),
        interval_wf(b),
    ensures
        interval_wf(meet_spec(a, b)),
{
}

} // verus!
