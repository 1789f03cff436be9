//! The narrow phase: the Möller–Trumbore ray/triangle test in exact arithmetic.
use vstd::prelude::*;
use crate::vector::{IVec, ivec, vsub, vdot, vcross};
use crate::primitives::{Ray3d, Triangle, Backfaces, RayHit};
use crate::solve::{line_meets_triangle, lemma_within_iff_meets};

verus! {

/// The determinant `e1 . (d x e2)`; its sign tells which face the ray meets.
pub open spec fn mt_det(ray: Ray3d, tri: Triangle) -> int {
    vdot(vsub(tri.v1@, tri.v0@), vcross(ray.direction@, vsub(tri.v2@, tri.v0@)))
}

/// `u * det`, with `u` the barycentric weight of `v1`.
pub open spec fn mt_u(ray: Ray3d, tri: Triangle) -> int {
    vdot(vsub(ray.origin@, tri.v0@), vcross(ray.direction@, vsub(tri.v2@, tri.v0@)))
}

/// `v * det`, with `v` the barycentric weight of `v2`.
pub open spec fn mt_v(ray: Ray3d, tri: Triangle) -> int {
    vdot(ray.direction@, vcross(vsub(ray.origin@, tri.v0@), vsub(tri.v1@, tri.v0@)))
}

/// `t * det`, with `t` the distance along the ray to the triangle's plane.
pub open spec fn mt_t(ray: Ray3d, tri: Triangle) -> int {
    vdot(vsub(tri.v2@, tri.v0@), vcross(vsub(ray.origin@, tri.v0@), vsub(tri.v1@, tri.v0@)))
}

/// Whether the policy accepts a hit with this determinant: culling keeps only
/// a positive one, and a zero determinant (a ray parallel to the plane) never
/// counts.
pub open spec fn facing_ok(policy: Backfaces, det: int) -> bool {
    match policy {
        Backfaces::Cull => det > 0,
        Backfaces::Include => det != 0,
    }
}

/// `x` measured against the determinant's orientation: negated when the
/// determinant is negative, so that the scaled values share a positive
/// denominator.
pub open spec fn oriented(x: int, det: int) -> int {
    if det < 0 {
        -x
    } else {
        x
    }
}

/// The line of the ray meets the closed triangle: `u >= 0`, `v >= 0`,
/// `u + v <= 1`, written over the scaled values.
pub open spec fn within_triangle(ray: Ray3d, tri: Triangle) -> bool {
    let det = mt_det(ray, tri);
    let d = oriented(det, det);
    let u = oriented(mt_u(ray, tri), det);
    let v = oriented(mt_v(ray, tri), det);
    0 <= u && u <= d && 0 <= v && u + v <= d
}

/// What the narrow phase reports for a ray and a triangle.
pub open spec fn mt_spec(ray: Ray3d, tri: Triangle, policy: Backfaces) -> Option<RayHit> {
    if facing_ok(policy, mt_det(ray, tri)) && within_triangle(ray, tri) {
        let det = mt_det(ray, tri);
        Some(
            RayHit {
                den: oriented(det, det) as i64,
                t: oriented(mt_t(ray, tri), det) as i64,
                u: oriented(mt_u(ray, tri), det) as i64,
                v: oriented(mt_v(ray, tri), det) as i64,
            },
        )
    } else {
        None
    }
}

/// The values the narrow phase works with fit comfortably in `i64`.
pub open spec fn mt_values_fit(ray: Ray3d, tri: Triangle) -> bool {
    let b = crate::vector::SPAN_LIMIT as int;
    -b <= mt_det(ray, tri) <= b && -b <= mt_u(ray, tri) <= b && -b <= mt_v(ray, tri) <= b && -b
        <= mt_t(ray, tri) <= b
}

/// The first component of Cramer's rule for `t = -s d + u a + v b`:
/// `det * t.x == u * a.x + v * b.x - s * d.x`, with `det = a . (d x b)`,
/// `u = t . (d x b)`, `v = d . (t x a)` and `s = b . (t x a)`.
proof fn lemma_cramer_x(d: IVec, a: IVec, b: IVec, t: IVec)
    ensures
        vdot(a, vcross(d, b)) * t.x == vdot(t, vcross(d, b)) * a.x + vdot(d, vcross(t, a)) * b.x - vdot(
            b,
            vcross(t, a),
        ) * d.x,
{
    let (dx, dy, dz) = (d.x, d.y, d.z);
    let (ax, ay, az) = (a.x, a.y, a.z);
    let (bx, by, bz) = (b.x, b.y, b.z);
    let (tx, ty, tz) = (t.x, t.y, t.z);
    let px = dy * bz - dz * by;
    let py = dz * bx - dx * bz;
    let pz = dx * by - dy * bx;
    let qx = ty * az - tz * ay;
    let qy = tz * ax - tx * az;
    let qz = tx * ay - ty * ax;
    let det = ax * px + ay * py + az * pz;
    let u = tx * px + ty * py + tz * pz;
    let v = dx * qx + dy * qy + dz * qz;
    let s = bx * qx + by * qy + bz * qz;
    assert(v * bx == dx * qx * bx + dy * qy * bx + dz * qz * bx) by (nonlinear_arith)
        requires
            v == dx * qx + dy * qy + dz * qz,
    ;
    assert(s * dx == bx * qx * dx + by * qy * dx + bz * qz * dx) by (nonlinear_arith)
        requires
            s == bx * qx + by * qy + bz * qz,
    ;
    assert(dx * qx * bx == bx * qx * dx) by (nonlinear_arith);
    assert(dy * qy * bx - by * qy * dx == -(qy * pz)) by (nonlinear_arith)
        requires
            pz == dx * by - dy * bx,
    ;
    assert(dz * qz * bx - bz * qz * dx == qz * py) by (nonlinear_arith)
        requires
            py == dz * bx - dx * bz,
    ;
    assert(u * ax == tx * px * ax + ty * py * ax + tz * pz * ax) by (nonlinear_arith)
        requires
            u == tx * px + ty * py + tz * pz,
    ;
    assert(qy * pz == tz * ax * pz - tx * az * pz) by (nonlinear_arith)
        requires
            qy == tz * ax - tx * az,
    ;
    assert(qz * py == tx * ay * py - ty * ax * py) by (nonlinear_arith)
        requires
            qz == tx * ay - ty * ax,
    ;
    assert(det * tx == ax * px * tx + ay * py * tx + az * pz * tx) by (nonlinear_arith)
        requires
            det == ax * px + ay * py + az * pz,
    ;
    assert(tx * px * ax == ax * px * tx) by (nonlinear_arith);
    assert(tz * pz * ax == tz * ax * pz) by (nonlinear_arith);
    assert(tx * az * pz == az * pz * tx) by (nonlinear_arith);
    assert(tx * ay * py == ay * py * tx) by (nonlinear_arith);
    assert(ty * py * ax == ty * ax * py) by (nonlinear_arith);
}

pub open spec fn rotate(v: IVec) -> IVec {
    ivec(v.y, v.z, v.x)
}

/// Cramer's rule for the narrow phase, all three components:
/// `det * (o - v0) == u * e1 + v * e2 - t * d`.
pub proof fn lemma_cramer(ray: Ray3d, tri: Triangle)
    ensures
        ({
            let a = vsub(tri.v1@, tri.v0@);
            let b = vsub(tri.v2@, tri.v0@);
            let t = vsub(ray.origin@, tri.v0@);
            let d = ray.direction@;
            let (det, u, v, s) = (mt_det(ray, tri), mt_u(ray, tri), mt_v(ray, tri), mt_t(ray, tri));
            &&& det * t.x == u * a.x + v * b.x - s * d.x
            &&& det * t.y == u * a.y + v * b.y - s * d.y
            &&& det * t.z == u * a.z + v * b.z - s * d.z
        }),
{
    let a = vsub(tri.v1@, tri.v0@);
    let b = vsub(tri.v2@, tri.v0@);
    let t = vsub(ray.origin@, tri.v0@);
    let d = ray.direction@;
    lemma_cramer_x(d, a, b, t);
    lemma_cramer_x(rotate(d), rotate(a), rotate(b), rotate(t));
    lemma_cramer_x(rotate(rotate(d)), rotate(rotate(a)), rotate(rotate(b)), rotate(rotate(t)));
}

/// The reported hit lies on the triangle: the point at distance `t / den`
/// along the ray is `v0 + (u / den) * (v1 - v0) + (v / den) * (v2 - v0)`,
/// written here scaled by `den`, with `u, v >= 0` and `u + v <= den`.
pub proof fn lemma_hit_on_triangle(ray: Ray3d, tri: Triangle, policy: Backfaces)
    requires
        mt_values_fit(ray, tri),
        mt_spec(ray, tri, policy) is Some,
    ensures
        on_triangle(ray, tri, mt_spec(ray, tri, policy).unwrap()),
{
    lemma_cramer(ray, tri);
    let h = mt_spec(ray, tri, policy).unwrap();
    let a = vsub(tri.v1@, tri.v0@);
    let b = vsub(tri.v2@, tri.v0@);
    let o = ray.origin@;
    let d = ray.direction@;
    let v0 = tri.v0@;
    let det = mt_det(ray, tri);
    let (n, u, v, s) = (h.den as int, h.u as int, h.v as int, h.t as int);
    // The hit's values are the determinant and numerators, negated together
    // when the determinant is negative.
    assert(n * o.x + s * d.x == n * v0.x + u * a.x + v * b.x) by (nonlinear_arith)
        requires
            det * (o.x - v0.x) == mt_u(ray, tri) * a.x + mt_v(ray, tri) * b.x - mt_t(ray, tri) * d.x,
            (det < 0 && n == -det && u == -mt_u(ray, tri) && v == -mt_v(ray, tri) && s == -mt_t(ray, tri))
                || (det >= 0 && n == det && u == mt_u(ray, tri) && v == mt_v(ray, tri) && s == mt_t(ray, tri)),
    ;
    assert(n * o.y + s * d.y == n * v0.y + u * a.y + v * b.y) by (nonlinear_arith)
        requires
            det * (o.y - v0.y) == mt_u(ray, tri) * a.y + mt_v(ray, tri) * b.y - mt_t(ray, tri) * d.y,
            (det < 0 && n == -det && u == -mt_u(ray, tri) && v == -mt_v(ray, tri) && s == -mt_t(ray, tri))
                || (det >= 0 && n == det && u == mt_u(ray, tri) && v == mt_v(ray, tri) && s == mt_t(ray, tri)),
    ;
    assert(n * o.z + s * d.z == n * v0.z + u * a.z + v * b.z) by (nonlinear_arith)
        requires
            det * (o.z - v0.z) == mt_u(ray, tri) * a.z + mt_v(ray, tri) * b.z - mt_t(ray, tri) * d.z,
            (det < 0 && n == -det && u == -mt_u(ray, tri) && v == -mt_v(ray, tri) && s == -mt_t(ray, tri))
                || (det >= 0 && n == det && u == mt_u(ray, tri) && v == mt_v(ray, tri) && s == mt_t(ray, tri)),
    ;
}

/// The hit's point, `t / den` along the ray, is the point of the triangle
/// with barycentric coordinates `(u / den, v / den)`: both sides are scaled
/// by `den`, and the weights are non-negative with `u + v <= den`.
pub open spec fn on_triangle(ray: Ray3d, tri: Triangle, h: RayHit) -> bool {
    let a = vsub(tri.v1@, tri.v0@);
    let b = vsub(tri.v2@, tri.v0@);
    &&& crate::primitives::point_at(ray, h.t as int, h.den as int) == ivec(
        h.den * tri.v0.x + h.u * a.x + h.v * b.x,
        h.den * tri.v0.y + h.u * a.y + h.v * b.y,
        h.den * tri.v0.z + h.u * a.z + h.v * b.z,
    )
    &&& 0 <= h.u && 0 <= h.v && h.u + h.v <= h.den
}

/// The determinant `e1 . (d x e2)`: positive when the ray meets the
/// triangle's front face, the one from which its vertices turn
/// counter-clockwise.
pub fn orientation(ray: &Ray3d, triangle: &Triangle) -> (r: i64)
    requires
        ray.wf(),
        triangle.wf(),
    ensures
        r == mt_det(*ray, *triangle),
{
    let e1 = triangle.v1.minus(&triangle.v0);
    let e2 = triangle.v2.minus(&triangle.v0);
    let p = ray.direction.cross(&e2);
    e1.dot(&p)
}

/// Möller–Trumbore: where, if anywhere, the ray meets the triangle. The hit's
/// distance may be zero or negative (behind the origin): callers filter it.
pub fn raycast_moller_trumbore(ray: &Ray3d, triangle: &Triangle, backface_culling: Backfaces) -> (r:
    Option<RayHit>)
    requires
        ray.wf(),
        triangle.wf(),
    ensures
        r == mt_spec(*ray, *triangle, backface_culling),
        r.is_some() <==> facing_ok(backface_culling, mt_det(*ray, *triangle)) && line_meets_triangle(
            *ray,
            *triangle,
        ),
        mt_values_fit(*ray, *triangle),
        r matches Some(h) ==> h.den > 0 && on_triangle(*ray, *triangle, h),
{
    let e1 = triangle.v1.minus(&triangle.v0);
    let e2 = triangle.v2.minus(&triangle.v0);
    let p = ray.direction.cross(&e2);
    let det = e1.dot(&p);
    proof {
        if det != 0 {
            lemma_within_iff_meets(*ray, *triangle);
        }
    }
    let tv = ray.origin.minus(&triangle.v0);
    let u = tv.dot(&p);
    let q = tv.cross(&e1);
    let v = ray.direction.dot(&q);
    let t = e2.dot(&q);
    let accepted = match backface_culling {
        Backfaces::Cull => det > 0,
        Backfaces::Include => det != 0,
    };
    if !accepted {
        return None;
    }
    let (d, t, u, v) = if det < 0 {
        (-det, -t, -u, -v)
    } else {
        (det, t, u, v)
    };
    if u < 0 || u > d {
        return None;
    }
    if v < 0 || u + v > d {
        return None;
    }
    proof {
        lemma_hit_on_triangle(*ray, *triangle, backface_culling);
    }
    Some(RayHit { den: d, t, u, v })
}

/// The narrow-phase test used by the picking engine.
pub fn ray_triangle_intersection(ray: &Ray3d, triangle: &Triangle, backface_culling: Backfaces) -> (r:
    Option<RayHit>)
    requires
        ray.wf(),
        triangle.wf(),
    ensures
        r == mt_spec(*ray, *triangle, backface_culling),
        r.is_some() <==> facing_ok(backface_culling, mt_det(*ray, *triangle)) && line_meets_triangle(
            *ray,
            *triangle,
        ),
        mt_values_fit(*ray, *triangle),
        r matches Some(h) ==> h.den > 0 && on_triangle(*ray, *triangle, h),
{
    raycast_moller_trumbore(ray, triangle, backface_culling)
}

} // verus!
