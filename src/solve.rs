//! The narrow phase as a statement about points: when the ray's line crosses
//! the triangle's plane, Möller–Trumbore accepts exactly when some point of
//! the closed triangle lies on that line.
use vstd::prelude::*;
use crate::vector::{IVec, vsub, vdot, vcross};
use crate::primitives::{Ray3d, Triangle};
use crate::narrow::{mt_det, mt_u, mt_v, mt_t, within_triangle, oriented, lemma_cramer};

verus! {

/// The triple product `a . (b x c)` written out term by term.
pub open spec fn triple(a: IVec, b: IVec, c: IVec) -> int {
    a.x * b.y * c.z - a.x * b.z * c.y + a.y * b.z * c.x - a.y * b.x * c.z + a.z * b.x * c.y - a.z * b.y * c.x
}

proof fn lemma_triple_expand(a: IVec, b: IVec, c: IVec)
    ensures
        vdot(a, vcross(b, c)) == triple(a, b, c),
{
    assert(a.x * (b.y * c.z - b.z * c.y) == a.x * b.y * c.z - a.x * b.z * c.y) by (nonlinear_arith);
    assert(a.y * (b.z * c.x - b.x * c.z) == a.y * b.z * c.x - a.y * b.x * c.z) by (nonlinear_arith);
    assert(a.z * (b.x * c.y - b.y * c.x) == a.z * b.x * c.y - a.z * b.y * c.x) by (nonlinear_arith);
}

proof fn lemma_triple_cyclic(a: IVec, b: IVec, c: IVec)
    ensures
        triple(b, c, a) == triple(a, b, c),
{
    assert(b.x * c.y * a.z == a.z * b.x * c.y) by (nonlinear_arith);
    assert(b.x * c.z * a.y == a.y * b.x * c.z) by (nonlinear_arith);
    assert(b.y * c.z * a.x == a.x * b.y * c.z) by (nonlinear_arith);
    assert(b.y * c.x * a.z == a.z * b.y * c.x) by (nonlinear_arith);
    assert(b.z * c.x * a.y == a.y * b.z * c.x) by (nonlinear_arith);
    assert(b.z * c.y * a.x == a.x * b.z * c.y) by (nonlinear_arith);
}

proof fn lemma_triple_swap(a: IVec, b: IVec, c: IVec)
    ensures
        triple(b, a, c) == -triple(a, b, c),
{
    assert(b.x * a.y * c.z == a.y * b.x * c.z) by (nonlinear_arith);
    assert(b.x * a.z * c.y == a.z * b.x * c.y) by (nonlinear_arith);
    assert(b.y * a.z * c.x == a.z * b.y * c.x) by (nonlinear_arith);
    assert(b.y * a.x * c.z == a.x * b.y * c.z) by (nonlinear_arith);
    assert(b.z * a.x * c.y == a.x * b.z * c.y) by (nonlinear_arith);
    assert(b.z * a.y * c.x == a.y * b.z * c.x) by (nonlinear_arith);
}

proof fn lemma_triple_repeat(a: IVec, c: IVec)
    ensures
        triple(a, a, c) == 0,
{
    assert(a.x * a.y * c.z == a.y * a.x * c.z) by (nonlinear_arith);
    assert(a.x * a.z * c.y == a.z * a.x * c.y) by (nonlinear_arith);
    assert(a.y * a.z * c.x == a.z * a.y * c.x) by (nonlinear_arith);
}

/// `(u a + v b - s d) . w`, expanded, when `k t` equals that combination.
proof fn lemma_dot_combination(t: IVec, a: IVec, b: IVec, d: IVec, w: IVec, k: int, u: int, v: int, s: int)
    requires
        k * t.x == u * a.x + v * b.x - s * d.x,
        k * t.y == u * a.y + v * b.y - s * d.y,
        k * t.z == u * a.z + v * b.z - s * d.z,
    ensures
        k * vdot(t, w) == u * vdot(a, w) + v * vdot(b, w) - s * vdot(d, w),
{
    assert(k * vdot(t, w) == k * (t.x * w.x) + k * (t.y * w.y) + k * (t.z * w.z)) by (nonlinear_arith);
    assert(k * (t.x * w.x) == (k * t.x) * w.x) by (nonlinear_arith);
    assert(k * (t.y * w.y) == (k * t.y) * w.y) by (nonlinear_arith);
    assert(k * (t.z * w.z) == (k * t.z) * w.z) by (nonlinear_arith);
    assert((u * a.x + v * b.x - s * d.x) * w.x == u * (a.x * w.x) + v * (b.x * w.x) - s * (d.x * w.x))
        by (nonlinear_arith);
    assert((u * a.y + v * b.y - s * d.y) * w.y == u * (a.y * w.y) + v * (b.y * w.y) - s * (d.y * w.y))
        by (nonlinear_arith);
    assert((u * a.z + v * b.z - s * d.z) * w.z == u * (a.z * w.z) + v * (b.z * w.z) - s * (d.z * w.z))
        by (nonlinear_arith);
    assert(u * vdot(a, w) == u * (a.x * w.x) + u * (a.y * w.y) + u * (a.z * w.z)) by (nonlinear_arith);
    assert(v * vdot(b, w) == v * (b.x * w.x) + v * (b.y * w.y) + v * (b.z * w.z)) by (nonlinear_arith);
    assert(s * vdot(d, w) == s * (d.x * w.x) + s * (d.y * w.y) + s * (d.z * w.z)) by (nonlinear_arith);
}

/// `k * (origin - v0) == u * (v1 - v0) + v * (v2 - v0) - s * direction`,
/// with `k > 0`: the point at `s / k` along the ray is the point of the
/// triangle's plane with barycentric coordinates `(u / k, v / k)`.
pub open spec fn solves(ray: Ray3d, tri: Triangle, k: int, u: int, v: int, s: int) -> bool {
    let a = vsub(tri.v1@, tri.v0@);
    let b = vsub(tri.v2@, tri.v0@);
    let t = vsub(ray.origin@, tri.v0@);
    let d = ray.direction@;
    &&& k > 0
    &&& k * t.x == u * a.x + v * b.x - s * d.x
    &&& k * t.y == u * a.y + v * b.y - s * d.y
    &&& k * t.z == u * a.z + v * b.z - s * d.z
}

/// Some point of the closed triangle lies on the ray's line.
pub open spec fn line_meets_triangle(ray: Ray3d, tri: Triangle) -> bool {
    exists|k: int, u: int, v: int, s: int|
        solves(ray, tri, k, u, v, s) && 0 <= u && 0 <= v && u + v <= k
}

/// Any solution is a multiple of the one Möller–Trumbore computes.
proof fn lemma_solution_scaled(ray: Ray3d, tri: Triangle, k: int, u: int, v: int, s: int)
    requires
        solves(ray, tri, k, u, v, s),
    ensures
        k * mt_u(ray, tri) == u * mt_det(ray, tri),
        k * mt_v(ray, tri) == v * mt_det(ray, tri),
{
    let a = vsub(tri.v1@, tri.v0@);
    let b = vsub(tri.v2@, tri.v0@);
    let t = vsub(ray.origin@, tri.v0@);
    let d = ray.direction@;
    // Against p = d x b, which is orthogonal to b and d.
    let p = vcross(d, b);
    lemma_dot_combination(t, a, b, d, p, k, u, v, s);
    lemma_triple_expand(b, d, b);
    lemma_triple_cyclic(b, b, d);
    lemma_triple_repeat(b, d);
    lemma_triple_expand(d, d, b);
    lemma_triple_repeat(d, b);
    // Against w = a x d, which is orthogonal to a and d.
    let w = vcross(a, d);
    lemma_dot_combination(t, a, b, d, w, k, u, v, s);
    lemma_triple_expand(a, a, d);
    lemma_triple_repeat(a, d);
    lemma_triple_expand(d, a, d);
    lemma_triple_cyclic(d, d, a);
    lemma_triple_repeat(d, a);
    // t . (a x d) is the numerator of v, and b . (a x d) the determinant.
    lemma_triple_expand(t, a, d);
    lemma_triple_expand(d, t, a);
    lemma_triple_cyclic(t, a, d);
    lemma_triple_cyclic(a, d, t);
    lemma_triple_expand(b, a, d);
    lemma_triple_expand(a, d, b);
    lemma_triple_cyclic(a, d, b);
    lemma_triple_cyclic(d, b, a);
}

proof fn lemma_sign_from_scaled(k: int, x: int, y: int, n: int)
    requires
        k > 0,
        n > 0,
        k * x == y * n,
    ensures
        y >= 0 ==> x >= 0,
        y <= k ==> x <= n,
{
    assert(y >= 0 ==> x >= 0) by (nonlinear_arith)
        requires
            k > 0,
            n > 0,
            k * x == y * n,
    ;
    assert(y <= k ==> x <= n) by (nonlinear_arith)
        requires
            k > 0,
            n > 0,
            k * x == y * n,
    ;
}

/// When the ray's line is not parallel to the triangle's plane, the
/// barycentric test of Möller–Trumbore holds exactly when some point of the
/// closed triangle lies on the line.
pub proof fn lemma_within_iff_meets(ray: Ray3d, tri: Triangle)
    requires
        mt_det(ray, tri) != 0,
    ensures
        within_triangle(ray, tri) <==> line_meets_triangle(ray, tri),
{
    let det = mt_det(ray, tri);
    let n = oriented(det, det);
    let u = oriented(mt_u(ray, tri), det);
    let v = oriented(mt_v(ray, tri), det);
    let s = oriented(mt_t(ray, tri), det);
    if within_triangle(ray, tri) {
        lemma_cramer(ray, tri);
        let a = vsub(tri.v1@, tri.v0@);
        let b = vsub(tri.v2@, tri.v0@);
        let t = vsub(ray.origin@, tri.v0@);
        let d = ray.direction@;
        assert(n * t.x == u * a.x + v * b.x - s * d.x) by (nonlinear_arith)
            requires
                det * t.x == mt_u(ray, tri) * a.x + mt_v(ray, tri) * b.x - mt_t(ray, tri) * d.x,
                (det < 0 && n == -det && u == -mt_u(ray, tri) && v == -mt_v(ray, tri) && s == -mt_t(ray, tri))
                    || (det >= 0 && n == det && u == mt_u(ray, tri) && v == mt_v(ray, tri) && s == mt_t(ray, tri)),
        ;
        assert(n * t.y == u * a.y + v * b.y - s * d.y) by (nonlinear_arith)
            requires
                det * t.y == mt_u(ray, tri) * a.y + mt_v(ray, tri) * b.y - mt_t(ray, tri) * d.y,
                (det < 0 && n == -det && u == -mt_u(ray, tri) && v == -mt_v(ray, tri) && s == -mt_t(ray, tri))
                    || (det >= 0 && n == det && u == mt_u(ray, tri) && v == mt_v(ray, tri) && s == mt_t(ray, tri)),
        ;
        assert(n * t.z == u * a.z + v * b.z - s * d.z) by (nonlinear_arith)
            requires
                det * t.z == mt_u(ray, tri) * a.z + mt_v(ray, tri) * b.z - mt_t(ray, tri) * d.z,
                (det < 0 && n == -det && u == -mt_u(ray, tri) && v == -mt_v(ray, tri) && s == -mt_t(ray, tri))
                    || (det >= 0 && n == det && u == mt_u(ray, tri) && v == mt_v(ray, tri) && s == mt_t(ray, tri)),
        ;
        assert(solves(ray, tri, n, u, v, s));
    }
    if line_meets_triangle(ray, tri) {
        let (k, u2, v2, s2) = choose|k: int, u: int, v: int, s: int|
            solves(ray, tri, k, u, v, s) && 0 <= u && 0 <= v && u + v <= k;
        lemma_solution_scaled(ray, tri, k, u2, v2, s2);
        // Measured against the positive determinant n.
        assert(k * u == u2 * n && k * v == v2 * n) by (nonlinear_arith)
            requires
                k * mt_u(ray, tri) == u2 * det,
                k * mt_v(ray, tri) == v2 * det,
                (det < 0 && n == -det && u == -mt_u(ray, tri) && v == -mt_v(ray, tri))
                    || (det >= 0 && n == det && u == mt_u(ray, tri) && v == mt_v(ray, tri)),
        ;
        assert(k * (u + v) == (u2 + v2) * n) by (nonlinear_arith)
            requires
                k * u == u2 * n,
                k * v == v2 * n,
        ;
        lemma_sign_from_scaled(k, u, u2, n);
        lemma_sign_from_scaled(k, v, v2, n);
        lemma_sign_from_scaled(k, u + v, u2 + v2, n);
    }
}

} // verus!
