//! Value types shared by the intersection tests: rays, triangles, exact
//! fractions and hit records.
use vstd::prelude::*;
use crate::vector::{
    Vec3, IVec, in_limit, in_limit_exec, is_zero, ivec, bounded, vdot, vcross, lemma_mul_bound, SPAN_LIMIT,
    AXIS_LIMIT, DET_LIMIT, FACE_LIMIT,
};
use crate::direction::{normalize, reduced};

verus! {

/// A non-negative-denominator fraction `num / den`, used for exact distances
/// along a ray and for barycentric coordinates.
#[derive(Clone, Copy, Debug, PartialEq, Eq, Structural)]
pub struct Frac {
    pub num: i64,
    pub den: i64,
}

impl Frac {
    pub open spec fn wf(self) -> bool {
        self.den > 0
    }

    /// `self < o` as rational numbers.
    pub open spec fn lt_spec(self, o: Frac) -> bool {
        self.num * o.den < o.num * self.den
    }

    /// Compares two fractions with positive denominators exactly.
    pub fn lt(&self, o: &Frac) -> (r: bool)
        ensures
            r == self.lt_spec(*o),
    {
        proof {
            let m = 0x8000_0000_0000_0000int;
            crate::vector::lemma_mul_bound(self.num as int, o.den as int, m, m);
            crate::vector::lemma_mul_bound(o.num as int, self.den as int, m, m);
        }
        (self.num as i128) * (o.den as i128) < (o.num as i128) * (self.den as i128)
    }
}

/// `a < b` and `b <= c` give `a < c`.
pub proof fn lemma_lt_le_trans(a: Frac, b: Frac, c: Frac)
    requires
        a.wf(),
        b.wf(),
        c.wf(),
        a.lt_spec(b),
        !c.lt_spec(b),
    ensures
        a.lt_spec(c),
{
    let (an, ad, bn, bd, cn, cd) = (a.num as int, a.den as int, b.num as int, b.den as int, c.num as int, c.den as int);
    vstd::arithmetic::mul::lemma_mul_strict_inequality(an * bd, bn * ad, cd);
    vstd::arithmetic::mul::lemma_mul_inequality(bn * cd, cn * bd, ad);
    assert((bn * ad) * cd == (bn * cd) * ad) by (nonlinear_arith);
    assert((an * bd) * cd == (an * cd) * bd) by (nonlinear_arith);
    assert((cn * bd) * ad == (cn * ad) * bd) by (nonlinear_arith);
    vstd::arithmetic::mul::lemma_mul_strict_inequality_converse(an * cd, cn * ad, bd);
}

/// `a < b` and `b < c` give `a < c`.
pub proof fn lemma_lt_trans(a: Frac, b: Frac, c: Frac)
    requires
        a.wf(),
        b.wf(),
        c.wf(),
        a.lt_spec(b),
        b.lt_spec(c),
    ensures
        a.lt_spec(c),
{
    lemma_lt_asym(b, c);
    lemma_lt_le_trans(a, b, c);
}

/// `a < b` excludes `b < a`.
pub proof fn lemma_lt_asym(a: Frac, b: Frac)
    requires
        a.lt_spec(b),
    ensures
        !b.lt_spec(a),
{
}

/// A ray: an origin and a non-zero direction on the lattice. Distances along
/// the ray are counted in lengths of its direction.
#[derive(Clone, Copy, Debug, PartialEq, Eq, Structural)]
pub struct Ray3d {
    pub origin: Vec3,
    pub direction: Vec3,
}

impl Ray3d {
    pub open spec fn wf(self) -> bool {
        in_limit(self.origin) && in_limit(self.direction) && !is_zero(self.direction@)
    }

    /// A ray from `origin` along `direction`. The direction is normalized:
    /// reduced to the shortest lattice vector pointing the same way, so that
    /// it does not depend on the magnitude given.
    pub fn new(origin: Vec3, direction: Vec3) -> (r: Ray3d)
        requires
            in_limit(origin),
            in_limit(direction),
            !is_zero(direction@),
        ensures
            r.wf(),
            r.origin == origin,
            r.direction@ == reduced(direction@),
    {
        Ray3d { origin, direction: normalize(&direction) }
    }

    pub fn direction(&self) -> (r: Vec3)
        ensures
            r == self.direction,
    {
        self.direction
    }

    /// The point at `distance` along the ray, `origin + distance * direction`.
    pub fn position(&self, distance: &Frac) -> (r: RatPoint)
        requires
            self.wf(),
            distance.wf(),
            distance.den <= SPAN_LIMIT,
            -(SPAN_LIMIT) <= distance.num <= SPAN_LIMIT,
        ensures
            r.den == distance.den,
            r.num@ == point_at(*self, distance.num as int, distance.den as int),
    {
        let d = distance.den as i128;
        let n = distance.num as i128;
        let o = self.origin;
        let v = self.direction;
        proof {
            let b = SPAN_LIMIT as int;
            crate::vector::lemma_mul_bound(d as int, o.x as int, b, 65536);
            crate::vector::lemma_mul_bound(d as int, o.y as int, b, 65536);
            crate::vector::lemma_mul_bound(d as int, o.z as int, b, 65536);
            crate::vector::lemma_mul_bound(n as int, v.x as int, b, 65536);
            crate::vector::lemma_mul_bound(n as int, v.y as int, b, 65536);
            crate::vector::lemma_mul_bound(n as int, v.z as int, b, 65536);
        }
        RatPoint {
            num: Vec3i128 {
                x: d * (o.x as i128) + n * (v.x as i128),
                y: d * (o.y as i128) + n * (v.y as i128),
                z: d * (o.z as i128) + n * (v.z as i128),
            },
            den: distance.den as i128,
        }
    }
}

/// `den * origin + num * direction`: the point at `num / den` along the ray,
/// scaled by `den`.
pub open spec fn point_at(ray: Ray3d, num: int, den: int) -> IVec {
    ivec(
        den * ray.origin.x + num * ray.direction.x,
        den * ray.origin.y + num * ray.direction.y,
        den * ray.origin.z + num * ray.direction.z,
    )
}

/// A vector with wide integer components.
#[derive(Clone, Copy, Debug, PartialEq, Eq, Structural)]
pub struct Vec3i128 {
    pub x: i128,
    pub y: i128,
    pub z: i128,
}

impl View for Vec3i128 {
    type V = IVec;

    open spec fn view(&self) -> IVec {
        ivec(self.x as int, self.y as int, self.z as int)
    }
}

/// A point with rational coordinates `num / den` sharing one denominator.
#[derive(Clone, Copy, Debug, PartialEq, Eq, Structural)]
pub struct RatPoint {
    pub num: Vec3i128,
    pub den: i128,
}

/// Three vertices; their order fixes the face's orientation by the right-hand rule.
#[derive(Clone, Copy, Debug, PartialEq, Eq, Structural)]
pub struct Triangle {
    pub v0: Vec3,
    pub v1: Vec3,
    pub v2: Vec3,
}

impl Triangle {
    pub open spec fn wf(self) -> bool {
        in_limit(self.v0) && in_limit(self.v1) && in_limit(self.v2)
    }

    pub fn from_vertices(vertices: [Vec3; 3]) -> (r: Triangle)
        ensures
            r.v0 == vertices[0],
            r.v1 == vertices[1],
            r.v2 == vertices[2],
    {
        Triangle { v0: vertices[0], v1: vertices[1], v2: vertices[2] }
    }

    pub fn v0(&self) -> (r: Vec3)
        ensures
            r == self.v0,
    {
        self.v0
    }

    pub fn v1(&self) -> (r: Vec3)
        ensures
            r == self.v1,
    {
        self.v1
    }

    pub fn v2(&self) -> (r: Vec3)
        ensures
            r == self.v2,
    {
        self.v2
    }
}

/// How hits on the back of a triangle are treated.
#[derive(Clone, Copy, Debug, PartialEq, Eq, Structural)]
pub enum Backfaces {
    /// Only hits on the front face count.
    Cull,
    /// Hits on either face count.
    Include,
}

impl Default for Backfaces {
    /// Culling is the default.
    fn default() -> (r: Backfaces)
        ensures
            r == Backfaces::Cull,
    {
        Backfaces::Cull
    }
}

/// The result of the narrow-phase test: the hit lies at `t / den` along the
/// ray, with barycentric coordinates `(u / den, v / den)`.
#[derive(Clone, Copy, Debug, PartialEq, Eq, Structural)]
pub struct RayHit {
    pub den: i64,
    pub t: i64,
    pub u: i64,
    pub v: i64,
}

impl RayHit {
    /// Distance along the ray, in lengths of the ray's direction.
    pub fn distance(&self) -> (r: Frac)
        ensures
            r.num == self.t && r.den == self.den,
    {
        Frac { num: self.t, den: self.den }
    }

    /// The barycentric coordinates `(u, v)` of the hit; `w = 1 - u - v`.
    pub fn uv_coords(&self) -> (r: (Frac, Frac))
        ensures
            r.0.num == self.u && r.0.den == self.den,
            r.1.num == self.v && r.1.den == self.den,
    {
        (Frac { num: self.u, den: self.den }, Frac { num: self.v, den: self.den })
    }
}

/// Places a mesh, a box or a ray source in the world: the local point `p`
/// goes to `p.x * x_axis + p.y * y_axis + p.z * z_axis + translation`. The
/// linear part is an integer matrix with columns `x_axis`, `y_axis`,
/// `z_axis`; it may rotate by quarter turns, shear, scale, or mirror, but
/// must be invertible.
#[derive(Clone, Copy, Debug, PartialEq, Eq, Structural)]
pub struct Transform {
    pub x_axis: Vec3,
    pub y_axis: Vec3,
    pub z_axis: Vec3,
    pub translation: Vec3,
}

impl Transform {
    /// The determinant of the linear part.
    pub open spec fn det(self) -> int {
        vdot(self.x_axis@, vcross(self.y_axis@, self.z_axis@))
    }

    pub open spec fn wf(self) -> bool {
        &&& in_limit(self.translation)
        &&& bounded(self.x_axis@, AXIS_LIMIT as int)
        &&& bounded(self.y_axis@, AXIS_LIMIT as int)
        &&& bounded(self.z_axis@, AXIS_LIMIT as int)
        &&& self.det() != 0
    }

    /// The linear part applied to a local direction.
    pub open spec fn vector_to_world(self, n: IVec) -> IVec {
        let (a, b, c) = (self.x_axis, self.y_axis, self.z_axis);
        ivec(
            a.x * n.x + b.x * n.y + c.x * n.z,
            a.y * n.x + b.y * n.y + c.y * n.z,
            a.z * n.x + b.z * n.y + c.z * n.z,
        )
    }

    /// The world image of a point given in local coordinates.
    pub open spec fn to_world(self, p: IVec) -> IVec {
        let v = self.vector_to_world(p);
        ivec(v.x + self.translation.x, v.y + self.translation.y, v.z + self.translation.z)
    }

    pub fn identity() -> (r: Transform)
        ensures
            r.wf(),
            forall|p: IVec| #[trigger] r.to_world(p) == p,
    {
        let r = Transform {
            x_axis: Vec3 { x: 1, y: 0, z: 0 },
            y_axis: Vec3 { x: 0, y: 1, z: 0 },
            z_axis: Vec3 { x: 0, y: 0, z: 1 },
            translation: Vec3 { x: 0, y: 0, z: 0 },
        };
        assert(r.det() == 1);
        r
    }

    /// The transform with the given columns and translation.
    pub fn from_axes(x_axis: Vec3, y_axis: Vec3, z_axis: Vec3, translation: Vec3) -> (r: Transform)
        ensures
            r.x_axis == x_axis && r.y_axis == y_axis && r.z_axis == z_axis,
            r.translation == translation,
    {
        Transform { x_axis, y_axis, z_axis, translation }
    }

    /// Scales each axis by the matching component of `scale`, then translates.
    pub fn from_scale_translation(scale: Vec3, translation: Vec3) -> (r: Transform)
        ensures
            r.x_axis == (Vec3 { x: scale.x, y: 0, z: 0 }),
            r.y_axis == (Vec3 { x: 0, y: scale.y, z: 0 }),
            r.z_axis == (Vec3 { x: 0, y: 0, z: scale.z }),
            r.translation == translation,
    {
        Transform {
            x_axis: Vec3 { x: scale.x, y: 0, z: 0 },
            y_axis: Vec3 { x: 0, y: scale.y, z: 0 },
            z_axis: Vec3 { x: 0, y: 0, z: scale.z },
            translation,
        }
    }

    pub fn from_translation(translation: Vec3) -> (r: Transform)
        requires
            in_limit(translation),
        ensures
            r.wf(),
            r.translation == translation,
            forall|n: IVec| #[trigger] r.vector_to_world(n) == n,
    {
        let r = Transform {
            x_axis: Vec3 { x: 1, y: 0, z: 0 },
            y_axis: Vec3 { x: 0, y: 1, z: 0 },
            z_axis: Vec3 { x: 0, y: 0, z: 1 },
            translation,
        };
        assert(r.det() == 1);
        r
    }

    /// The determinant of the linear part, for axes within `AXIS_LIMIT`.
    pub fn determinant(&self) -> (r: i64)
        requires
            bounded(self.x_axis@, AXIS_LIMIT as int),
            bounded(self.y_axis@, AXIS_LIMIT as int),
            bounded(self.z_axis@, AXIS_LIMIT as int),
        ensures
            r == self.det(),
            -DET_LIMIT <= r <= DET_LIMIT,
    {
        let c = cross_axes(&self.y_axis, &self.z_axis);
        let a = self.x_axis;
        proof {
            lemma_mul_bound(a.x as int, c.x as int, 4096, 33554432);
            lemma_mul_bound(a.y as int, c.y as int, 4096, 33554432);
            lemma_mul_bound(a.z as int, c.z as int, 4096, 33554432);
        }
        a.x * c.x + a.y * c.y + a.z * c.z
    }

    /// Whether the transform is well formed.
    pub fn is_valid(&self) -> (r: bool)
        ensures
            r == self.wf(),
    {
        in_limit_exec(&self.translation) && axis_ok(&self.x_axis) && axis_ok(&self.y_axis) && axis_ok(
            &self.z_axis,
        ) && self.determinant() != 0
    }

    /// The linear part applied to a vector within `FACE_LIMIT`.
    pub fn transform_vector(&self, n: &Vec3) -> (r: Vec3)
        requires
            self.wf(),
            bounded(n@, FACE_LIMIT as int),
        ensures
            r@ == self.vector_to_world(n@),
            bounded(r@, 3 * AXIS_LIMIT * FACE_LIMIT),
    {
        let (a, b, c) = (self.x_axis, self.y_axis, self.z_axis);
        proof {
            let (p, q) = (4096int, 34359738368int);
            lemma_mul_bound(a.x as int, n.x as int, p, q);
            lemma_mul_bound(b.x as int, n.y as int, p, q);
            lemma_mul_bound(c.x as int, n.z as int, p, q);
            lemma_mul_bound(a.y as int, n.x as int, p, q);
            lemma_mul_bound(b.y as int, n.y as int, p, q);
            lemma_mul_bound(c.y as int, n.z as int, p, q);
            lemma_mul_bound(a.z as int, n.x as int, p, q);
            lemma_mul_bound(b.z as int, n.y as int, p, q);
            lemma_mul_bound(c.z as int, n.z as int, p, q);
        }
        Vec3 {
            x: a.x * n.x + b.x * n.y + c.x * n.z,
            y: a.y * n.x + b.y * n.y + c.y * n.z,
            z: a.z * n.x + b.z * n.y + c.z * n.z,
        }
    }

    /// The world image of a local point within `COORD_LIMIT`.
    pub fn transform_point(&self, p: &Vec3) -> (r: Vec3)
        requires
            self.wf(),
            in_limit(*p),
        ensures
            r@ == self.to_world(p@),
    {
        let v = self.transform_vector(p);
        Vec3 { x: v.x + self.translation.x, y: v.y + self.translation.y, z: v.z + self.translation.z }
    }
}

fn axis_ok(a: &Vec3) -> (r: bool)
    ensures
        r == bounded(a@, AXIS_LIMIT as int),
{
    -AXIS_LIMIT <= a.x && a.x <= AXIS_LIMIT && -AXIS_LIMIT <= a.y && a.y <= AXIS_LIMIT && -AXIS_LIMIT
        <= a.z && a.z <= AXIS_LIMIT
}

/// The cross product of two axes within `AXIS_LIMIT`.
pub fn cross_axes(a: &Vec3, b: &Vec3) -> (r: Vec3)
    requires
        bounded(a@, AXIS_LIMIT as int),
        bounded(b@, AXIS_LIMIT as int),
    ensures
        r@ == vcross(a@, b@),
        bounded(r@, 2 * AXIS_LIMIT * AXIS_LIMIT),
{
    proof {
        let e = 4096int;
        lemma_mul_bound(a.y as int, b.z as int, e, e);
        lemma_mul_bound(a.z as int, b.y as int, e, e);
        lemma_mul_bound(a.z as int, b.x as int, e, e);
        lemma_mul_bound(a.x as int, b.z as int, e, e);
        lemma_mul_bound(a.x as int, b.y as int, e, e);
        lemma_mul_bound(a.y as int, b.x as int, e, e);
    }
    Vec3 { x: a.y * b.z - a.z * b.y, y: a.z * b.x - a.x * b.z, z: a.x * b.y - a.y * b.x }
}

/// A hit in world space: where the ray met the surface, the surface normal
/// there, the distance along the ray and the triangle hit. The normal is not
/// normalized: a normal blended from a mesh's vertex (or face) normals is
/// scaled by the hit's denominator `position.den`; one computed from a lone
/// triangle's edges is not.
#[derive(Clone, Copy, Debug, PartialEq, Eq, Structural)]
pub struct Intersection {
    pub position: RatPoint,
    pub normal: Vec3i128,
    pub distance: Frac,
    pub triangle: Option<Triangle>,
}

impl Intersection {
    pub fn new(position: RatPoint, normal: Vec3i128, pick_distance: Frac, triangle: Option<Triangle>) -> (r:
        Intersection)
        ensures
            r.position == position,
            r.normal == normal,
            r.distance == pick_distance,
            r.triangle == triangle,
    {
        Intersection { position, normal, distance: pick_distance, triangle }
    }

    pub fn distance(&self) -> (r: Frac)
        ensures
            r == self.distance,
    {
        self.distance
    }
}

} // verus!
