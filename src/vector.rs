//! Lattice vectors and the exact vector algebra the intersection tests rest on.
use vstd::prelude::*;

verus! {

/// Largest magnitude of a lattice coordinate that the intersection tests accept.
pub const COORD_LIMIT: i64 = 65536;

/// Largest magnitude of an entry of a transform's linear part.
pub const AXIS_LIMIT: i64 = 4096;

/// Bound on the determinant of a linear part within `AXIS_LIMIT`:
/// `6 * AXIS_LIMIT^3`.
pub const DET_LIMIT: i64 = 412316860416;

/// Bound on a cross product of two edges of a triangle within
/// `COORD_LIMIT`: `8 * COORD_LIMIT^2`.
pub const FACE_LIMIT: i64 = 34359738368;

/// Bound on the image of such a cross product under a linear part within
/// `AXIS_LIMIT`: `3 * AXIS_LIMIT * FACE_LIMIT`.
pub const NORMAL_LIMIT: i64 = 422212465065984;

/// Bound on a box plane taken to local coordinates scaled by the
/// determinant: `DET_LIMIT * COORD_LIMIT`.
pub const BOX_LIMIT: i64 = 27021597764222976;

/// Bound on the magnitude of a triple product of vectors within twice
/// `COORD_LIMIT`, that is `48 * COORD_LIMIT^3`.
pub const SPAN_LIMIT: i64 = 13510798882111488;

/// A mathematical 3D vector with unbounded integer components.
pub struct IVec {
    pub x: int,
    pub y: int,
    pub z: int,
}

pub open spec fn ivec(x: int, y: int, z: int) -> IVec {
    IVec { x, y, z }
}

pub open spec fn vsub(a: IVec, b: IVec) -> IVec {
    ivec(a.x - b.x, a.y - b.y, a.z - b.z)
}

pub open spec fn vdot(a: IVec, b: IVec) -> int {
    a.x * b.x + a.y * b.y + a.z * b.z
}

pub open spec fn vcross(a: IVec, b: IVec) -> IVec {
    ivec(a.y * b.z - a.z * b.y, a.z * b.x - a.x * b.z, a.x * b.y - a.y * b.x)
}

/// Every component lies in `[-bound, bound]`.
pub open spec fn bounded(a: IVec, bound: int) -> bool {
    -bound <= a.x <= bound && -bound <= a.y <= bound && -bound <= a.z <= bound
}

pub open spec fn is_zero(a: IVec) -> bool {
    a.x == 0 && a.y == 0 && a.z == 0
}

/// A point or direction on the integer lattice.
#[derive(Clone, Copy, Debug, PartialEq, Eq, Structural)]
pub struct Vec3 {
    pub x: i64,
    pub y: i64,
    pub z: i64,
}

impl View for Vec3 {
    type V = IVec;

    open spec fn view(&self) -> IVec {
        ivec(self.x as int, self.y as int, self.z as int)
    }
}

/// A lattice vector whose components all lie within `COORD_LIMIT`.
pub open spec fn in_limit(a: Vec3) -> bool {
    bounded(a@, COORD_LIMIT as int)
}

pub fn in_limit_exec(a: &Vec3) -> (r: bool)
    ensures
        r == in_limit(*a),
{
    -COORD_LIMIT <= a.x && a.x <= COORD_LIMIT && -COORD_LIMIT <= a.y && a.y <= COORD_LIMIT
        && -COORD_LIMIT <= a.z && a.z <= COORD_LIMIT
}

pub proof fn lemma_mul_bound(a: int, b: int, ba: int, bb: int)
    requires
        -ba <= a <= ba,
        -bb <= b <= bb,
    ensures
        -(ba * bb) <= a * b <= ba * bb,
{
    assert(-(ba * bb) <= a * b <= ba * bb) by (nonlinear_arith)
        requires
            -ba <= a <= ba,
            -bb <= b <= bb,
    ;
}

/// A dot product of vectors within `ba` and `bb` lies within `3 * ba * bb`.
pub proof fn lemma_dot_bound(a: IVec, b: IVec, ba: int, bb: int)
    requires
        bounded(a, ba),
        bounded(b, bb),
    ensures
        -(3 * ba * bb) <= vdot(a, b) <= 3 * ba * bb,
{
    lemma_mul_bound(a.x, b.x, ba, bb);
    lemma_mul_bound(a.y, b.y, ba, bb);
    lemma_mul_bound(a.z, b.z, ba, bb);
    assert(3 * ba * bb == ba * bb + ba * bb + ba * bb) by (nonlinear_arith);
}

/// A cross product of vectors within `b` lies within `2 * b * b`.
pub proof fn lemma_cross_bound(a: IVec, c: IVec, b: int)
    requires
        bounded(a, b),
        bounded(c, b),
    ensures
        bounded(vcross(a, c), 2 * b * b),
{
    lemma_mul_bound(a.y, c.z, b, b);
    lemma_mul_bound(a.z, c.y, b, b);
    lemma_mul_bound(a.z, c.x, b, b);
    lemma_mul_bound(a.x, c.z, b, b);
    lemma_mul_bound(a.x, c.y, b, b);
    lemma_mul_bound(a.y, c.x, b, b);
    assert(2 * b * b == b * b + b * b) by (nonlinear_arith);
}

impl Vec3 {
    pub fn new(x: i64, y: i64, z: i64) -> (r: Vec3)
        ensures
            r.x == x && r.y == y && r.z == z,
    {
        Vec3 { x, y, z }
    }

    /// Component-wise difference of two vectors within `COORD_LIMIT`.
    pub fn minus(&self, o: &Vec3) -> (r: Vec3)
        requires
            in_limit(*self),
            in_limit(*o),
        ensures
            r@ == vsub(self@, o@),
            bounded(r@, 2 * COORD_LIMIT),
    {
        Vec3 { x: self.x - o.x, y: self.y - o.y, z: self.z - o.z }
    }

    /// Cross product of two vectors whose components lie within twice `COORD_LIMIT`.
    pub fn cross(&self, o: &Vec3) -> (r: Vec3)
        requires
            bounded(self@, 2 * COORD_LIMIT),
            bounded(o@, 2 * COORD_LIMIT),
        ensures
            r@ == vcross(self@, o@),
            bounded(r@, 8 * COORD_LIMIT * COORD_LIMIT),
    {
        proof {
            let e: int = 131072;
            lemma_mul_bound(self.y as int, o.z as int, e, e);
            lemma_mul_bound(self.z as int, o.y as int, e, e);
            lemma_mul_bound(self.z as int, o.x as int, e, e);
            lemma_mul_bound(self.x as int, o.z as int, e, e);
            lemma_mul_bound(self.x as int, o.y as int, e, e);
            lemma_mul_bound(self.y as int, o.x as int, e, e);
        }
        Vec3 {
            x: self.y * o.z - self.z * o.y,
            y: self.z * o.x - self.x * o.z,
            z: self.x * o.y - self.y * o.x,
        }
    }

    /// Dot product of a vector within twice `COORD_LIMIT` with one within
    /// `8 * COORD_LIMIT^2`.
    pub fn dot(&self, o: &Vec3) -> (r: i64)
        requires
            bounded(self@, 2 * COORD_LIMIT),
            bounded(o@, 8 * COORD_LIMIT * COORD_LIMIT),
        ensures
            r == vdot(self@, o@),
            -SPAN_LIMIT <= r <= SPAN_LIMIT,
    {
        proof {
            let e: int = 131072;
            let f: int = 34359738368;
            lemma_mul_bound(self.x as int, o.x as int, e, f);
            lemma_mul_bound(self.y as int, o.y as int, e, f);
            lemma_mul_bound(self.z as int, o.z as int, e, f);
        }
        self.x * o.x + self.y * o.y + self.z * o.z
    }
}

} // verus!
