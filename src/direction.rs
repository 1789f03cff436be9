//! Direction normalization on the lattice: a direction is reduced to the
//! shortest lattice vector pointing the same way.
use vstd::prelude::*;
use vstd::arithmetic::div_mod::{lemma_fundamental_div_mod, lemma_fundamental_div_mod_converse};
use crate::vector::{Vec3, IVec, ivec, in_limit, is_zero};

verus! {

/// The greatest common divisor, by Euclid's algorithm.
pub open spec fn gcd(a: nat, b: nat) -> nat
    decreases b,
{
    if b == 0 {
        a
    } else {
        gcd(b, a % b)
    }
}

pub open spec fn abs(x: int) -> nat {
    if x < 0 {
        (-x) as nat
    } else {
        x as nat
    }
}

/// The greatest common divisor of the three components' magnitudes.
pub open spec fn gcd3(v: IVec) -> nat {
    gcd(gcd(abs(v.x), abs(v.y)), abs(v.z))
}

/// Each component divided by `g`, rounding toward zero.
pub open spec fn div_toward_zero(x: int, g: int) -> int {
    if x < 0 {
        -((-x) / g)
    } else {
        x / g
    }
}

/// The direction reduced by the gcd of its components.
pub open spec fn reduced(v: IVec) -> IVec {
    let g = gcd3(v) as int;
    ivec(div_toward_zero(v.x, g), div_toward_zero(v.y, g), div_toward_zero(v.z, g))
}

proof fn lemma_gcd_divides(a: nat, b: nat)
    ensures
        gcd(a, b) == 0 <==> (a == 0 && b == 0),
        gcd(a, b) > 0 ==> a % gcd(a, b) == 0 && b % gcd(a, b) == 0,
    decreases b,
{
    if b != 0 {
        lemma_gcd_divides(b, a % b);
        let g = gcd(b, a % b);
        lemma_fundamental_div_mod(a as int, b as int);
        let q = a as int / b as int;
        // a = q * b + (a % b), and g divides b and a % b.
        let qb = b as int / g as int;
        let qr = (a % b) as int / g as int;
        lemma_fundamental_div_mod(b as int, g as int);
        lemma_fundamental_div_mod((a % b) as int, g as int);
        assert(a as int == (q * qb + qr) * g) by (nonlinear_arith)
            requires
                a as int == q * b + (a % b) as int,
                b as int == g * qb,
                (a % b) as int == g * qr,
        ;
        lemma_fundamental_div_mod_converse(a as int, g as int, q * qb + qr, 0);
    }
}

proof fn lemma_gcd_scale(a: nat, b: nat, k: nat)
    requires
        k > 0,
    ensures
        gcd(k * a, k * b) == k * gcd(a, b),
    decreases b,
{
    if b == 0 {
        assert(k * b == 0) by (nonlinear_arith)
            requires
                b == 0,
        ;
    } else {
        lemma_fundamental_div_mod(a as int, b as int);
        let q = a as int / b as int;
        let r = (a % b) as int;
        assert(k * a == q * (k * b) + k * r && 0 <= k * r < k * b) by (nonlinear_arith)
            requires
                a as int == q * b + r,
                0 <= r < b,
                k > 0,
        ;
        lemma_fundamental_div_mod_converse((k * a) as int, (k * b) as int, q, k * r);
        assert(k * b != 0) by (nonlinear_arith)
            requires
                k > 0,
                b > 0,
        ;
        lemma_gcd_scale(b, (a % b) as nat, k);
    }
}

proof fn lemma_abs_scale(x: int, k: nat)
    requires
        k > 0,
    ensures
        abs(k * x) == k * abs(x),
        x < 0 ==> k * x < 0,
        x >= 0 ==> k * x >= 0,
{
    if x < 0 {
        assert(k * x < 0 && -(k * x) == k * (-x)) by (nonlinear_arith)
            requires
                x < 0,
                k > 0,
        ;
    } else {
        assert(k * x >= 0) by (nonlinear_arith)
            requires
                x >= 0,
        ;
    }
}

proof fn lemma_div_scale(x: int, g: int, k: int)
    requires
        g > 0,
        k > 0,
        x >= 0,
        x % g == 0,
    ensures
        (k * x) / (k * g) == x / g,
{
    lemma_fundamental_div_mod(x, g);
    let m = x / g;
    assert(k * x == m * (k * g) + 0 && k * g > 0) by (nonlinear_arith)
        requires
            x == g * m,
            g > 0,
            k > 0,
    ;
    lemma_fundamental_div_mod_converse(k * x, k * g, m, 0);
}

/// The gcd of the components divides each of them.
proof fn lemma_gcd3_divides(v: IVec)
    requires
        !is_zero(v),
    ensures
        gcd3(v) > 0,
        abs(v.x) % gcd3(v) == 0,
        abs(v.y) % gcd3(v) == 0,
        abs(v.z) % gcd3(v) == 0,
{
    let g1 = gcd(abs(v.x), abs(v.y));
    lemma_gcd_divides(abs(v.x), abs(v.y));
    lemma_gcd_divides(g1, abs(v.z));
    let g = gcd3(v);
    if g1 > 0 {
        // g divides g1, which divides |x| and |y|.
        lemma_divides_trans(abs(v.x) as int, g1 as int, g as int);
        lemma_divides_trans(abs(v.y) as int, g1 as int, g as int);
    } else {
        lemma_fundamental_div_mod_converse(0, g as int, 0, 0);
    }
}

proof fn lemma_divides_trans(x: int, m: int, g: int)
    requires
        m > 0,
        g > 0,
        x % m == 0,
        m % g == 0,
    ensures
        x % g == 0,
{
    lemma_fundamental_div_mod(x, m);
    lemma_fundamental_div_mod(m, g);
    let a = x / m;
    let b = m / g;
    assert(x == (a * b) * g + 0) by (nonlinear_arith)
        requires
            x == m * a,
            m == g * b,
    ;
    lemma_fundamental_div_mod_converse(x, g, a * b, 0);
}

/// Normalization ignores magnitude: scaling a direction by any positive
/// factor leaves its reduced direction unchanged.
pub proof fn lemma_reduced_scale_invariant(v: IVec, k: int)
    requires
        k > 0,
        !is_zero(v),
    ensures
        reduced(ivec(k * v.x, k * v.y, k * v.z)) == reduced(v),
{
    let w = ivec(k * v.x, k * v.y, k * v.z);
    let kn = k as nat;
    lemma_abs_scale(v.x, kn);
    lemma_abs_scale(v.y, kn);
    lemma_abs_scale(v.z, kn);
    lemma_gcd_scale(abs(v.x), abs(v.y), kn);
    lemma_gcd_scale(gcd(abs(v.x), abs(v.y)), abs(v.z), kn);
    assert(gcd3(w) == k * gcd3(v));
    lemma_gcd3_divides(v);
    let g = gcd3(v) as int;
    lemma_component_scale(v.x, g, k);
    lemma_component_scale(v.y, g, k);
    lemma_component_scale(v.z, g, k);
}

proof fn lemma_component_scale(x: int, g: int, k: int)
    requires
        g > 0,
        k > 0,
        (abs(x) as int) % g == 0,
    ensures
        div_toward_zero(k * x, k * g) == div_toward_zero(x, g),
{
    lemma_abs_scale(x, k as nat);
    lemma_div_scale(abs(x) as int, g, k);
}

fn gcd_exec(a: u64, b: u64) -> (r: u64)
    ensures
        r == gcd(a as nat, b as nat),
{
    let mut x = a;
    let mut y = b;
    while y != 0
        invariant
            gcd(x as nat, y as nat) == gcd(a as nat, b as nat),
        decreases y,
    {
        let t = x % y;
        x = y;
        y = t;
    }
    x
}

fn abs_exec(x: i64) -> (r: u64)
    requires
        x > i64::MIN,
    ensures
        r == abs(x as int),
{
    if x < 0 {
        (-x) as u64
    } else {
        x as u64
    }
}

fn div_exec(x: i64, g: u64) -> (r: i64)
    requires
        g > 0,
        x > i64::MIN,
        g <= i64::MAX,
    ensures
        r == div_toward_zero(x as int, g as int),
{
    let gi = g as i64;
    if x < 0 {
        -((-x) / gi)
    } else {
        x / gi
    }
}

/// The direction reduced by the gcd of its components: the shortest lattice
/// vector that points the same way.
pub fn normalize(v: &Vec3) -> (r: Vec3)
    requires
        in_limit(*v),
        !is_zero(v@),
    ensures
        r@ == reduced(v@),
        in_limit(r),
        !is_zero(r@),
{
    let g = gcd_exec(gcd_exec(abs_exec(v.x), abs_exec(v.y)), abs_exec(v.z));
    proof {
        lemma_gcd3_divides(v@);
        lemma_gcd_le(v@);
    }
    let r = Vec3 { x: div_exec(v.x, g), y: div_exec(v.y, g), z: div_exec(v.z, g) };
    proof {
        lemma_reduced_small(v@);
    }
    r
}

/// The gcd is no larger than any non-zero component.
proof fn lemma_gcd_le(v: IVec)
    requires
        !is_zero(v),
    ensures
        v.x != 0 ==> gcd3(v) <= abs(v.x),
        v.y != 0 ==> gcd3(v) <= abs(v.y),
        v.z != 0 ==> gcd3(v) <= abs(v.z),
{
    lemma_gcd3_divides(v);
    let g = gcd3(v) as int;
    if v.x != 0 {
        lemma_divisor_le(abs(v.x) as int, g);
    }
    if v.y != 0 {
        lemma_divisor_le(abs(v.y) as int, g);
    }
    if v.z != 0 {
        lemma_divisor_le(abs(v.z) as int, g);
    }
}

proof fn lemma_divisor_le(x: int, g: int)
    requires
        x > 0,
        g > 0,
        x % g == 0,
    ensures
        g <= x,
{
    lemma_fundamental_div_mod(x, g);
    let q = x / g;
    assert(g <= x) by (nonlinear_arith)
        requires
            x == g * q,
            x > 0,
            g > 0,
    ;
}

/// Reducing keeps each component's sign and does not enlarge it.
proof fn lemma_reduced_small(v: IVec)
    requires
        !is_zero(v),
    ensures
        abs(reduced(v).x) <= abs(v.x),
        abs(reduced(v).y) <= abs(v.y),
        abs(reduced(v).z) <= abs(v.z),
        !is_zero(reduced(v)),
{
    lemma_gcd3_divides(v);
    let g = gcd3(v) as int;
    lemma_div_small(abs(v.x) as int, g);
    lemma_div_small(abs(v.y) as int, g);
    lemma_div_small(abs(v.z) as int, g);
}

proof fn lemma_div_small(x: int, g: int)
    requires
        x >= 0,
        g > 0,
        x % g == 0,
    ensures
        0 <= x / g <= x,
        x > 0 ==> x / g > 0,
{
    lemma_fundamental_div_mod(x, g);
    let q = x / g;
    assert(0 <= q <= x && (x > 0 ==> q > 0)) by (nonlinear_arith)
        requires
            x == g * q,
            x >= 0,
            g > 0,
    ;
}

} // verus!
