//! The per-mesh resolver: the nearest hit of a ray on a triangle mesh placed
//! in the world by a transform.
use vstd::prelude::*;
use crate::vector::{Vec3, IVec, ivec, vsub, vcross, in_limit, bounded, COORD_LIMIT, SPAN_LIMIT, NORMAL_LIMIT, lemma_mul_bound};
use crate::primitives::{Ray3d, Triangle, Backfaces, RayHit, Frac, Intersection, Vec3i128, point_at, Transform, lemma_lt_le_trans, lemma_lt_asym, lemma_lt_trans};
use crate::narrow::{mt_spec, mt_det, ray_triangle_intersection, orientation};

verus! {

/// Normals within `NORMAL_LIMIT`.
pub open spec fn normal_ok(ns: TriNormals) -> bool {
    bounded(ns.n0@, NORMAL_LIMIT as int) && bounded(ns.n1@, NORMAL_LIMIT as int) && bounded(
        ns.n2@,
        NORMAL_LIMIT as int,
    )
}

/// The vertex normals of one triangle, in the order of its vertices.
#[derive(Clone, Copy, Debug, PartialEq, Eq, Structural)]
pub struct TriNormals {
    pub n0: Vec3,
    pub n1: Vec3,
    pub n2: Vec3,
}

/// The hit lies strictly nearer than the bound, if there is one.
pub open spec fn below(h: RayHit, max_distance: Option<Frac>) -> bool {
    match max_distance {
        Some(m) => (Frac { num: h.t, den: h.den }).lt_spec(m),
        None => true,
    }
}

/// `n1 * u + n2 * v + n0 * w`, scaled by the hit's denominator.
pub open spec fn blend_normal(n0: IVec, n1: IVec, n2: IVec, h: RayHit) -> IVec {
    let w = h.den - h.u - h.v;
    ivec(
        n1.x * h.u + n2.x * h.v + n0.x * w,
        n1.y * h.u + n2.y * h.v + n0.y * w,
        n1.z * h.u + n2.z * h.v + n0.z * w,
    )
}

/// The face normal of a triangle by the right-hand rule.
pub open spec fn face_normal(tri: Triangle) -> IVec {
    vcross(vsub(tri.v1@, tri.v0@), vsub(tri.v2@, tri.v0@))
}

/// `i` records the hit `h` of `ray` on `tri`. With normals given, the
/// normal is their blend by the hit's barycentric weights, scaled by the
/// hit's denominator; the mesh resolver always gives them (`world_normals`).
/// Without, it is the triangle's own face normal.
pub open spec fn records_hit(
    i: Intersection,
    ray: Ray3d,
    tri: Triangle,
    normals: Option<TriNormals>,
    h: RayHit,
) -> bool {
    &&& i.position.den == h.den
    &&& i.position.num@ == point_at(ray, h.t as int, h.den as int)
    &&& i.distance == (Frac { num: h.t, den: h.den })
    &&& i.triangle == Some(tri)
    &&& i.normal@ == match normals {
        Some(ns) => blend_normal(ns.n0@, ns.n1@, ns.n2@, h),
        None => face_normal(tri),
    }
}

/// The ray meets the triangle's front face. A triangle placed by a mirroring
/// transform has its winding reversed, so its front is the other side.
pub open spec fn front_faces(ray: Ray3d, tri: Triangle, mirrored: bool) -> bool {
    if mirrored {
        mt_det(ray, tri) < 0
    } else {
        mt_det(ray, tri) > 0
    }
}

/// A hit of the narrow phase on the front face, ahead of the origin and
/// within the bound.
pub open spec fn accepted_hit(ray: Ray3d, tri: Triangle, max_distance: Option<Frac>, mirrored: bool) -> bool {
    &&& front_faces(ray, tri, mirrored)
    &&& mt_spec(ray, tri, Backfaces::Include) matches Some(h) && h.den > 0 && h.t > 0 && below(h, max_distance)
}

fn blend(n0: i64, n1: i64, n2: i64, h: &RayHit) -> (r: i128)
    requires
        -NORMAL_LIMIT <= n0 <= NORMAL_LIMIT,
        -NORMAL_LIMIT <= n1 <= NORMAL_LIMIT,
        -NORMAL_LIMIT <= n2 <= NORMAL_LIMIT,
        0 <= h.u,
        0 <= h.v,
        h.u + h.v <= h.den <= SPAN_LIMIT,
    ensures
        r == n1 * h.u + n2 * h.v + n0 * (h.den - h.u - h.v),
{
    let w = h.den - h.u - h.v;
    proof {
        let s = NORMAL_LIMIT as int;
        let d = SPAN_LIMIT as int;
        lemma_mul_bound(n1 as int, h.u as int, s, d);
        lemma_mul_bound(n2 as int, h.v as int, s, d);
        lemma_mul_bound(n0 as int, w as int, s, d);
    }
    (n1 as i128) * (h.u as i128) + (n2 as i128) * (h.v as i128) + (n0 as i128) * (w as i128)
}

/// Tests one triangle: a hit counts only if the ray meets the triangle's
/// front face (the back one if `mirrored`), ahead of the origin, and
/// strictly nearer than `max_distance`.
pub fn triangle_intersection(
    tri: &Triangle,
    tri_normals: Option<TriNormals>,
    max_distance: Option<Frac>,
    ray: &Ray3d,
    mirrored: bool,
) -> (r: Option<Intersection>)
    requires
        ray.wf(),
        tri.wf(),
        max_distance matches Some(m) ==> m.wf(),
        tri_normals matches Some(ns) ==> normal_ok(ns),
    ensures
        r.is_some() == accepted_hit(*ray, *tri, max_distance, mirrored),
        r matches Some(i) ==> records_hit(
            i,
            *ray,
            *tri,
            tri_normals,
            mt_spec(*ray, *tri, Backfaces::Include).unwrap(),
        ),
        r matches Some(i) ==> i.distance.wf(),
{
    let det = orientation(ray, tri);
    if (mirrored && det >= 0) || (!mirrored && det <= 0) {
        return None;
    }
    let hit = ray_triangle_intersection(ray, tri, Backfaces::Include);
    match hit {
        None => None,
        Some(h) => {
            if h.t <= 0 {
                return None;
            }
            let d = h.distance();
            if let Some(m) = max_distance {
                if !d.lt(&m) {
                    return None;
                }
            }
            let position = ray.position(&d);
            let normal = match tri_normals {
                Some(ns) => Vec3i128 {
                    x: blend(ns.n0.x, ns.n1.x, ns.n2.x, &h),
                    y: blend(ns.n0.y, ns.n1.y, ns.n2.y, &h),
                    z: blend(ns.n0.z, ns.n1.z, ns.n2.z, &h),
                },
                None => {
                    let e1 = tri.v1.minus(&tri.v0);
                    let e2 = tri.v2.minus(&tri.v0);
                    let c = e1.cross(&e2);
                    Vec3i128 { x: c.x as i128, y: c.y as i128, z: c.z as i128 }
                },
            };
            Some(Intersection::new(position, normal, d, Some(*tri)))
        },
    }
}

/// A triangle mesh: vertex positions, optional vertex normals, and an index
/// list read three at a time.
#[derive(Clone, Debug)]
pub struct MeshData {
    pub positions: Vec<Vec3>,
    pub normals: Option<Vec<Vec3>>,
    pub indices: Vec<u32>,
}

/// The image of a local point (`translate`) or direction under the transform.
pub open spec fn image(tf: Transform, p: IVec, translate: bool) -> IVec {
    if translate {
        tf.to_world(p)
    } else {
        tf.vector_to_world(p)
    }
}

/// Every point lies within `COORD_LIMIT`, and so does its image.
pub open spec fn images_fit(points: Seq<Vec3>, tf: Transform, translate: bool) -> bool {
    forall|i: int|
        0 <= i < points.len() ==> in_limit(#[trigger] points[i]) && bounded(
            image(tf, points[i]@, translate),
            COORD_LIMIT as int,
        )
}

/// The mesh is well formed and representable once placed in the world: whole
/// triangles, indices in range, one normal per vertex, coordinates in range.
pub open spec fn mesh_ok(mesh: &MeshData, tf: Transform) -> bool {
    &&& tf.wf()
    &&& mesh.indices@.len() % 3 == 0
    &&& forall|i: int|
        0 <= i < mesh.indices@.len() ==> (#[trigger] mesh.indices@[i] as int) < mesh.positions@.len()
    &&& images_fit(mesh.positions@, tf, true)
    &&& mesh.normals matches Some(ns) ==> ns@.len() == mesh.positions@.len() && images_fit(
        ns@,
        tf,
        false,
    )
}

pub open spec fn lattice(v: IVec) -> Vec3 {
    Vec3 { x: v.x as i64, y: v.y as i64, z: v.z as i64 }
}

pub open spec fn world_vertex(mesh: &MeshData, tf: Transform, i: int) -> Vec3 {
    lattice(tf.to_world(mesh.positions@[mesh.indices@[i] as int]@))
}

/// Triangle `k` of the mesh, placed in the world.
pub open spec fn world_triangle(mesh: &MeshData, tf: Transform, k: int) -> Triangle {
    Triangle {
        v0: world_vertex(mesh, tf, 3 * k),
        v1: world_vertex(mesh, tf, 3 * k + 1),
        v2: world_vertex(mesh, tf, 3 * k + 2),
    }
}

/// The face normal of triangle `k` in mesh-local coordinates.
pub open spec fn local_face_normal(mesh: &MeshData, k: int) -> IVec {
    let p0 = mesh.positions@[mesh.indices@[3 * k] as int]@;
    let p1 = mesh.positions@[mesh.indices@[3 * k + 1] as int]@;
    let p2 = mesh.positions@[mesh.indices@[3 * k + 2] as int]@;
    vcross(vsub(p1, p0), vsub(p2, p0))
}

/// The normals that triangle `k` blends, carried into the world by the
/// transform's linear part: the mesh's vertex normals if it has them, else
/// the local face normal at each vertex.
pub open spec fn world_normals(mesh: &MeshData, tf: Transform, k: int) -> Option<TriNormals> {
    match mesh.normals {
        Some(ns) => Some(
            TriNormals {
                n0: lattice(tf.vector_to_world(ns@[mesh.indices@[3 * k] as int]@)),
                n1: lattice(tf.vector_to_world(ns@[mesh.indices@[3 * k + 1] as int]@)),
                n2: lattice(tf.vector_to_world(ns@[mesh.indices@[3 * k + 2] as int]@)),
            },
        ),
        None => {
            let n = lattice(tf.vector_to_world(local_face_normal(mesh, k)));
            Some(TriNormals { n0: n, n1: n, n2: n })
        },
    }
}

pub open spec fn triangle_count(mesh: &MeshData) -> int {
    mesh.indices@.len() as int / 3
}

/// The distance of the narrow-phase hit on triangle `k`.
pub open spec fn hit_distance(ray: Ray3d, mesh: &MeshData, tf: Transform, k: int) -> Frac {
    let h = mt_spec(ray, world_triangle(mesh, tf, k), Backfaces::Include).unwrap();
    Frac { num: h.t, den: h.den }
}

/// Triangle `k` gives a hit ahead of the origin and within the bound.
pub open spec fn mesh_hit(
    ray: Ray3d,
    mesh: &MeshData,
    tf: Transform,
    max_distance: Option<Frac>,
    k: int,
) -> bool {
    accepted_hit(ray, world_triangle(mesh, tf, k), max_distance, tf.det() < 0)
}

/// `i` is the hit on triangle `k`, and no triangle is hit nearer; among
/// equally near hits, `k` comes first.
pub open spec fn is_nearest(
    i: Intersection,
    ray: Ray3d,
    mesh: &MeshData,
    tf: Transform,
    max_distance: Option<Frac>,
    k: int,
) -> bool {
    &&& 0 <= k < triangle_count(mesh)
    &&& mesh_hit(ray, mesh, tf, max_distance, k)
    &&& records_hit(
        i,
        ray,
        world_triangle(mesh, tf, k),
        world_normals(mesh, tf, k),
        mt_spec(ray, world_triangle(mesh, tf, k), Backfaces::Include).unwrap(),
    )
    &&& forall|j: int|
        0 <= j < triangle_count(mesh) && #[trigger] mesh_hit(ray, mesh, tf, max_distance, j)
            ==> !hit_distance(ray, mesh, tf, j).lt_spec(hit_distance(ray, mesh, tf, k))
    &&& forall|j: int|
        0 <= j < k && #[trigger] mesh_hit(ray, mesh, tf, max_distance, j) ==> hit_distance(
            ray,
            mesh,
            tf,
            k,
        ).lt_spec(hit_distance(ray, mesh, tf, j))
}

/// Images of points under the transform, or `None` if any point or image
/// leaves `COORD_LIMIT`.
fn world_images(points: &Vec<Vec3>, tf: &Transform, translate: bool) -> (r: Option<Vec<Vec3>>)
    requires
        tf.wf(),
    ensures
        r.is_some() == images_fit(points@, *tf, translate),
        r matches Some(w) ==> w@.len() == points@.len() && forall|i: int|
            0 <= i < points@.len() ==> (#[trigger] w@[i])@ == image(*tf, points@[i]@, translate),
{
    let mut out: Vec<Vec3> = Vec::new();
    let mut i: usize = 0;
    while i < points.len()
        invariant
            tf.wf(),
            i <= points@.len(),
            out@.len() == i,
            images_fit(points@.subrange(0, i as int), *tf, translate),
            forall|j: int| 0 <= j < i ==> (#[trigger] out@[j])@ == image(*tf, points@[j]@, translate),
        decreases points@.len() - i,
    {
        let p = points[i];
        let lim = COORD_LIMIT;
        if p.x < -lim || p.x > lim || p.y < -lim || p.y > lim || p.z < -lim || p.z > lim {
            proof {
                assert(!in_limit(points@[i as int]));
            }
            return None;
        }
        let q = if translate {
            tf.transform_point(&p)
        } else {
            tf.transform_vector(&p)
        };
        if q.x < -lim || q.x > lim || q.y < -lim || q.y > lim || q.z < -lim || q.z > lim {
            proof {
                assert(!bounded(image(*tf, points@[i as int]@, translate), COORD_LIMIT as int));
            }
            return None;
        }
        out.push(q);
        proof {
            let next = points@.subrange(0, i + 1);
            assert forall|j: int| 0 <= j < next.len() implies in_limit(#[trigger] next[j]) && bounded(
                image(*tf, next[j]@, translate),
                COORD_LIMIT as int,
            ) by {
                if j < i {
                    assert(next[j] == points@.subrange(0, i as int)[j]);
                }
            }
        }
        i = i + 1;
    }
    proof {
        assert(points@.subrange(0, points@.len() as int) =~= points@);
    }
    Some(out)
}

/// Checks that every index names a vertex.
fn indices_in_range(indices: &Vec<u32>, n: usize) -> (r: bool)
    ensures
        r == forall|i: int| 0 <= i < indices@.len() ==> (#[trigger] indices@[i] as int) < n,
{
    let mut i: usize = 0;
    while i < indices.len()
        invariant
            i <= indices@.len(),
            forall|j: int| 0 <= j < i ==> (#[trigger] indices@[j] as int) < n,
        decreases indices@.len() - i,
    {
        if indices[i] as usize >= n {
            return false;
        }
        i = i + 1;
    }
    true
}

/// The nearest hit of `ray` on the mesh placed by `mesh_to_world`, nearer than
/// `max_distance` if that is given. A malformed mesh, or one that does not fit
/// the lattice bounds once placed, gives no hit.
pub fn compute_intersection_within(
    mesh: &MeshData,
    mesh_to_world: &Transform,
    ray: &Ray3d,
    max_distance: Option<Frac>,
) -> (r: Option<Intersection>)
    requires
        ray.wf(),
        max_distance matches Some(m) ==> m.wf(),
    ensures
        !mesh_ok(mesh, *mesh_to_world) ==> r.is_none(),
        mesh_ok(mesh, *mesh_to_world) ==> (r.is_none() <==> forall|k: int|
            0 <= k < triangle_count(mesh) ==> !#[trigger] mesh_hit(
                *ray,
                mesh,
                *mesh_to_world,
                max_distance,
                k,
            )),
        r matches Some(i) ==> exists|k: int| is_nearest(i, *ray, mesh, *mesh_to_world, max_distance, k),
        r == nearest_spec(*ray, mesh, *mesh_to_world, max_distance),
{
    let tf = mesh_to_world;
    if !tf.is_valid() {
        return None;
    }
    let mirrored = tf.determinant() < 0;
    if mesh.indices.len() % 3 != 0 {
        return None;
    }
    if !indices_in_range(&mesh.indices, mesh.positions.len()) {
        return None;
    }
    let world = match world_images(&mesh.positions, tf, true) {
        Some(w) => w,
        None => return None,
    };
    let world_normals_vec: Option<Vec<Vec3>> = match &mesh.normals {
        Some(ns) => {
            if ns.len() != mesh.positions.len() {
                return None;
            }
            match world_images(ns, tf, false) {
                Some(w) => Some(w),
                None => return None,
            }
        },
        None => None,
    };
    proof {
        assert(mesh_ok(mesh, *tf));
    }
    let ghost m = max_distance;
    let n = mesh.indices.len() / 3;
    let mut best: Option<Intersection> = None;
    let ghost mut best_k: int = 0;
    let mut bound = max_distance;
    let mut k: usize = 0;
    while k < n
        invariant
            ray.wf(),
            mesh_ok(mesh, *tf),
            mirrored == (tf.det() < 0),
            n == triangle_count(mesh),
            k <= n,
            world@.len() == mesh.positions@.len(),
            forall|i: int| 0 <= i < world@.len() ==> (#[trigger] world@[i])@ == tf.to_world(mesh.positions@[i]@),
            mesh.normals is Some == world_normals_vec is Some,
            world_normals_vec matches Some(wn) ==> wn@.len() == mesh.positions@.len() && forall|i: int|
                0 <= i < wn@.len() ==> (#[trigger] wn@[i])@ == tf.vector_to_world(mesh.normals.unwrap()@[i]@),
            m == max_distance,
            m matches Some(mm) ==> mm.wf(),
            bound matches Some(b) ==> b.wf(),
            best is None ==> bound == m,
            best is None ==> forall|j: int| 0 <= j < k ==> !#[trigger] mesh_hit(*ray, mesh, *tf, m, j),
            best matches Some(bi) ==> {
                &&& bound == Some(bi.distance)
                &&& best_k < k
                &&& is_nearest_so_far(bi, *ray, mesh, *tf, m, best_k, k as int)
            },
        decreases n - k,
    {
        let len = mesh.indices.len();
        proof {
            vstd::arithmetic::div_mod::lemma_fundamental_div_mod(mesh.indices@.len() as int, 3);
            assert(3 * k + 2 < mesh.indices@.len());
        }
        let i0 = mesh.indices[3 * k] as usize;
        let i1 = mesh.indices[3 * k + 1] as usize;
        let i2 = mesh.indices[3 * k + 2] as usize;
        let tri = Triangle { v0: world[i0], v1: world[i1], v2: world[i2] };
        let tri_normals = match &world_normals_vec {
            Some(wn) => Some(TriNormals { n0: wn[i0], n1: wn[i1], n2: wn[i2] }),
            None => {
                let p0 = mesh.positions[i0];
                let e1 = mesh.positions[i1].minus(&p0);
                let e2 = mesh.positions[i2].minus(&p0);
                let n = tf.transform_vector(&e1.cross(&e2));
                Some(TriNormals { n0: n, n1: n, n2: n })
            },
        };
        assert(tri == world_triangle(mesh, *tf, k as int));
        assert(tri_normals == world_normals(mesh, *tf, k as int));
        let hit = triangle_intersection(&tri, tri_normals, bound, ray, mirrored);
        proof {
            let kk = k as int;
            let dk = hit_distance(*ray, mesh, *tf, kk);
            if hit is Some {
                // A hit under the running bound is a hit under the caller's bound.
                if best is Some {
                    let b = best.unwrap().distance;
                    if m is Some {
                        lemma_lt_trans(dk, b, m.unwrap());
                    }
                }
                assert(mesh_hit(*ray, mesh, *tf, m, kk));
                assert forall|j: int|
                    0 <= j < kk && #[trigger] mesh_hit(*ray, mesh, *tf, m, j) implies dk.lt_spec(
                    hit_distance(*ray, mesh, *tf, j),
                ) by {
                    let b = best.unwrap().distance;
                    lemma_lt_le_trans(dk, b, hit_distance(*ray, mesh, *tf, j));
                }
                assert forall|j: int|
                    0 <= j < kk + 1 && #[trigger] mesh_hit(*ray, mesh, *tf, m, j) implies !hit_distance(
                    *ray,
                    mesh,
                    *tf,
                    j,
                ).lt_spec(dk) by {
                    if j < kk {
                        lemma_lt_asym(dk, hit_distance(*ray, mesh, *tf, j));
                    }
                }
            } else {
                if best is Some {
                    assert forall|j: int|
                        0 <= j < kk + 1 && #[trigger] mesh_hit(*ray, mesh, *tf, m, j) implies !hit_distance(
                        *ray,
                        mesh,
                        *tf,
                        j,
                    ).lt_spec(hit_distance(*ray, mesh, *tf, best_k)) by {}
                } else {
                    assert forall|j: int| 0 <= j < kk + 1 implies !#[trigger] mesh_hit(
                        *ray,
                        mesh,
                        *tf,
                        m,
                        j,
                    ) by {}
                }
            }
        }
        if let Some(h) = hit {
            bound = Some(h.distance);
            best = Some(h);
            proof {
                best_k = k as int;
            }
        }
        k = k + 1;
    }
    proof {
        if best is Some {
            let bi = best.unwrap();
            assert(is_nearest(bi, *ray, mesh, *tf, m, best_k));
            let (i2, k2) = choose|i: Intersection, k: int| is_nearest(i, *ray, mesh, *tf, m, k);
            lemma_nearest_unique(bi, i2, *ray, mesh, *tf, m, best_k, k2);
        } else {
            if exists|i: Intersection, k: int| is_nearest(i, *ray, mesh, *tf, m, k) {
                let (i2, k2) = choose|i: Intersection, k: int| is_nearest(i, *ray, mesh, *tf, m, k);
                assert(mesh_hit(*ray, mesh, *tf, m, k2));
            }
        }
    }
    best
}

/// The nearest hit of `ray` on the mesh placed by `mesh_to_world`.
pub fn compute_intersection(mesh: &MeshData, mesh_to_world: &Transform, ray: &Ray3d) -> (r: Option<
    Intersection,
>)
    requires
        ray.wf(),
    ensures
        !mesh_ok(mesh, *mesh_to_world) ==> r.is_none(),
        mesh_ok(mesh, *mesh_to_world) ==> (r.is_none() <==> forall|k: int|
            0 <= k < triangle_count(mesh) ==> !#[trigger] mesh_hit(*ray, mesh, *mesh_to_world, None, k)),
        r matches Some(i) ==> exists|k: int| is_nearest(i, *ray, mesh, *mesh_to_world, None, k),
        r == nearest_spec(*ray, mesh, *mesh_to_world, None),
{
    compute_intersection_within(mesh, mesh_to_world, ray, None)
}

/// Only one triangle can be the nearest.
pub proof fn lemma_nearest_unique(
    i1: Intersection,
    i2: Intersection,
    ray: Ray3d,
    mesh: &MeshData,
    tf: Transform,
    max_distance: Option<Frac>,
    k1: int,
    k2: int,
)
    requires
        is_nearest(i1, ray, mesh, tf, max_distance, k1),
        is_nearest(i2, ray, mesh, tf, max_distance, k2),
    ensures
        k1 == k2,
        i1 == i2,
{
    if k1 < k2 {
        assert(mesh_hit(ray, mesh, tf, max_distance, k1));
    } else if k2 < k1 {
        assert(mesh_hit(ray, mesh, tf, max_distance, k2));
    }
}

/// The nearest hit on the mesh, as `compute_intersection_within` reports it.
pub open spec fn nearest_spec(ray: Ray3d, mesh: &MeshData, tf: Transform, max_distance: Option<Frac>) -> Option<
    Intersection,
> {
    if mesh_ok(mesh, tf) && exists|i: Intersection, k: int| is_nearest(i, ray, mesh, tf, max_distance, k) {
        let (i, k) = choose|i: Intersection, k: int| is_nearest(i, ray, mesh, tf, max_distance, k);
        Some(i)
    } else {
        None
    }
}

/// Like `is_nearest`, over the first `upto` triangles.
pub open spec fn is_nearest_so_far(
    i: Intersection,
    ray: Ray3d,
    mesh: &MeshData,
    tf: Transform,
    max_distance: Option<Frac>,
    k: int,
    upto: int,
) -> bool {
    &&& 0 <= k < upto
    &&& mesh_hit(ray, mesh, tf, max_distance, k)
    &&& records_hit(
        i,
        ray,
        world_triangle(mesh, tf, k),
        world_normals(mesh, tf, k),
        mt_spec(ray, world_triangle(mesh, tf, k), Backfaces::Include).unwrap(),
    )
    &&& forall|j: int|
        0 <= j < upto && #[trigger] mesh_hit(ray, mesh, tf, max_distance, j) ==> !hit_distance(
            ray,
            mesh,
            tf,
            j,
        ).lt_spec(hit_distance(ray, mesh, tf, k))
    &&& forall|j: int|
        0 <= j < k && #[trigger] mesh_hit(ray, mesh, tf, max_distance, j) ==> hit_distance(
            ray,
            mesh,
            tf,
            k,
        ).lt_spec(hit_distance(ray, mesh, tf, j))
}

} // verus!
