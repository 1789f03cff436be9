//! The picking coordinator: for each ray source, every pickable mesh of its
//! group that survives the broad phase is tested, and the hits are kept in
//! order of distance.
use vstd::prelude::*;
use crate::vector::{Vec3, ivec, is_zero, vdot, vcross, in_limit_exec};
use crate::direction::reduced;
use crate::primitives::{Ray3d, Frac, Intersection, Transform, lemma_lt_asym};
use crate::broad::{Aabb, Interval, box_interval};
use crate::mesh::{MeshData, compute_intersection, nearest_spec};

verus! {

/// A mesh taking part in picking, as the scene presents it for one pass.
#[derive(Debug)]
pub struct PickableMesh {
    /// The scene's handle for the mesh's entity.
    pub entity: u64,
    /// Only ray sources of the same group see the mesh.
    pub group: u32,
    pub visible: bool,
    pub aabb: Option<Aabb>,
    pub transform: Transform,
    pub mesh: MeshData,
}

/// The box gives an interval that does not lie wholly behind the origin.
pub open spec fn passes_broad_phase(ray: Ray3d, aabb: Aabb, tf: Transform) -> bool {
    &&& aabb.wf()
    &&& tf.wf()
    &&& (box_interval(ray, aabb, tf) matches Interval::Range(_, far) && far.num >= 0)
}

/// The mesh is in the group, visible, and its box passes the broad phase.
pub open spec fn is_candidate(ray: Ray3d, group: u32, m: &PickableMesh) -> bool {
    &&& m.group == group
    &&& m.visible
    &&& (m.aabb matches Some(b) && passes_broad_phase(ray, b, m.transform))
}

/// What the coordinator records for a mesh: its nearest hit, if it is a candidate.
#[verifier::opaque]
pub open spec fn mesh_pick(ray: Ray3d, group: u32, m: &PickableMesh) -> Option<Intersection> {
    if is_candidate(ray, group, m) {
        nearest_spec(ray, &m.mesh, m.transform, None)
    } else {
        None
    }
}

/// Mesh `j` is ordered before mesh `k`: nearer, or as near and listed earlier.
pub open spec fn key_lt(dj: Frac, j: int, dk: Frac, k: int) -> bool {
    dj.lt_spec(dk) || (dj.num * dk.den == dk.num * dj.den && j < k)
}

pub open spec fn pick_distance(ray: Ray3d, group: u32, meshes: Seq<PickableMesh>, j: int) -> Frac {
    mesh_pick(ray, group, &meshes[j]).unwrap().distance
}

/// `order` lists, without repetition and in order of distance (ties by
/// position in `meshes`), exactly the meshes with a hit.
pub open spec fn is_pick_order(ray: Ray3d, group: u32, meshes: Seq<PickableMesh>, order: Seq<int>) -> bool {
    &&& forall|i: int| 0 <= i < order.len() ==> 0 <= #[trigger] order[i] < meshes.len()
    &&& forall|i: int|
        0 <= i < order.len() ==> (mesh_pick(ray, group, &meshes[#[trigger] order[i]]) is Some)
    &&& forall|j: int|
        0 <= j < meshes.len() && (#[trigger] mesh_pick(ray, group, &meshes[j]) is Some) ==> order.contains(j)
    &&& forall|a: int, b: int|
        0 <= a < b < order.len() ==> key_lt(
            pick_distance(ray, group, meshes, #[trigger] order[a]),
            order[a],
            pick_distance(ray, group, meshes, #[trigger] order[b]),
            order[b],
        )
}

/// `list` holds, for each mesh with a hit, its entity and hit, in order of
/// distance, ties kept in the order of `meshes`.
pub open spec fn is_pick_list(
    ray: Ray3d,
    group: u32,
    meshes: Seq<PickableMesh>,
    list: Seq<(u64, Intersection)>,
) -> bool {
    exists|order: Seq<int>| is_pick_list_by(ray, group, meshes, list, order)
}

pub open spec fn is_pick_list_by(
    ray: Ray3d,
    group: u32,
    meshes: Seq<PickableMesh>,
    list: Seq<(u64, Intersection)>,
    order: Seq<int>,
) -> bool {
    &&& is_pick_order(ray, group, meshes, order)
    &&& list.len() == order.len()
    &&& forall|i: int|
        0 <= i < list.len() ==> #[trigger] list[i] == (
            meshes[order[i]].entity,
            mesh_pick(ray, group, &meshes[order[i]]).unwrap(),
        )
}

fn aabb_ok(b: &Aabb) -> (r: bool)
    ensures
        r == b.wf(),
{
    in_limit_exec(&b.min) && in_limit_exec(&b.max) && b.min.x <= b.max.x && b.min.y <= b.max.y
        && b.min.z <= b.max.z
}

/// Whether the mesh is a candidate for the ray: same group, visible, and its
/// box not missed nor wholly behind the origin.
pub fn broad_phase(ray: &Ray3d, group: u32, m: &PickableMesh) -> (r: bool)
    requires
        ray.wf(),
    ensures
        r == is_candidate(*ray, group, m),
{
    if m.group != group || !m.visible {
        return false;
    }
    match &m.aabb {
        None => false,
        Some(b) => {
            if !aabb_ok(b) || !m.transform.is_valid() {
                return false;
            }
            match ray.intersects_aabb(b, &m.transform) {
                Some((_near, far)) => far.num >= 0,
                None => false,
            }
        },
    }
}

/// The loop state of `pick_meshes` after the first `j` meshes.
pub open spec fn picked_upto(
    ray: Ray3d,
    group: u32,
    meshes: Seq<PickableMesh>,
    out: Seq<(u64, Intersection)>,
    order: Seq<int>,
    j: int,
) -> bool {
    &&& out.len() == order.len()
    &&& forall|i: int| 0 <= i < order.len() ==> 0 <= #[trigger] order[i] < j
    &&& forall|i: int|
        0 <= i < order.len() ==> (mesh_pick(ray, group, &meshes[#[trigger] order[i]]) is Some)
    &&& forall|q: int|
        0 <= q < j && (#[trigger] mesh_pick(ray, group, &meshes[q]) is Some) ==> order.contains(q)
    &&& forall|a: int, b: int|
        0 <= a < b < order.len() ==> key_lt(
            pick_distance(ray, group, meshes, #[trigger] order[a]),
            order[a],
            pick_distance(ray, group, meshes, #[trigger] order[b]),
            order[b],
        )
    &&& forall|i: int|
        0 <= i < out.len() ==> #[trigger] out[i] == (
            meshes[order[i]].entity,
            mesh_pick(ray, group, &meshes[order[i]]).unwrap(),
        )
    &&& forall|i: int| 0 <= i < out.len() ==> (#[trigger] out[i]).1.distance.wf()
}

/// The nearest hit of the ray on each candidate mesh, ordered by distance;
/// equally near hits keep the order of `meshes`.
pub fn pick_meshes(ray: &Ray3d, group: u32, meshes: &Vec<PickableMesh>) -> (r: Vec<(u64, Intersection)>)
    requires
        ray.wf(),
    ensures
        is_pick_list(*ray, group, meshes@, r@),
{
    let mut out: Vec<(u64, Intersection)> = Vec::new();
    let ghost mut order: Seq<int> = Seq::empty();
    let mut j: usize = 0;
    while j < meshes.len()
        invariant
            ray.wf(),
            j <= meshes@.len(),
            picked_upto(*ray, group, meshes@, out@, order, j as int),
        decreases meshes@.len() - j,
    {
        let m = &meshes[j];
        let hit = if broad_phase(ray, group, m) {
            compute_intersection(&m.mesh, &m.transform, ray)
        } else {
            None
        };
        assert(hit == mesh_pick(*ray, group, &meshes@[j as int])) by {
            reveal(mesh_pick);
        }
        if let Some(h) = hit {
            proof {
                reveal(mesh_pick);
                lemma_pick_distance_wf(*ray, &m.mesh, m.transform, h);
            }
            // Find the first entry strictly farther than the new hit.
            let mut p: usize = 0;
            while p < out.len()
                invariant
                    p <= out@.len(),
                    h.distance.wf(),
                    forall|i: int| 0 <= i < out@.len() ==> (#[trigger] out@[i]).1.distance.wf(),
                    forall|i: int| 0 <= i < p ==> !h.distance.lt_spec((#[trigger] out@[i]).1.distance),
                ensures
                    p <= out@.len(),
                    forall|i: int| 0 <= i < p ==> !h.distance.lt_spec((#[trigger] out@[i]).1.distance),
                    p < out@.len() ==> h.distance.lt_spec(out@[p as int].1.distance),
                decreases out@.len() - p,
            {
                if h.distance.lt(&out[p].1.distance) {
                    break;
                }
                p = p + 1;
            }
            let ghost old_order = order;
            let ghost old_out = out@;
            out.insert(p, (m.entity, h));
            proof {
                order = order.insert(p as int, j as int);
                lemma_insert_pick(*ray, group, meshes@, old_out, old_order, j as int, p as int);
            }
        } else {
            proof {
                assert forall|q: int|
                    0 <= q < j + 1 && (#[trigger] mesh_pick(*ray, group, &meshes@[q]) is Some) implies order.contains(q) by {}
            }
        }
        j = j + 1;
    }
    proof {
        assert(is_pick_list_by(*ray, group, meshes@, out@, order));
    }
    out
}

proof fn lemma_insert_pick(
    ray: Ray3d,
    group: u32,
    meshes: Seq<PickableMesh>,
    old_out: Seq<(u64, Intersection)>,
    old_order: Seq<int>,
    j: int,
    p: int,
)
    requires
        0 <= j < meshes.len(),
        picked_upto(ray, group, meshes, old_out, old_order, j),
        mesh_pick(ray, group, &meshes[j]) is Some,
        mesh_pick(ray, group, &meshes[j]).unwrap().distance.wf(),
        0 <= p <= old_out.len(),
        forall|i: int|
            0 <= i < p ==> !mesh_pick(ray, group, &meshes[j]).unwrap().distance.lt_spec(
                (#[trigger] old_out[i]).1.distance,
            ),
        p < old_out.len() ==> mesh_pick(ray, group, &meshes[j]).unwrap().distance.lt_spec(
            old_out[p].1.distance,
        ),
    ensures
        picked_upto(
            ray,
            group,
            meshes,
            old_out.insert(p, (meshes[j].entity, mesh_pick(ray, group, &meshes[j]).unwrap())),
            old_order.insert(p, j),
            j + 1,
        ),
{
    let h = mesh_pick(ray, group, &meshes[j]).unwrap();
    let out = old_out.insert(p, (meshes[j].entity, h));
    let order = old_order.insert(p, j);
    assert forall|a2: int, c2: int|
        0 <= a2 < c2 < old_out.len() implies !(#[trigger] old_out[c2]).1.distance.lt_spec(
        (#[trigger] old_out[a2]).1.distance,
    ) by {
        assert(old_out[a2].1.distance == pick_distance(ray, group, meshes, old_order[a2]));
        assert(old_out[c2].1.distance == pick_distance(ray, group, meshes, old_order[c2]));
        if old_out[c2].1.distance.lt_spec(old_out[a2].1.distance) {
            lemma_lt_asym(old_out[c2].1.distance, old_out[a2].1.distance);
        }
    }
    assert forall|a: int, b: int| 0 <= a < b < order.len() implies key_lt(
        pick_distance(ray, group, meshes, #[trigger] order[a]),
        order[a],
        pick_distance(ray, group, meshes, #[trigger] order[b]),
        order[b],
    ) by {
        if b < p {
            assert(order[a] == old_order[a] && order[b] == old_order[b]);
        } else if a < p && b == p {
            assert(order[a] == old_order[a]);
            assert(old_out[a].1.distance == pick_distance(ray, group, meshes, old_order[a]));
            lemma_not_lt_key(pick_distance(ray, group, meshes, old_order[a]), h.distance);
        } else if a < p {
            assert(order[a] == old_order[a] && order[b] == old_order[b - 1]);
        } else if a == p {
            assert(order[b] == old_order[b - 1]);
            assert(old_out[b - 1].1.distance == pick_distance(ray, group, meshes, old_order[b - 1]));
            lemma_lt_from_scan(old_out, p, b - 1, h.distance);
        } else {
            assert(order[a] == old_order[a - 1] && order[b] == old_order[b - 1]);
        }
    }
    assert forall|q: int|
        0 <= q < j + 1 && (#[trigger] mesh_pick(ray, group, &meshes[q]) is Some) implies order.contains(q) by {
        if q < j {
            assert(old_order.contains(q));
            let w = choose|w: int| 0 <= w < old_order.len() && old_order[w] == q;
            if w < p {
                assert(order[w] == q);
            } else {
                assert(order[w + 1] == q);
            }
        } else {
            assert(order[p] == q);
        }
    }
    assert forall|i: int| 0 <= i < out.len() implies #[trigger] out[i] == (
        meshes[order[i]].entity,
        mesh_pick(ray, group, &meshes[order[i]]).unwrap(),
    ) by {
        if i < p {
            assert(out[i] == old_out[i]);
        } else if i > p {
            assert(out[i] == old_out[i - 1]);
        }
    }
    assert forall|i: int| 0 <= i < out.len() implies (#[trigger] out[i]).1.distance.wf() by {
        if i < p {
            assert(out[i] == old_out[i]);
        } else if i > p {
            assert(out[i] == old_out[i - 1]);
        }
    }
    assert forall|i: int| 0 <= i < order.len() implies 0 <= #[trigger] order[i] < j + 1 by {
        if i < p {
            assert(order[i] == old_order[i]);
        } else if i > p {
            assert(order[i] == old_order[i - 1]);
        }
    }
    assert forall|i: int|
        0 <= i < order.len() implies (mesh_pick(ray, group, &meshes[#[trigger] order[i]]) is Some) by {
        if i < p {
            assert(order[i] == old_order[i]);
        } else if i > p {
            assert(order[i] == old_order[i - 1]);
        }
    }
}

pub proof fn lemma_pick_distance_wf(ray: Ray3d, mesh: &MeshData, tf: Transform, h: Intersection)
    requires
        Some(h) == nearest_spec(ray, mesh, tf, None),
    ensures
        h.distance.wf(),
{
    let (i, k) = choose|i: Intersection, k: int| crate::mesh::is_nearest(i, ray, mesh, tf, None, k);
}

/// An earlier entry not farther than the new hit is ordered before it, the
/// new hit's position being past every earlier one.
proof fn lemma_not_lt_key(d: Frac, dn: Frac)
    requires
        d.wf(),
        dn.wf(),
        !dn.lt_spec(d),
    ensures
        d.lt_spec(dn) || d.num * dn.den == dn.num * d.den,
{
    crate::broad::lemma_frac_total(d, dn);
}

proof fn lemma_lt_from_scan(old_out: Seq<(u64, Intersection)>, p: int, b: int, dn: Frac)
    requires
        0 <= p <= b < old_out.len(),
        p < old_out.len() ==> dn.lt_spec(old_out[p].1.distance),
        forall|a: int, c: int|
            0 <= a < c < old_out.len() ==> !(#[trigger] old_out[c]).1.distance.lt_spec(
                (#[trigger] old_out[a]).1.distance,
            ),
        forall|i: int| 0 <= i < old_out.len() ==> (#[trigger] old_out[i]).1.distance.wf(),
        dn.wf(),
    ensures
        dn.lt_spec(old_out[b].1.distance),
{
    if b > p {
        crate::primitives::lemma_lt_le_trans(dn, old_out[p].1.distance, old_out[b].1.distance);
    }
}


/// How a ray source makes its ray.
#[derive(Clone, Copy, Debug, PartialEq, Eq, Structural)]
pub enum RayCastMethod {
    /// From a cursor position on the screen, in pixels. Not supported yet.
    Screenspace(i64, i64),
    /// From the source's own transform: the ray leaves the translation along
    /// the local forward axis `(0, 0, -1)`.
    Transform,
}

/// An origin of picking rays, with the hits of its latest ray.
#[derive(Debug)]
pub struct RayCastSource {
    pub cast_method: RayCastMethod,
    pub group: u32,
    pub ray: Option<Ray3d>,
    pub intersections: Vec<(u64, Intersection)>,
}

impl RayCastSource {
    /// A source that casts from its transform, with no ray until the first
    /// `compute_ray`.
    pub fn new_transform_empty(group: u32) -> (r: RayCastSource)
        ensures
            r.cast_method == RayCastMethod::Transform,
            r.group == group,
            r.ray.is_none(),
            r.intersections@.len() == 0,
    {
        RayCastSource { cast_method: RayCastMethod::Transform, group, ray: None, intersections: Vec::new() }
    }

    /// The hits of the latest ray, nearest first.
    pub fn intersections(&self) -> (r: &Vec<(u64, Intersection)>)
        ensures
            r@ == self.intersections@,
    {
        &self.intersections
    }

    /// Replaces the hit list with the hits of the current ray on `meshes`; a
    /// source without a ray keeps its list.
    pub fn update(&mut self, meshes: &Vec<PickableMesh>)
        requires
            old(self).ray matches Some(r) ==> r.wf(),
        ensures
            final(self).cast_method == old(self).cast_method,
            final(self).group == old(self).group,
            final(self).ray == old(self).ray,
            match old(self).ray {
                Some(r) => is_pick_list(r, old(self).group, meshes@, final(self).intersections@),
                None => final(self).intersections@ == old(self).intersections@,
            },
    {
        if let Some(ray) = self.ray {
            self.intersections = pick_meshes(&ray, self.group, meshes);
        }
    }
}

/// The ray of a transform: from its translation through the image of the
/// local point `(0, 0, -1)`, that is along `-z_axis`, normalized.
pub open spec fn transform_ray(transform: Transform) -> Ray3d {
    let z = transform.z_axis;
    Ray3d {
        origin: transform.translation,
        direction: crate::mesh::lattice(reduced(ivec(-z.x, -z.y, -z.z))),
    }
}

impl Ray3d {
    /// The ray of a transform: from its translation through the image of the
    /// local point `(0, 0, -1)`, that is along `-z_axis`, normalized.
    pub fn from_transform(transform: &Transform) -> (r: Ray3d)
        requires
            transform.wf(),
        ensures
            r.wf(),
            r == transform_ray(*transform),
    {
        let z = transform.z_axis;
        proof {
            lemma_zero_axis_singular(*transform);
        }
        let forward = Vec3 { x: -z.x, y: -z.y, z: -z.z };
        Ray3d::new(transform.translation, forward)
    }
}

/// An invertible linear part has no zero column.
proof fn lemma_zero_axis_singular(tf: Transform)
    requires
        tf.det() != 0,
    ensures
        !is_zero(tf.z_axis@),
{
    let (a, b, c) = (tf.x_axis@, tf.y_axis@, tf.z_axis@);
    if is_zero(c) {
        assert(vdot(a, vcross(b, c)) == 0) by (nonlinear_arith)
            requires
                c.x == 0 && c.y == 0 && c.z == 0,
        ;
    }
}

/// Computes the source's ray from its current transform.
pub fn compute_ray(source: &mut RayCastSource, transform: &Transform)
    requires
        old(source).cast_method == RayCastMethod::Transform,
        transform.wf(),
    ensures
        final(source).ray == Some(transform_ray(*transform)),
        final(source).cast_method == old(source).cast_method,
        final(source).group == old(source).group,
        final(source).intersections@ == old(source).intersections@,
{
    source.ray = Some(Ray3d::from_transform(transform));
}

/// One picking pass: each source with a ray gets the ordered hits of that ray
/// on the meshes of its group; the previous list is replaced.
pub fn update_raycast(sources: &mut Vec<RayCastSource>, meshes: &Vec<PickableMesh>)
    requires
        forall|i: int| 0 <= i < old(sources)@.len() ==> ((#[trigger] old(sources)@[i]).ray matches Some(r) ==> r.wf()),
    ensures
        final(sources)@.len() == old(sources)@.len(),
        forall|i: int|
            0 <= i < old(sources)@.len() ==> {
                let s0 = #[trigger] old(sources)@[i];
                let s1 = final(sources)@[i];
                &&& s1.ray == s0.ray
                &&& s1.group == s0.group
                &&& s1.cast_method == s0.cast_method
                &&& match s0.ray {
                    Some(r) => is_pick_list(r, s0.group, meshes@, s1.intersections@),
                    None => s1.intersections@ == s0.intersections@,
                }
            },
{
    let ghost start = sources@;
    let mut i: usize = 0;
    while i < sources.len()
        invariant
            i <= sources@.len(),
            sources@.len() == start.len(),
            forall|k: int| i <= k < start.len() ==> #[trigger] sources@[k] == start[k],
            forall|k: int| 0 <= k < start.len() ==> ((#[trigger] start[k]).ray matches Some(r) ==> r.wf()),
            forall|k: int|
                0 <= k < i ==> {
                    let s0 = #[trigger] start[k];
                    let s1 = sources@[k];
                    &&& s1.ray == s0.ray
                    &&& s1.group == s0.group
                    &&& s1.cast_method == s0.cast_method
                    &&& match s0.ray {
                        Some(r) => is_pick_list(r, s0.group, meshes@, s1.intersections@),
                        None => s1.intersections@ == s0.intersections@,
                    }
                },
        decreases start.len() - i,
    {
        sources[i].update(meshes);
        i = i + 1;
    }
}

/// Picking is deterministic: for a given ray, group and scene there is only
/// one list that meets the contract of `pick_meshes`, so two passes over an
/// unchanged scene give identical lists, whatever order the meshes were
/// tested in.
pub proof fn lemma_pick_list_unique(
    ray: Ray3d,
    group: u32,
    meshes: Seq<PickableMesh>,
    a: Seq<(u64, Intersection)>,
    b: Seq<(u64, Intersection)>,
)
    requires
        is_pick_list(ray, group, meshes, a),
        is_pick_list(ray, group, meshes, b),
    ensures
        a == b,
{
    let oa = choose|o: Seq<int>| is_pick_list_by(ray, group, meshes, a, o);
    let ob = choose|o: Seq<int>| is_pick_list_by(ray, group, meshes, b, o);
    lemma_order_prefix(ray, group, meshes, oa, ob, if oa.len() < ob.len() { oa.len() as int } else { ob.len() as int });
    if oa.len() < ob.len() {
        lemma_order_no_extra(ray, group, meshes, oa, ob);
    } else if ob.len() < oa.len() {
        lemma_order_no_extra(ray, group, meshes, ob, oa);
    }
    assert(oa =~= ob);
    assert(a =~= b);
}

proof fn lemma_key_asym(dx: Frac, x: int, dy: Frac, y: int)
    requires
        key_lt(dx, x, dy, y),
    ensures
        !key_lt(dy, y, dx, x),
{
}

/// Two pick orders agree on their first `n` entries.
proof fn lemma_order_prefix(
    ray: Ray3d,
    group: u32,
    meshes: Seq<PickableMesh>,
    oa: Seq<int>,
    ob: Seq<int>,
    n: int,
)
    requires
        is_pick_order(ray, group, meshes, oa),
        is_pick_order(ray, group, meshes, ob),
        0 <= n <= oa.len(),
        n <= ob.len(),
    ensures
        forall|k: int| 0 <= k < n ==> oa[k] == ob[k],
    decreases n,
{
    if n > 0 {
        let i = n - 1;
        lemma_order_prefix(ray, group, meshes, oa, ob, i);
        if oa[i] != ob[i] {
            let x = oa[i];
            let y = ob[i];
            assert(mesh_pick(ray, group, &meshes[x]) is Some);
            assert(mesh_pick(ray, group, &meshes[y]) is Some);
            assert(ob.contains(x));
            assert(oa.contains(y));
            let q = choose|q: int| 0 <= q < ob.len() && ob[q] == x;
            let r = choose|r: int| 0 <= r < oa.len() && oa[r] == y;
            if q < i {
                assert(oa[q] == ob[q]);
            } else if r < i {
                assert(oa[r] == ob[r]);
            } else {
                assert(key_lt(pick_distance(ray, group, meshes, ob[i]), ob[i], pick_distance(ray, group, meshes, ob[q]), ob[q]));
                assert(key_lt(pick_distance(ray, group, meshes, oa[i]), oa[i], pick_distance(ray, group, meshes, oa[r]), oa[r]));
                lemma_key_asym(pick_distance(ray, group, meshes, x), x, pick_distance(ray, group, meshes, y), y);
            }
        }
    }
}

/// A pick order that another one starts with is no shorter than it.
proof fn lemma_order_no_extra(ray: Ray3d, group: u32, meshes: Seq<PickableMesh>, oa: Seq<int>, ob: Seq<int>)
    requires
        is_pick_order(ray, group, meshes, oa),
        is_pick_order(ray, group, meshes, ob),
        forall|k: int| 0 <= k < oa.len() && k < ob.len() ==> oa[k] == ob[k],
    ensures
        ob.len() <= oa.len(),
{
    if oa.len() < ob.len() {
        lemma_order_no_extra_step(ray, group, meshes, oa, ob);
    }
}

proof fn lemma_order_no_extra_step(ray: Ray3d, group: u32, meshes: Seq<PickableMesh>, oa: Seq<int>, ob: Seq<int>)
    requires
        is_pick_order(ray, group, meshes, oa),
        is_pick_order(ray, group, meshes, ob),
        oa.len() < ob.len(),
        forall|k: int| 0 <= k < oa.len() && k < ob.len() ==> oa[k] == ob[k],
    ensures
        ob.len() <= oa.len(),
{
    let n = oa.len() as int;
    let y = ob[n];
    assert(mesh_pick(ray, group, &meshes[y]) is Some);
    assert(oa.contains(y));
    let r = choose|r: int| 0 <= r < oa.len() && oa[r] == y;
    assert(ob[r] == y);
    assert(key_lt(pick_distance(ray, group, meshes, ob[r]), ob[r], pick_distance(ray, group, meshes, ob[n]), ob[n]));
}

} // verus!
