//! Projectiles: the per-tick move with distance culling, and hit detection
//! against target meshes.
use vstd::prelude::*;
use crate::vector::{Vec3, IVec, ivec, vsub, vdot, in_limit, in_limit_exec, COORD_LIMIT, lemma_mul_bound};
use crate::primitives::{Ray3d, Frac};
use crate::mesh::{compute_intersection_within, nearest_spec};
use crate::pick::{PickableMesh, is_candidate, broad_phase, key_lt};
use crate::primitives::{lemma_lt_asym, lemma_lt_le_trans};

verus! {

/// A fired projectile.
#[derive(Clone, Copy, Debug, PartialEq, Eq, Structural)]
pub struct Projectile {
    /// Fast, physically moved projectiles that may cross a small target
    /// between two ticks; they are destroyed by a hit.
    pub ballistic: bool,
    /// Displacement per unit of time.
    pub velocity: Vec3,
    pub direction: Vec3,
    /// The ray the projectile was fired along.
    pub ray: Ray3d,
    pub speed: i64,
}

/// The squared length of a vector.
pub open spec fn norm_sq(a: IVec) -> int {
    vdot(a, a)
}

/// The outcome of one tick of movement.
#[derive(Clone, Copy, Debug, PartialEq, Eq, Structural)]
pub enum TickOutcome {
    /// The projectile is removed; it does not move this tick.
    Despawn,
    /// The projectile's new position.
    Moved(Vec3),
}

fn dist_sq(a: &Vec3, b: &Vec3) -> (r: i64)
    requires
        in_limit(*a),
        in_limit(*b),
    ensures
        r == norm_sq(vsub(a@, b@)),
{
    let d = a.minus(b);
    proof {
        lemma_mul_bound(d.x as int, d.x as int, 131072, 131072);
        lemma_mul_bound(d.y as int, d.y as int, 131072, 131072);
        lemma_mul_bound(d.z as int, d.z as int, 131072, 131072);
    }
    d.x * d.x + d.y * d.y + d.z * d.z
}

/// The position after moving for `dt` units of time.
pub open spec fn moved(position: Vec3, velocity: Vec3, dt: int) -> IVec {
    ivec(position.x + velocity.x * dt, position.y + velocity.y * dt, position.z + velocity.z * dt)
}

/// One tick of movement. A projectile farther than `max_distance_squared`
/// (squared) from the player is removed without moving; so is one whose move
/// would leave the lattice's coordinate range. Otherwise it moves by
/// `velocity * dt`.
pub fn update_projectile(
    position: Vec3,
    player_position: Vec3,
    velocity: Vec3,
    dt: i64,
    max_distance_squared: i64,
) -> (r: TickOutcome)
    requires
        in_limit(position),
        in_limit(player_position),
        in_limit(velocity),
        0 <= dt <= COORD_LIMIT,
    ensures
        norm_sq(vsub(position@, player_position@)) > max_distance_squared ==> r == TickOutcome::Despawn,
        norm_sq(vsub(position@, player_position@)) <= max_distance_squared ==> match r {
            TickOutcome::Moved(p) => p@ == moved(position, velocity, dt as int) && in_limit(p),
            TickOutcome::Despawn => !crate::vector::bounded(
                moved(position, velocity, dt as int),
                COORD_LIMIT as int,
            ),
        },
{
    if dist_sq(&position, &player_position) > max_distance_squared {
        return TickOutcome::Despawn;
    }
    proof {
        let l = COORD_LIMIT as int;
        lemma_mul_bound(velocity.x as int, dt as int, l, l);
        lemma_mul_bound(velocity.y as int, dt as int, l, l);
        lemma_mul_bound(velocity.z as int, dt as int, l, l);
    }
    let p = Vec3 {
        x: position.x + velocity.x * dt,
        y: position.y + velocity.y * dt,
        z: position.z + velocity.z * dt,
    };
    if in_limit_exec(&p) {
        TickOutcome::Moved(p)
    } else {
        TickOutcome::Despawn
    }
}

/// What hit detection decides for a projectile in one tick.
#[derive(Clone, Debug, PartialEq, Eq)]
pub enum HitOutcome {
    /// Nothing was hit.
    Miss,
    /// A non-ballistic projectile hit these entities and flies on.
    Hit(Vec<u64>),
    /// A ballistic projectile hit these entities and is destroyed.
    Boom(Vec<u64>),
}

/// The projectile's ray this tick: from its position along the direction it
/// was fired in.
pub open spec fn tick_ray(projectile: Projectile, position: Vec3) -> Ray3d {
    Ray3d { origin: position, direction: projectile.ray.direction }
}

/// The key under which a mesh registers a hit, if it does. Only candidates
/// of the broad phase count. A mesh that the ray meets within `reach` is
/// keyed by the distance of that hit; failing that, a ballistic projectile
/// strictly within the tolerance radius (given squared) of the mesh's origin
/// registers a hit keyed by distance zero, since it is already at the target.
pub open spec fn hit_key(
    projectile: Projectile,
    position: Vec3,
    group: u32,
    reach: Frac,
    tolerance_squared: i64,
    m: &PickableMesh,
) -> Option<Frac> {
    let ray = tick_ray(projectile, position);
    if !is_candidate(ray, group, m) {
        None
    } else {
        match nearest_spec(ray, &m.mesh, m.transform, Some(reach)) {
            Some(i) => Some(i.distance),
            None => if projectile.ballistic && norm_sq(vsub(m.transform.translation@, position@))
                < tolerance_squared {
                Some(Frac { num: 0, den: 1 })
            } else {
                None
            },
        }
    }
}

/// `order` lists, without repetition and ordered by key (ties by index),
/// exactly the indices below `n` that have a key.
pub open spec fn is_key_order(keys: spec_fn(int) -> Option<Frac>, n: int, order: Seq<int>) -> bool {
    &&& forall|i: int| 0 <= i < order.len() ==> 0 <= #[trigger] order[i] < n
    &&& forall|i: int| 0 <= i < order.len() ==> (keys(#[trigger] order[i]) is Some)
    &&& forall|q: int| 0 <= q < n && (#[trigger] keys(q) is Some) ==> order.contains(q)
    &&& forall|a: int, b: int|
        0 <= a < b < order.len() ==> key_lt(
            keys(#[trigger] order[a]).unwrap(),
            order[a],
            keys(#[trigger] order[b]).unwrap(),
            order[b],
        )
}

/// The keys of the meshes' hits.
pub open spec fn hit_keys(
    projectile: Projectile,
    position: Vec3,
    group: u32,
    reach: Frac,
    tolerance_squared: i64,
    meshes: Seq<PickableMesh>,
) -> spec_fn(int) -> Option<Frac> {
    |j: int| hit_key(projectile, position, group, reach, tolerance_squared, &meshes[j])
}

/// `hits` are the entities of the meshes that register a hit, nearest key
/// first, equal keys in the order of `meshes`.
pub open spec fn is_hit_list(
    projectile: Projectile,
    position: Vec3,
    group: u32,
    reach: Frac,
    tolerance_squared: i64,
    meshes: Seq<PickableMesh>,
    hits: Seq<u64>,
) -> bool {
    exists|order: Seq<int>|
        is_key_order(hit_keys(projectile, position, group, reach, tolerance_squared, meshes), meshes.len() as int, order)
            && hits.len() == order.len() && forall|i: int| 0 <= i < hits.len() ==> #[trigger] hits[i]
            == meshes[order[i]].entity
}

pub open spec fn outcome_view(o: HitOutcome) -> (Option<bool>, Seq<u64>) {
    match o {
        HitOutcome::Miss => (None, Seq::empty()),
        HitOutcome::Hit(v) => (Some(false), v@),
        HitOutcome::Boom(v) => (Some(true), v@),
    }
}

/// The sorting loop's state after the first `j` indices.
pub open spec fn keyed_upto(keys: spec_fn(int) -> Option<Frac>, out: Seq<(int, Frac)>, order: Seq<int>, j: int) -> bool {
    &&& out.len() == order.len()
    &&& forall|i: int| 0 <= i < order.len() ==> 0 <= #[trigger] order[i] < j
    &&& forall|i: int| 0 <= i < order.len() ==> (keys(#[trigger] order[i]) is Some)
    &&& forall|q: int| 0 <= q < j && (#[trigger] keys(q) is Some) ==> order.contains(q)
    &&& forall|a: int, b: int|
        0 <= a < b < order.len() ==> key_lt(
            keys(#[trigger] order[a]).unwrap(),
            order[a],
            keys(#[trigger] order[b]).unwrap(),
            order[b],
        )
    &&& forall|i: int| 0 <= i < out.len() ==> #[trigger] out[i] == (order[i], keys(order[i]).unwrap())
    &&& forall|i: int| 0 <= i < out.len() ==> (#[trigger] out[i]).1.wf()
}

proof fn lemma_insert_keyed(
    keys: spec_fn(int) -> Option<Frac>,
    old_out: Seq<(int, Frac)>,
    old_order: Seq<int>,
    j: int,
    p: int,
)
    requires
        0 <= j,
        keyed_upto(keys, old_out, old_order, j),
        keys(j) is Some,
        keys(j).unwrap().wf(),
        0 <= p <= old_out.len(),
        forall|i: int| 0 <= i < p ==> !keys(j).unwrap().lt_spec((#[trigger] old_out[i]).1),
        p < old_out.len() ==> keys(j).unwrap().lt_spec(old_out[p].1),
    ensures
        keyed_upto(keys, old_out.insert(p, (j, keys(j).unwrap())), old_order.insert(p, j), j + 1),
{
    let h = keys(j).unwrap();
    let out = old_out.insert(p, (j, h));
    let order = old_order.insert(p, j);
    assert forall|a: int, b: int| 0 <= a < b < order.len() implies key_lt(
        keys(#[trigger] order[a]).unwrap(),
        order[a],
        keys(#[trigger] order[b]).unwrap(),
        order[b],
    ) by {
        if b < p {
            assert(order[a] == old_order[a] && order[b] == old_order[b]);
        } else if a < p && b == p {
            assert(order[a] == old_order[a]);
            assert(old_out[a].1 == keys(old_order[a]).unwrap());
            crate::broad::lemma_frac_total(old_out[a].1, h);
        } else if a < p {
            assert(order[a] == old_order[a] && order[b] == old_order[b - 1]);
        } else if a == p {
            assert(order[b] == old_order[b - 1]);
            assert(old_out[b - 1].1 == keys(old_order[b - 1]).unwrap());
            if b - 1 > p {
                assert(old_out[p].1 == keys(old_order[p]).unwrap());
                assert(key_lt(keys(old_order[p]).unwrap(), old_order[p], keys(old_order[b - 1]).unwrap(), old_order[b - 1]));
                if old_out[b - 1].1.lt_spec(old_out[p].1) {
                    lemma_lt_asym(old_out[b - 1].1, old_out[p].1);
                }
                lemma_lt_le_trans(h, old_out[p].1, old_out[b - 1].1);
            }
        } else {
            assert(order[a] == old_order[a - 1] && order[b] == old_order[b - 1]);
        }
    }
    assert forall|q: int| 0 <= q < j + 1 && (#[trigger] keys(q) is Some) implies order.contains(q) by {
        if q < j {
            assert(old_order.contains(q));
            let w = choose|w: int| 0 <= w < old_order.len() && old_order[w] == q;
            if w < p {
                assert(order[w] == q);
            } else {
                assert(order[w + 1] == q);
            }
        } else {
            assert(order[p] == q);
        }
    }
    assert forall|i: int| 0 <= i < out.len() implies #[trigger] out[i] == (order[i], keys(order[i]).unwrap()) by {
        if i < p {
            assert(out[i] == old_out[i]);
        } else if i > p {
            assert(out[i] == old_out[i - 1]);
        }
    }
    assert forall|i: int| 0 <= i < out.len() implies (#[trigger] out[i]).1.wf() by {
        if i < p {
            assert(out[i] == old_out[i]);
        } else if i > p {
            assert(out[i] == old_out[i - 1]);
        }
    }
    assert forall|i: int| 0 <= i < order.len() implies 0 <= #[trigger] order[i] < j + 1 by {
        if i < p {
            assert(order[i] == old_order[i]);
        } else if i > p {
            assert(order[i] == old_order[i - 1]);
        }
    }
    assert forall|i: int| 0 <= i < order.len() implies (keys(#[trigger] order[i]) is Some) by {
        if i < p {
            assert(order[i] == old_order[i]);
        } else if i > p {
            assert(order[i] == old_order[i - 1]);
        }
    }
}

/// Hit detection for one projectile at `position` against the target
/// meshes of `group`: each mesh is keyed as `hit_key` says, and the
/// entities of the meshes with a key are reported by key, nearest first,
/// equal keys in the order of `meshes`. A ballistic projectile that hits is
/// destroyed (`Boom`); another flies on (`Hit`).
pub fn detect_hits(
    projectile: &Projectile,
    position: Vec3,
    group: u32,
    reach: Frac,
    tolerance_squared: i64,
    meshes: &Vec<PickableMesh>,
) -> (r: HitOutcome)
    requires
        tick_ray(*projectile, position).wf(),
        reach.wf(),
    ensures
        is_hit_list(*projectile, position, group, reach, tolerance_squared, meshes@, outcome_view(r).1),
        outcome_view(r).0 == (if outcome_view(r).1.len() == 0 {
            None
        } else {
            Some(projectile.ballistic)
        }),
{
    let ghost keys = hit_keys(*projectile, position, group, reach, tolerance_squared, meshes@);
    let ray = Ray3d { origin: position, direction: projectile.ray.direction };
    let mut out: Vec<(usize, Frac)> = Vec::new();
    let ghost mut order: Seq<int> = Seq::empty();
    let mut j: usize = 0;
    while j < meshes.len()
        invariant
            ray == tick_ray(*projectile, position),
            ray.wf(),
            reach.wf(),
            j <= meshes@.len(),
            keys == hit_keys(*projectile, position, group, reach, tolerance_squared, meshes@),
            keyed_upto(keys, out@.map_values(|e: (usize, Frac)| (e.0 as int, e.1)), order, j as int),
        decreases meshes@.len() - j,
    {
        let m = &meshes[j];
        let mut key: Option<Frac> = None;
        if broad_phase(&ray, group, m) {
            let geometric = compute_intersection_within(&m.mesh, &m.transform, &ray, Some(reach));
            match geometric {
                Some(i) => {
                    proof {
                        lemma_nearest_distance_wf(ray, &m.mesh, m.transform, Some(reach), i);
                    }
                    key = Some(i.distance);
                },
                None => {
                    if projectile.ballistic && dist_sq(&m.transform.translation, &position) < tolerance_squared {
                        key = Some(Frac { num: 0, den: 1 });
                    }
                },
            }
        }
        assert(key == keys(j as int));
        let ghost view = out@.map_values(|e: (usize, Frac)| (e.0 as int, e.1));
        if let Some(k) = key {
            proof {
                assert forall|i: int| 0 <= i < out@.len() implies (#[trigger] out@[i]).1.wf() by {
                    assert(view[i].1 == out@[i].1);
                }
            }
            let mut p: usize = 0;
            while p < out.len()
                invariant
                    p <= out@.len(),
                    k.wf(),
                    view == out@.map_values(|e: (usize, Frac)| (e.0 as int, e.1)),
                    forall|i: int| 0 <= i < out@.len() ==> (#[trigger] out@[i]).1.wf(),
                    forall|i: int| 0 <= i < p ==> !k.lt_spec((#[trigger] out@[i]).1),
                ensures
                    p <= out@.len(),
                    forall|i: int| 0 <= i < p ==> !k.lt_spec((#[trigger] out@[i]).1),
                    p < out@.len() ==> k.lt_spec(out@[p as int].1),
                decreases out@.len() - p,
            {
                if k.lt(&out[p].1) {
                    break;
                }
                p = p + 1;
            }
            let ghost old_order = order;
            out.insert(p, (j, k));
            proof {
                order = order.insert(p as int, j as int);
                lemma_insert_keyed(keys, view, old_order, j as int, p as int);
                assert(out@.map_values(|e: (usize, Frac)| (e.0 as int, e.1)) =~= view.insert(p as int, (j as int, k)));
            }
        } else {
            proof {
                assert forall|q: int| 0 <= q < j + 1 && (#[trigger] keys(q) is Some) implies order.contains(q) by {}
            }
        }
        j = j + 1;
    }
    let mut hits: Vec<u64> = Vec::new();
    let mut i: usize = 0;
    while i < out.len()
        invariant
            i <= out@.len(),
            hits@.len() == i,
            keys == hit_keys(*projectile, position, group, reach, tolerance_squared, meshes@),
            keyed_upto(keys, out@.map_values(|e: (usize, Frac)| (e.0 as int, e.1)), order, meshes@.len() as int),
            forall|q: int| 0 <= q < i ==> #[trigger] hits@[q] == meshes@[order[q]].entity,
        decreases out@.len() - i,
    {
        let idx = out[i].0;
        proof {
            let v = out@.map_values(|e: (usize, Frac)| (e.0 as int, e.1));
            assert(v[i as int] == (order[i as int], keys(order[i as int]).unwrap()));
        }
        hits.push(meshes[idx].entity);
        i = i + 1;
    }
    proof {
        assert(is_key_order(keys, meshes@.len() as int, order));
    }
    if hits.len() == 0 {
        HitOutcome::Miss
    } else if projectile.ballistic {
        HitOutcome::Boom(hits)
    } else {
        HitOutcome::Hit(hits)
    }
}

proof fn lemma_nearest_distance_wf(
    ray: Ray3d,
    mesh: &crate::mesh::MeshData,
    tf: crate::primitives::Transform,
    max_distance: Option<Frac>,
    h: crate::primitives::Intersection,
)
    requires
        Some(h) == nearest_spec(ray, mesh, tf, max_distance),
    ensures
        h.distance.wf(),
{
    let (i, k) = choose|i: crate::primitives::Intersection, k: int| crate::mesh::is_nearest(i, ray, mesh, tf, max_distance, k);
}

/// A ballistic projectile that ends a tick strictly within the tolerance
/// radius of a candidate target's origin registers a hit on it, keyed by
/// distance zero when its ray meets none of the target's triangles within
/// reach, and is destroyed.
pub proof fn lemma_tunneling_registers(
    projectile: Projectile,
    position: Vec3,
    group: u32,
    reach: Frac,
    tolerance_squared: i64,
    meshes: Seq<PickableMesh>,
    j: int,
    hits: Seq<u64>,
)
    requires
        projectile.ballistic,
        0 <= j < meshes.len(),
        is_candidate(tick_ray(projectile, position), group, &meshes[j]),
        norm_sq(vsub(meshes[j].transform.translation@, position@)) < tolerance_squared,
        is_hit_list(projectile, position, group, reach, tolerance_squared, meshes, hits),
    ensures
        hits.contains(meshes[j].entity),
        nearest_spec(tick_ray(projectile, position), &meshes[j].mesh, meshes[j].transform, Some(reach)) is None
            ==> hit_key(projectile, position, group, reach, tolerance_squared, &meshes[j]) == Some(
            Frac { num: 0, den: 1 },
        ),
{
    let keys = hit_keys(projectile, position, group, reach, tolerance_squared, meshes);
    let order = choose|order: Seq<int>|
        is_key_order(keys, meshes.len() as int, order) && hits.len() == order.len() && forall|i: int|
            0 <= i < hits.len() ==> #[trigger] hits[i] == meshes[order[i]].entity;
    assert(keys(j) is Some);
    let w = choose|w: int| 0 <= w < order.len() && order[w] == j;
    assert(hits[w] == meshes[j].entity);
}

} // verus!
