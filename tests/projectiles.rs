use raypick::broad::Aabb;
use raypick::mesh::MeshData;
use raypick::pick::PickableMesh;
use raypick::primitives::{Frac, Ray3d, Transform};
use raypick::projectile::{detect_hits, update_projectile, HitOutcome, Projectile, TickOutcome};
use raypick::vector::Vec3;

// Coordinates are in hundredths of a unit.
fn target(entity: u64, center: Vec3) -> PickableMesh {
    // A small square of side 4 around the target's origin, facing +z, in a
    // box that reaches 0.1 units above and below it.
    PickableMesh {
        entity,
        group: 0,
        visible: true,
        aabb: Some(Aabb::from_min_max(Vec3::new(-2, -2, -10), Vec3::new(2, 2, 10))),
        transform: Transform::from_translation(center),
        mesh: MeshData {
            positions: vec![Vec3::new(-2, -2, 0), Vec3::new(2, -2, 0), Vec3::new(2, 2, 0), Vec3::new(-2, 2, 0)],
            normals: None,
            indices: vec![0, 1, 2, 0, 2, 3],
        },
    }
}

fn projectile(ballistic: bool, direction: Vec3) -> Projectile {
    Projectile {
        ballistic,
        velocity: direction,
        direction,
        ray: Ray3d::new(Vec3::new(0, 0, 0), direction),
        speed: 1,
    }
}

const REACH: Frac = Frac { num: 100, den: 1 };
const TOLERANCE_SQUARED: i64 = 25;

#[test]
fn bullet_hit_is_reported_and_bullet_flies_on() {
    let p = projectile(false, Vec3::new(0, 0, -1));
    let targets = vec![target(3, Vec3::new(0, 0, 0))];
    let outcome = detect_hits(&p, Vec3::new(1, 1, 50), 0, REACH, TOLERANCE_SQUARED, &targets);
    assert_eq!(outcome, HitOutcome::Hit(vec![3]));
}

#[test]
fn target_beyond_reach_is_not_hit() {
    let p = projectile(false, Vec3::new(0, 0, -1));
    let targets = vec![target(3, Vec3::new(0, 0, 0))];
    let outcome = detect_hits(&p, Vec3::new(1, 1, 150), 0, REACH, TOLERANCE_SQUARED, &targets);
    assert_eq!(outcome, HitOutcome::Miss);
}

#[test]
fn ballistic_hit_destroys_projectile() {
    let p = projectile(true, Vec3::new(0, 0, -1));
    let targets = vec![target(3, Vec3::new(0, 0, 0)), target(4, Vec3::new(50, 0, 0))];
    let outcome = detect_hits(&p, Vec3::new(1, 1, 50), 0, REACH, TOLERANCE_SQUARED, &targets);
    assert_eq!(outcome, HitOutcome::Boom(vec![3]));
}

#[test]
fn ballistic_tunneling() {
    // The missile has passed the target's plane: its ray points away, so no
    // triangle is met, but it lies 0.04 units from the target's origin.
    let p = projectile(true, Vec3::new(0, 0, -1));
    let targets = vec![target(3, Vec3::new(0, 0, 0))];
    let position = Vec3::new(0, 0, -4);
    assert_eq!(detect_hits(&p, position, 0, REACH, TOLERANCE_SQUARED, &targets), HitOutcome::Boom(vec![3]));
    // The same place is no hit for a bullet, nor for a missile 0.05 units off.
    let bullet = projectile(false, Vec3::new(0, 0, -1));
    assert_eq!(detect_hits(&bullet, position, 0, REACH, TOLERANCE_SQUARED, &targets), HitOutcome::Miss);
    assert_eq!(detect_hits(&p, Vec3::new(0, 0, -5), 0, REACH, TOLERANCE_SQUARED, &targets), HitOutcome::Miss);
}

#[test]
fn hidden_target_is_not_hit() {
    let p = projectile(true, Vec3::new(0, 0, -1));
    let mut t = target(3, Vec3::new(0, 0, 0));
    t.visible = false;
    assert_eq!(detect_hits(&p, Vec3::new(0, 0, 2), 0, REACH, TOLERANCE_SQUARED, &vec![t]), HitOutcome::Miss);
}

#[test]
fn distance_culling() {
    let player = Vec3::new(0, 0, 0);
    let v = Vec3::new(0, 0, -10);
    // 30^2 + 40^2 = 2500 > 2499: removed, without moving.
    assert_eq!(update_projectile(Vec3::new(30, 40, 0), player, v, 2, 2499), TickOutcome::Despawn);
    // Exactly at the limit: it moves on.
    assert_eq!(
        update_projectile(Vec3::new(30, 40, 0), player, v, 2, 2500),
        TickOutcome::Moved(Vec3::new(30, 40, -20))
    );
}

#[test]
fn projectile_leaving_the_lattice_is_removed() {
    let v = Vec3::new(0, 0, 60000);
    assert_eq!(
        update_projectile(Vec3::new(0, 0, 60000), Vec3::new(0, 0, 0), v, 1, i64::MAX),
        TickOutcome::Despawn
    );
}

#[test]
fn hits_are_reported_nearest_first() {
    let p = projectile(false, Vec3::new(0, 0, -1));
    // The farther target is listed first.
    let targets = vec![target(3, Vec3::new(0, 0, 0)), target(4, Vec3::new(0, 0, 20))];
    let outcome = detect_hits(&p, Vec3::new(1, 1, 50), 0, REACH, TOLERANCE_SQUARED, &targets);
    assert_eq!(outcome, HitOutcome::Hit(vec![4, 3]));
}

#[test]
fn equally_near_hits_keep_target_order() {
    let p = projectile(false, Vec3::new(0, 0, -1));
    let targets = vec![target(5, Vec3::new(0, 0, 0)), target(6, Vec3::new(1, 1, 0))];
    let outcome = detect_hits(&p, Vec3::new(1, 1, 50), 0, REACH, TOLERANCE_SQUARED, &targets);
    assert_eq!(outcome, HitOutcome::Hit(vec![5, 6]));
}

#[test]
fn tunneling_hit_comes_before_ray_hits() {
    let p = projectile(true, Vec3::new(0, 0, -1));
    // Target 4 is met by the ray 26 hundredths ahead; target 3 only by the
    // tolerance radius, at distance zero.
    let targets = vec![target(4, Vec3::new(0, 0, -30)), target(3, Vec3::new(0, 0, 0))];
    let outcome = detect_hits(&p, Vec3::new(0, 0, -4), 0, REACH, TOLERANCE_SQUARED, &targets);
    assert_eq!(outcome, HitOutcome::Boom(vec![3, 4]));
}
