use raypick::broad::Aabb;
use raypick::lock_on::{LockOn, LockOnEvent, LockOnState};
use raypick::mesh::{compute_intersection, compute_intersection_within, triangle_intersection, MeshData, TriNormals};
use raypick::pick::{compute_ray, pick_meshes, update_raycast, PickableMesh, RayCastMethod, RayCastSource};
use raypick::primitives::{Frac, Intersection, Ray3d, Transform, Triangle};
use raypick::vector::Vec3;

fn same(a: Frac, num: i64, den: i64) -> bool {
    (a.num as i128) * (den as i128) == (num as i128) * (a.den as i128)
}

/// A square in the plane z = `z`, from (-10, -10) to (10, 10), facing +z.
fn square_at(z: i64) -> (Vec<Vec3>, Vec<u32>) {
    (
        vec![Vec3::new(-10, -10, z), Vec3::new(10, -10, z), Vec3::new(10, 10, z), Vec3::new(-10, 10, z)],
        vec![0, 1, 2, 0, 2, 3],
    )
}

fn square_mesh(z: i64) -> MeshData {
    let (positions, indices) = square_at(z);
    MeshData { positions, normals: None, indices }
}

fn down_ray(x: i64, y: i64, z: i64) -> Ray3d {
    Ray3d::new(Vec3::new(x, y, z), Vec3::new(0, 0, -1))
}

fn pickable(entity: u64, z: i64) -> PickableMesh {
    PickableMesh {
        entity,
        group: 1,
        visible: true,
        aabb: Some(Aabb::from_min_max(Vec3::new(-10, -10, z - 1), Vec3::new(10, 10, z + 1))),
        transform: Transform::identity(),
        mesh: square_mesh(z),
    }
}

#[test]
fn nearest_hit_selection() {
    // Two overlapping triangles on the ray, at distances 5 and 2; the far one comes first.
    let mesh = MeshData {
        positions: vec![
            Vec3::new(-10, -10, 0),
            Vec3::new(10, -10, 0),
            Vec3::new(0, 10, 0),
            Vec3::new(-10, -10, 3),
            Vec3::new(10, -10, 3),
            Vec3::new(0, 10, 3),
        ],
        normals: None,
        indices: vec![0, 1, 2, 3, 4, 5],
    };
    let hit = compute_intersection(&mesh, &Transform::identity(), &down_ray(0, 0, 5)).expect("hit");
    assert!(same(hit.distance(), 2, 1));
    assert_eq!(hit.position.num.z, 3 * hit.position.den);
    let tri = hit.triangle.expect("triangle");
    assert_eq!(tri.v0, Vec3::new(-10, -10, 3));
}

#[test]
fn nearest_hit_keeps_first_of_equal_distances() {
    let mesh = square_mesh(0);
    let hit = compute_intersection(&mesh, &Transform::identity(), &down_ray(0, 0, 5)).expect("hit");
    // (0, 0) lies on the diagonal shared by both triangles: the first one wins.
    assert_eq!(hit.triangle.expect("triangle").v1, Vec3::new(10, -10, 0));
}

#[test]
fn max_distance_bounds_the_search() {
    let mesh = square_mesh(0);
    let ray = down_ray(1, 2, 5);
    assert!(compute_intersection_within(&mesh, &Transform::identity(), &ray, Some(Frac { num: 5, den: 1 })).is_none());
    let hit = compute_intersection_within(&mesh, &Transform::identity(), &ray, Some(Frac { num: 11, den: 2 }))
        .expect("hit");
    assert!(same(hit.distance(), 5, 1));
}

#[test]
fn face_normal_without_vertex_normals() {
    let hit = compute_intersection(&square_mesh(0), &Transform::identity(), &down_ray(1, 2, 5)).expect("hit");
    assert_eq!(hit.normal.x, 0);
    assert_eq!(hit.normal.y, 0);
    assert!(hit.normal.z > 0);
    assert_eq!(hit.position.num.x, hit.position.den);
    assert_eq!(hit.position.num.y, 2 * hit.position.den);
}

#[test]
fn interpolated_vertex_normals() {
    let tri = Triangle::from_vertices([Vec3::new(0, 0, 0), Vec3::new(10, 0, 0), Vec3::new(0, 10, 0)]);
    let normals = TriNormals { n0: Vec3::new(0, 0, 10), n1: Vec3::new(10, 0, 0), n2: Vec3::new(0, 10, 0) };
    let ray = down_ray(2, 3, 5);
    let i = triangle_intersection(&tri, Some(normals), None, &ray, false).expect("hit");
    // u = 0.2, v = 0.3, w = 0.5: normal = (2, 3, 5) up to the common denominator.
    let d = i.position.den;
    assert_eq!(i.normal.x * 10, 2 * 10 * d);
    assert_eq!(i.normal.y * 10, 3 * 10 * d);
    assert_eq!(i.normal.z * 10, 5 * 10 * d);
}

#[test]
fn malformed_meshes_give_no_hit() {
    let ray = down_ray(1, 1, 5);
    let mut bad_count = square_mesh(0);
    bad_count.indices.push(0);
    assert!(compute_intersection(&bad_count, &Transform::identity(), &ray).is_none());
    let mut bad_index = square_mesh(0);
    bad_index.indices[5] = 9;
    assert!(compute_intersection(&bad_index, &Transform::identity(), &ray).is_none());
    let mut bad_normals = square_mesh(0);
    bad_normals.normals = Some(vec![Vec3::new(0, 0, 1)]);
    assert!(compute_intersection(&bad_normals, &Transform::identity(), &ray).is_none());
}

#[test]
fn transform_places_the_mesh() {
    let tf = Transform::from_scale_translation(Vec3::new(2, 2, 1), Vec3::new(0, 0, -4));
    // The square spans (-20, -20) to (20, 20) at z = -4 in the world.
    let hit = compute_intersection(&square_mesh(0), &tf, &down_ray(15, 15, 6)).expect("hit");
    assert!(same(hit.distance(), 10, 1));
    assert!(compute_intersection(&square_mesh(0), &Transform::identity(), &down_ray(15, 15, 6)).is_none());
}

#[test]
fn broad_phase_box() {
    let aabb = Aabb::from_min_max(Vec3::new(-1, -1, -1), Vec3::new(1, 1, 1));
    let (near, far) = down_ray(0, 0, 5).intersects_aabb(&aabb, &Transform::identity()).expect("hit");
    assert!(same(near, 4, 1));
    assert!(same(far, 6, 1));
    assert!(down_ray(10, 10, 5).intersects_aabb(&aabb, &Transform::identity()).is_none());
}

#[test]
fn broad_phase_box_behind_and_oblique() {
    let aabb = Aabb::from_min_max(Vec3::new(-1, -1, -1), Vec3::new(1, 1, 1));
    let (_, far) = down_ray(0, 0, -5).intersects_aabb(&aabb, &Transform::identity()).expect("interval");
    assert!(far.num < 0);
    let oblique = Ray3d::new(Vec3::new(-5, -1, 0), Vec3::new(4, 1, 0));
    let (near, far) = oblique.intersects_aabb(&aabb, &Transform::identity()).expect("hit");
    assert!(same(near, 1, 1));
    assert!(same(far, 3, 2));
    let wide = Ray3d::new(Vec3::new(-5, 0, 0), Vec3::new(2, 1, 0));
    assert!(wide.intersects_aabb(&aabb, &Transform::identity()).is_none());
    let tf = Transform::from_scale_translation(Vec3::new(1, 1, 3), Vec3::new(0, 0, -10));
    let (near, far) = down_ray(0, 0, 5).intersects_aabb(&aabb, &tf).expect("hit");
    assert!(same(near, 12, 1));
    assert!(same(far, 18, 1));
}

fn entities(list: &Vec<(u64, Intersection)>) -> Vec<u64> {
    list.iter().map(|(e, _)| *e).collect()
}

#[test]
fn pick_orders_by_distance() {
    let meshes = vec![pickable(7, 0), pickable(8, 3), pickable(9, -2)];
    let list = pick_meshes(&down_ray(1, 1, 5), 1, &meshes);
    assert_eq!(entities(&list), vec![8, 7, 9]);
    assert!(same(list[0].1.distance, 2, 1));
    assert!(same(list[2].1.distance, 7, 1));
}

#[test]
fn pick_is_deterministic() {
    let meshes = vec![pickable(1, 0), pickable(2, 0), pickable(3, 3), pickable(4, 1)];
    let a = pick_meshes(&down_ray(2, 3, 8), 1, &meshes);
    let b = pick_meshes(&down_ray(2, 3, 8), 1, &meshes);
    assert_eq!(a, b);
    // Equally near meshes keep their order.
    assert_eq!(entities(&a), vec![3, 4, 1, 2]);
}

#[test]
fn pick_skips_hidden_other_group_and_boxless_meshes() {
    let mut hidden = pickable(1, 0);
    hidden.visible = false;
    let mut other = pickable(2, 0);
    other.group = 2;
    let mut boxless = pickable(3, 0);
    boxless.aabb = None;
    let mut behind = pickable(4, 9);
    behind.aabb = Some(Aabb::from_min_max(Vec3::new(-10, -10, 8), Vec3::new(10, 10, 10)));
    let meshes = vec![hidden, other, boxless, behind, pickable(5, 0)];
    let list = pick_meshes(&down_ray(1, 1, 5), 1, &meshes);
    assert_eq!(entities(&list), vec![5]);
}

#[test]
fn update_raycast_replaces_lists() {
    let meshes = vec![pickable(1, 0), pickable(2, 2)];
    let mut with_ray = RayCastSource::new_transform_empty(1);
    compute_ray(&mut with_ray, &Transform::from_translation(Vec3::new(1, 1, 6)));
    let without_ray = RayCastSource::new_transform_empty(1);
    let mut sources = vec![with_ray, without_ray];
    update_raycast(&mut sources, &meshes);
    assert_eq!(entities(sources[0].intersections()), vec![2, 1]);
    assert!(sources[1].intersections().is_empty());
    assert!(sources[1].ray.is_none());
    // A second pass over a changed scene replaces the list.
    update_raycast(&mut sources, &vec![pickable(3, 0)]);
    assert_eq!(entities(sources[0].intersections()), vec![3]);
}

#[test]
fn ray_from_transform_is_unit_forward() {
    let tf = Transform::from_scale_translation(Vec3::new(3, 3, 7), Vec3::new(4, 5, 6));
    let ray = Ray3d::from_transform(&tf);
    assert_eq!(ray.origin, Vec3::new(4, 5, 6));
    assert_eq!(ray.direction(), Vec3::new(0, 0, -1));
    let mut source = RayCastSource::new_transform_empty(0);
    assert_eq!(source.cast_method, RayCastMethod::Transform);
    compute_ray(&mut source, &tf);
    assert_eq!(source.ray, Some(ray));
}

#[test]
fn lock_on_attaches_to_nearest_and_releases() {
    let meshes = vec![pickable(10, 0), pickable(11, 3)];
    let hits = pick_meshes(&down_ray(0, 1, 5), 1, &meshes);
    let mut lock = LockOn::new();
    let events = lock.handle_lock_on(true, false, &hits);
    assert_eq!(events, vec![LockOnEvent::Attached(11)]);
    assert_eq!(lock.state, LockOnState::Locked(11));
    let events = lock.handle_lock_on(false, false, &hits);
    assert!(events.is_empty());
    assert_eq!(lock.state, LockOnState::Locked(11));
    let events = lock.handle_lock_on(false, true, &hits);
    assert_eq!(events, vec![LockOnEvent::Released]);
    assert_eq!(lock.state, LockOnState::Unlocked);
}

#[test]
fn lock_on_needs_a_hit_and_release_wins() {
    let mut lock = LockOn::new();
    assert!(lock.handle_lock_on(true, false, &Vec::new()).is_empty());
    assert_eq!(lock.state, LockOnState::Unlocked);
    let hits = pick_meshes(&down_ray(0, 1, 5), 1, &vec![pickable(4, 0)]);
    let events = lock.handle_lock_on(true, true, &hits);
    assert_eq!(events, vec![LockOnEvent::Attached(4), LockOnEvent::Released]);
    assert_eq!(lock.state, LockOnState::Unlocked);
}

#[test]
fn lock_on_lets_go_of_vanished_target() {
    let hits = pick_meshes(&down_ray(0, 1, 5), 1, &vec![pickable(4, 0)]);
    let mut lock = LockOn::new();
    lock.handle_lock_on(true, false, &hits);
    assert_eq!(lock.target_gone(5), None);
    assert_eq!(lock.state, LockOnState::Locked(4));
    assert_eq!(lock.target_gone(4), Some(LockOnEvent::Released));
    assert_eq!(lock.state, LockOnState::Unlocked);
}

#[test]
fn vertex_normals_follow_the_transform() {
    let (positions, indices) = square_at(0);
    let mesh = MeshData { positions, normals: Some(vec![Vec3::new(1, 0, 1); 4]), indices };
    let tf = Transform::from_scale_translation(Vec3::new(3, 1, 2), Vec3::new(0, 0, 0));
    let hit = compute_intersection(&mesh, &tf, &down_ray(1, 1, 5)).expect("hit");
    // Each normal (1, 0, 1) becomes (3, 0, 2); equal weights keep it.
    let d = hit.position.den;
    assert_eq!(hit.normal.x, 3 * d);
    assert_eq!(hit.normal.y, 0);
    assert_eq!(hit.normal.z, 2 * d);
}

fn quarter_turn_about_z() -> Transform {
    Transform::from_axes(Vec3::new(0, 1, 0), Vec3::new(-1, 0, 0), Vec3::new(0, 0, 1), Vec3::new(0, 0, 0))
}

fn local_triangle_mesh(positions: Vec<Vec3>) -> MeshData {
    MeshData { positions, normals: None, indices: vec![0, 1, 2] }
}

#[test]
fn rotated_mesh() {
    let mesh = local_triangle_mesh(vec![Vec3::new(0, 0, 0), Vec3::new(10, 0, 0), Vec3::new(0, 10, 0)]);
    let tf = quarter_turn_about_z();
    // The triangle now spans x in [-10, 0], y in [0, 10].
    let hit = compute_intersection(&mesh, &tf, &down_ray(-2, 2, 5)).expect("hit");
    assert!(same(hit.distance(), 5, 1));
    assert_eq!(hit.triangle.expect("triangle").v1, Vec3::new(0, 10, 0));
    assert!(compute_intersection(&mesh, &tf, &down_ray(2, 2, 5)).is_none());
}

#[test]
fn mirrored_mesh_faces_the_other_way() {
    let mesh = local_triangle_mesh(vec![Vec3::new(0, 0, 0), Vec3::new(10, 0, 0), Vec3::new(0, 10, 0)]);
    let mirror = Transform::from_scale_translation(Vec3::new(1, 1, -1), Vec3::new(0, 0, 0));
    assert!(compute_intersection(&mesh, &mirror, &down_ray(2, 2, 5)).is_none());
    let up = Ray3d::new(Vec3::new(2, 2, -5), Vec3::new(0, 0, 1));
    let hit = compute_intersection(&mesh, &mirror, &up).expect("hit");
    assert!(same(hit.distance(), 5, 1));
    assert!(hit.normal.z < 0);
    assert!(compute_intersection(&mesh, &Transform::identity(), &up).is_none());
}

#[test]
fn face_normal_follows_non_uniform_scale() {
    // Local face normal (0, -100, 100); its image under scale (1, 1, 2) is (0, -100, 200).
    let mesh = local_triangle_mesh(vec![Vec3::new(0, 0, 0), Vec3::new(10, 0, 0), Vec3::new(0, 10, 10)]);
    let tf = Transform::from_scale_translation(Vec3::new(1, 1, 2), Vec3::new(0, 0, 0));
    let hit = compute_intersection(&mesh, &tf, &down_ray(2, 2, 20)).expect("hit");
    assert!(same(hit.distance(), 16, 1));
    let d = hit.position.den;
    assert_eq!(hit.normal.x, 0);
    assert_eq!(hit.normal.y, -100 * d);
    assert_eq!(hit.normal.z, 200 * d);
}

#[test]
fn rotated_box() {
    let aabb = Aabb::from_min_max(Vec3::new(0, 0, -1), Vec3::new(10, 1, 1));
    let tf = quarter_turn_about_z();
    // In the world the box spans x in [-1, 0], y in [0, 10], z in [-1, 1].
    let (near, far) = down_ray(0, 5, 5).intersects_aabb(&aabb, &tf).expect("hit");
    assert!(same(near, 4, 1));
    assert!(same(far, 6, 1));
    assert!(down_ray(5, 0, 5).intersects_aabb(&aabb, &tf).is_none());
    assert!(down_ray(5, 0, 5).intersects_aabb(&aabb, &Transform::identity()).is_some());
}

#[test]
fn ray_from_rotated_transform() {
    // A quarter turn about y, scaled by 3: local forward (0, 0, -1) points along -x.
    let tf = Transform::from_axes(Vec3::new(0, 0, -3), Vec3::new(0, 3, 0), Vec3::new(3, 0, 0), Vec3::new(1, 2, 3));
    let ray = Ray3d::from_transform(&tf);
    assert_eq!(ray.origin, Vec3::new(1, 2, 3));
    assert_eq!(ray.direction(), Vec3::new(-1, 0, 0));
}
