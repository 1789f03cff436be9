use raypick::narrow::{ray_triangle_intersection, raycast_moller_trumbore};
use raypick::primitives::{Backfaces, Frac, Ray3d, Triangle};
use raypick::vector::Vec3;

// Coordinates are in tenths of a unit.
fn unit_triangle() -> Triangle {
    Triangle::from_vertices([Vec3::new(0, 0, 0), Vec3::new(10, 0, 0), Vec3::new(0, 10, 0)])
}

fn same(a: Frac, num: i64, den: i64) -> bool {
    (a.num as i128) * (den as i128) == (num as i128) * (a.den as i128)
}

#[test]
fn plane_containment() {
    let ray = Ray3d::new(Vec3::new(2, 2, 50), Vec3::new(0, 0, -1));
    let hit = ray_triangle_intersection(&ray, &unit_triangle(), Backfaces::Cull).expect("hit");
    assert!(hit.den > 0);
    assert!(same(hit.distance(), 50, 1));
    let (u, v) = hit.uv_coords();
    assert!(same(u, 2, 10));
    assert!(same(v, 2, 10));
    assert!(u.num >= 0 && v.num >= 0 && u.num + v.num <= hit.den);
}

#[test]
fn miss_outside_bounds() {
    let ray = Ray3d::new(Vec3::new(20, 20, 50), Vec3::new(0, 0, -1));
    assert!(ray_triangle_intersection(&ray, &unit_triangle(), Backfaces::Cull).is_none());
    assert!(ray_triangle_intersection(&ray, &unit_triangle(), Backfaces::Include).is_none());
}

#[test]
fn backface_culling() {
    let ray = Ray3d::new(Vec3::new(2, 2, -50), Vec3::new(0, 0, 1));
    assert!(raycast_moller_trumbore(&ray, &unit_triangle(), Backfaces::Cull).is_none());
    let hit = raycast_moller_trumbore(&ray, &unit_triangle(), Backfaces::Include).expect("hit");
    assert!(hit.den > 0);
    assert!(same(hit.distance(), 50, 1));
    let (u, v) = hit.uv_coords();
    assert!(same(u, 2, 10));
    assert!(same(v, 2, 10));
}

#[test]
fn parallel_ray_never_hits() {
    let ray = Ray3d::new(Vec3::new(2, 2, 0), Vec3::new(1, 0, 0));
    assert!(raycast_moller_trumbore(&ray, &unit_triangle(), Backfaces::Include).is_none());
    assert!(raycast_moller_trumbore(&ray, &unit_triangle(), Backfaces::Cull).is_none());
}

#[test]
fn edge_and_vertex_hits_count() {
    let on_edge = Ray3d::new(Vec3::new(5, 0, 10), Vec3::new(0, 0, -1));
    assert!(raycast_moller_trumbore(&on_edge, &unit_triangle(), Backfaces::Cull).is_some());
    let on_vertex = Ray3d::new(Vec3::new(10, 0, 10), Vec3::new(0, 0, -1));
    assert!(raycast_moller_trumbore(&on_vertex, &unit_triangle(), Backfaces::Cull).is_some());
    let on_hypotenuse = Ray3d::new(Vec3::new(5, 5, 10), Vec3::new(0, 0, -1));
    assert!(raycast_moller_trumbore(&on_hypotenuse, &unit_triangle(), Backfaces::Cull).is_some());
    let past = Ray3d::new(Vec3::new(6, 5, 10), Vec3::new(0, 0, -1));
    assert!(raycast_moller_trumbore(&past, &unit_triangle(), Backfaces::Cull).is_none());
}

#[test]
fn hit_behind_origin_is_reported_with_negative_distance() {
    let ray = Ray3d::new(Vec3::new(2, 2, -50), Vec3::new(0, 0, -1));
    let hit = raycast_moller_trumbore(&ray, &unit_triangle(), Backfaces::Include).expect("plane hit");
    assert!(same(hit.distance(), -50, 1));
}

#[test]
fn oblique_ray_distance_in_direction_lengths() {
    // Direction (1, 0, -2): from z = 4 the plane z = 0 lies two direction lengths away.
    let ray = Ray3d::new(Vec3::new(1, 1, 4), Vec3::new(1, 0, -2));
    let hit = raycast_moller_trumbore(&ray, &unit_triangle(), Backfaces::Cull).expect("hit");
    assert!(same(hit.distance(), 2, 1));
    let p = ray.position(&hit.distance());
    assert_eq!(p.num.x, 3 * p.den);
    assert_eq!(p.num.y, p.den);
    assert_eq!(p.num.z, 0);
}

#[test]
fn fraction_order() {
    let a = Frac { num: 1, den: 3 };
    let b = Frac { num: 1, den: 2 };
    assert!(a.lt(&b));
    assert!(!b.lt(&a));
    let c = Frac { num: 2, den: 4 };
    assert!(!b.lt(&c) && !c.lt(&b));
    let n = Frac { num: -1, den: 5 };
    assert!(n.lt(&a));
}

#[test]
fn ray_direction_is_normalized() {
    let o = Vec3::new(1, 2, 3);
    assert_eq!(Ray3d::new(o, Vec3::new(0, 0, -5)).direction(), Vec3::new(0, 0, -1));
    assert_eq!(Ray3d::new(o, Vec3::new(4, 6, -2)).direction(), Vec3::new(2, 3, -1));
    assert_eq!(Ray3d::new(o, Vec3::new(-6, 0, 9)).direction(), Vec3::new(-2, 0, 3));
    assert_eq!(Ray3d::new(o, Vec3::new(3, 5, 7)).direction(), Vec3::new(3, 5, 7));
}

#[test]
fn ray_direction_ignores_magnitude() {
    let o = Vec3::new(0, 0, 0);
    let base = Ray3d::new(o, Vec3::new(2, -3, 1));
    for k in [1i64, 2, 7, 100, 2000] {
        let scaled = Ray3d::new(o, Vec3::new(2 * k, -3 * k, k));
        assert_eq!(scaled, base);
    }
}

#[test]
fn hit_distance_ignores_direction_magnitude() {
    let short = Ray3d::new(Vec3::new(2, 2, 50), Vec3::new(0, 0, -1));
    let long = Ray3d::new(Vec3::new(2, 2, 50), Vec3::new(0, 0, -40));
    let a = raycast_moller_trumbore(&short, &unit_triangle(), Backfaces::Cull).expect("hit");
    let b = raycast_moller_trumbore(&long, &unit_triangle(), Backfaces::Cull).expect("hit");
    assert_eq!(a, b);
}
