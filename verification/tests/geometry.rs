use raytracer::fixed::SCALE;
use raytracer::render::{any_hit, closest_hit, T_MAX};
use raytracer::scene::{HitType, Material, Object, Ray};
use raytracer::vec3::Vec3;

fn v(x: i64, y: i64, z: i64) -> Vec3 {
    Vec3 { x, y, z }
}

fn gray() -> Material {
    Material { color: v(SCALE / 2, SCALE / 2, SCALE / 2), specular: 0, refl: 0 }
}

fn sphere_at_z(z: i64) -> Object {
    Object::Sphere { center: v(0, 0, z), radius: SCALE, material: gray() }
}

#[test]
fn vector_length_and_normalize() {
    let a = v(3 * SCALE, 4 * SCALE, 0);
    assert_eq!(a.length(), 5 * SCALE);
    let n = a.normalize();
    // 3/5 and 4/5 in fixed point, truncated
    assert_eq!(n, v(39321, 52428, 0));
}

#[test]
fn ray_at_sphere_center_hits_at_distance_minus_radius() {
    // Sphere three units ahead, unit radius, unit direction: t = 3 - 1 = 2,
    // exactly representable in fixed point.
    let objs = vec![sphere_at_z(3 * SCALE)];
    let r = Ray { o: v(0, 0, 0), d: v(0, 0, SCALE) };
    match objs[0].hit(&r, (0, T_MAX)) {
        HitType::Hit(t) => assert_eq!(t, 2 * SCALE),
        HitType::Miss => panic!("expected a hit"),
    }
    // The hit point lies exactly on the sphere surface.
    let (i, p) = closest_hit(&r, &objs, (0, T_MAX)).expect("expected a hit");
    assert_eq!(i, 0);
    assert_eq!(p, v(0, 0, 2 * SCALE));
    let center = v(0, 0, 3 * SCALE);
    assert_eq!(p.minus(center).length(), SCALE);
}

#[test]
fn parallel_ray_never_hits_plane() {
    let plane = Object::Plane { point: v(0, -SCALE, 0), normal: v(0, SCALE, 0), material: gray() };
    // direction orthogonal to the normal
    let r = Ray { o: v(0, 0, 0), d: v(SCALE, 0, 0) };
    assert!(matches!(plane.hit(&r, (0, T_MAX)), HitType::Miss));
    let r2 = Ray { o: v(0, 5 * SCALE, 0), d: v(SCALE, 0, SCALE) };
    assert!(matches!(plane.hit(&r2, (0, T_MAX)), HitType::Miss));
}

#[test]
fn closest_hit_finds_nearest_whatever_the_order() {
    let near = sphere_at_z(3 * SCALE);
    let mid = sphere_at_z(5 * SCALE);
    let far = sphere_at_z(7 * SCALE);
    let r = Ray { o: v(0, 0, 0), d: v(0, 0, SCALE) };

    let objs1 = vec![near, mid, far];
    let (i1, p1) = closest_hit(&r, &objs1, (0, T_MAX)).expect("hit");
    assert_eq!(i1, 0);

    let objs2 = vec![far, mid, near];
    let (i2, p2) = closest_hit(&r, &objs2, (0, T_MAX)).expect("hit");
    assert_eq!(i2, 2);
    assert_eq!(p1, p2);

    let objs3 = vec![mid, near, far];
    let (i3, p3) = closest_hit(&r, &objs3, (0, T_MAX)).expect("hit");
    assert_eq!(i3, 1);
    assert_eq!(p1, p3);
}

#[test]
fn closest_hit_tie_break_keeps_first_in_storage_order() {
    let a = sphere_at_z(3 * SCALE);
    let b = sphere_at_z(3 * SCALE);
    let r = Ray { o: v(0, 0, 0), d: v(0, 0, SCALE) };
    let objs = vec![a, b];
    let (i, _) = closest_hit(&r, &objs, (0, T_MAX)).expect("hit");
    assert_eq!(i, 0);
}

#[test]
fn any_hit_agrees_with_closest_hit_on_existence() {
    let objs = vec![sphere_at_z(5 * SCALE), sphere_at_z(3 * SCALE)];
    let toward = Ray { o: v(0, 0, 0), d: v(0, 0, SCALE) };
    let away = Ray { o: v(0, 0, 0), d: v(0, 0, -SCALE) };

    assert!(any_hit(&toward, &objs, (0, T_MAX)).is_some());
    assert!(closest_hit(&toward, &objs, (0, T_MAX)).is_some());
    // any_hit returns the first object in storage order, not the nearest
    let (ai, _) = any_hit(&toward, &objs, (0, T_MAX)).unwrap();
    assert_eq!(ai, 0);
    let (ci, _) = closest_hit(&toward, &objs, (0, T_MAX)).unwrap();
    assert_eq!(ci, 1);

    assert!(any_hit(&away, &objs, (0, T_MAX)).is_none());
    assert!(closest_hit(&away, &objs, (0, T_MAX)).is_none());
}

#[test]
fn out_of_range_hits_are_misses() {
    let objs = vec![sphere_at_z(3 * SCALE)];
    let r = Ray { o: v(0, 0, 0), d: v(0, 0, SCALE) };
    // hit is at t = 2; range that stops before it sees nothing
    assert!(closest_hit(&r, &objs, (0, SCALE)).is_none());
    // range starting past the far intersection (t = 4) sees nothing
    assert!(closest_hit(&r, &objs, (5 * SCALE, T_MAX)).is_none());
}
