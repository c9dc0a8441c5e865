use icg_final_1::fixed::{fx_div, fx_divint, fx_mul, fx_sqrt, SCALE};
use icg_final_1::hittable::{HitRecord, Primitive, T_LIMIT};
use icg_final_1::hittable_list::HittableList;
use icg_final_1::material::{Lambertian, Material};
use icg_final_1::ray::Ray;
use icg_final_1::sphere::Sphere;
use icg_final_1::disk::Disk;
use icg_final_1::vec3::Vec3;

fn gray() -> Material {
    Material::Lambertian(Lambertian::new(Vec3 {
        x: SCALE / 2,
        y: SCALE / 2,
        z: SCALE / 2,
    }))
}

#[test]
fn fixed_point_products_and_quotients() {
    assert_eq!(fx_mul(SCALE, SCALE), SCALE);
    assert_eq!(fx_mul(SCALE / 2, SCALE / 2), SCALE / 4);
    assert_eq!(fx_mul(-SCALE, SCALE / 2), -SCALE / 2);
    assert_eq!(fx_div(SCALE, 2 * SCALE), SCALE / 2);
    assert_eq!(fx_div(-SCALE, 2 * SCALE), -SCALE / 2);
    // Floor rounding on a negative quotient.
    assert_eq!(fx_divint(-3, 2), -2);
    assert_eq!(fx_divint(3, 2), 1);
}

#[test]
fn fixed_point_square_roots_are_exact_on_squares() {
    assert_eq!(fx_sqrt(SCALE), SCALE); // sqrt 1 = 1
    assert_eq!(fx_sqrt(4 * SCALE), 2 * SCALE); // sqrt 4 = 2
    assert_eq!(fx_sqrt(SCALE / 4), SCALE / 2); // sqrt 1/4 = 1/2
    assert_eq!(fx_sqrt(0), 0);
}

#[test]
fn vector_operations() {
    let a = Vec3 { x: SCALE, y: 2 * SCALE, z: 3 * SCALE };
    let b = Vec3 { x: 4 * SCALE, y: 5 * SCALE, z: 6 * SCALE };
    let s = a.add(b);
    assert_eq!((s.x, s.y, s.z), (5 * SCALE, 7 * SCALE, 9 * SCALE));
    assert_eq!(a.dot(b), 32 * SCALE);
    let c = a.cross(b);
    assert_eq!((c.x, c.y, c.z), (-3 * SCALE, 6 * SCALE, -3 * SCALE));
    let n = Vec3 { x: 3 * SCALE, y: 4 * SCALE, z: 0 }.normalize();
    // 3-4-5 triangle: components are 0.6 and 0.8 exactly.
    assert_eq!((n.x, n.y, n.z), (39321, 52428, 0));
}

#[test]
fn ray_evaluation() {
    let r = Ray::new(
        Vec3 { x: SCALE, y: 0, z: 0 },
        Vec3 { x: 0, y: 2 * SCALE, z: 0 },
    );
    let p = r.at(SCALE / 2);
    assert_eq!((p.x, p.y, p.z), (SCALE, SCALE, 0));
}

/// A ray aimed at the center of a sphere of radius one half, fired from one
/// unit away, strikes it at exactly `t = 0.5`.
#[test]
fn sphere_unit_hit_parameter() {
    let s = Sphere::new(Vec3 { x: 0, y: 0, z: -SCALE }, SCALE / 2, gray());
    let ray = Ray::new(Vec3 { x: 0, y: 0, z: 0 }, Vec3 { x: 0, y: 0, z: -SCALE });
    let hit = s.hit(&ray, 66, T_LIMIT).expect("ray through center must hit");
    assert_eq!(hit.t, SCALE / 2);
    assert_eq!((hit.p.x, hit.p.y, hit.p.z), (0, 0, -SCALE / 2));
    // Outward normal faces the incoming ray.
    assert!(hit.front_face);
    assert_eq!((hit.normal.x, hit.normal.y, hit.normal.z), (0, 0, SCALE));
}

#[test]
fn sphere_miss_and_degenerate() {
    let s = Sphere::new(Vec3 { x: 0, y: 0, z: -4 * SCALE }, SCALE / 2, gray());
    let sideways = Ray::new(Vec3 { x: 0, y: 0, z: 0 }, Vec3 { x: 0, y: SCALE, z: 0 });
    assert!(s.hit(&sideways, 66, T_LIMIT).is_none());
    // A zero direction cannot hit anything.
    let stuck = Ray::new(Vec3 { x: 0, y: 0, z: 0 }, Vec3 { x: 0, y: 0, z: 0 });
    assert!(s.hit(&stuck, 66, T_LIMIT).is_none());
    // A nonpositive radius is a miss by policy.
    let point = Sphere::new(Vec3 { x: 0, y: 0, z: -SCALE }, 0, gray());
    let ray = Ray::new(Vec3 { x: 0, y: 0, z: 0 }, Vec3 { x: 0, y: 0, z: -SCALE });
    assert!(point.hit(&ray, 66, T_LIMIT).is_none());
}

#[test]
fn sphere_hit_normal_is_against_ray_from_inside_too() {
    let s = Sphere::new(Vec3 { x: 0, y: 0, z: 0 }, SCALE, gray());
    // From the center outward: strikes the back side.
    let ray = Ray::new(Vec3 { x: 0, y: 0, z: 0 }, Vec3 { x: 0, y: 0, z: -SCALE });
    let hit = s.hit(&ray, 66, T_LIMIT).expect("must exit the sphere");
    assert!(!hit.front_face);
    // The oriented normal still points against the ray direction.
    assert!(hit.normal.z > 0);
}

#[test]
fn disk_hit_and_parallel_miss() {
    let d = Disk::new(
        Vec3 { x: 0, y: 0, z: -2 * SCALE },
        Vec3 { x: 0, y: 0, z: SCALE },
        SCALE,
        gray(),
    );
    let ray = Ray::new(Vec3 { x: 0, y: 0, z: 0 }, Vec3 { x: 0, y: 0, z: -SCALE });
    let hit = d.hit(&ray, 66, T_LIMIT).expect("ray must hit the disk");
    assert_eq!(hit.t, 2 * SCALE);
    // Off-center beyond the radius: rejected by the squared-distance test.
    let wide = Ray::new(
        Vec3 { x: 3 * SCALE, y: 0, z: 0 },
        Vec3 { x: 0, y: 0, z: -SCALE },
    );
    assert!(d.hit(&wide, 66, T_LIMIT).is_none());
    // Parallel to the plane: no hit.
    let parallel = Ray::new(Vec3 { x: 0, y: 0, z: 0 }, Vec3 { x: SCALE, y: 0, z: 0 });
    assert!(d.hit(&parallel, 66, T_LIMIT).is_none());
}

/// In a scene holding two spheres along the ray's path, `hit` returns the
/// nearer one, whatever the insertion order.
#[test]
fn scene_returns_nearest_hit() {
    let near = Primitive::Sphere(Sphere::new(
        Vec3 { x: 0, y: 0, z: -2 * SCALE },
        SCALE / 2,
        gray(),
    ));
    let far = Primitive::Sphere(Sphere::new(
        Vec3 { x: 0, y: 0, z: -4 * SCALE },
        SCALE / 2,
        gray(),
    ));
    let ray = Ray::new(Vec3 { x: 0, y: 0, z: 0 }, Vec3 { x: 0, y: 0, z: -SCALE });

    let mut world = HittableList::new();
    world.push(far);
    world.push(near);
    let hit = world.hit(&ray, 66, T_LIMIT).expect("both spheres are on the path");
    assert_eq!(hit.t, 3 * SCALE / 2);

    let mut world2 = HittableList::new();
    world2.push(near);
    world2.push(far);
    let hit2 = world2.hit(&ray, 66, T_LIMIT).expect("both spheres are on the path");
    assert_eq!(hit2.t, 3 * SCALE / 2);
}

#[test]
fn scene_narrowed_interval_never_admits_a_farther_hit() {
    let near = Primitive::Sphere(Sphere::new(
        Vec3 { x: 0, y: 0, z: -2 * SCALE },
        SCALE / 2,
        gray(),
    ));
    let far = Primitive::Sphere(Sphere::new(
        Vec3 { x: 0, y: 0, z: -4 * SCALE },
        SCALE / 2,
        gray(),
    ));
    let ray = Ray::new(Vec3 { x: 0, y: 0, z: 0 }, Vec3 { x: 0, y: 0, z: -SCALE });
    let mut world = HittableList::new();
    world.push(near);
    world.push(far);
    // Narrow the interval past the near sphere's front surface: its back
    // surface, still nearer than the far sphere, is returned.
    let hit = world.hit(&ray, 2 * SCALE, T_LIMIT).expect("surfaces remain in range");
    assert_eq!(hit.t, 5 * SCALE / 2);
}

#[test]
fn scene_list_management() {
    let s = Primitive::Sphere(Sphere::new(Vec3 { x: 0, y: 0, z: 0 }, SCALE, gray()));
    let mut world = HittableList::from_vec(vec![s]);
    assert!(world.is_well_formed());
    world.push(s);
    world.clear();
    let ray = Ray::new(Vec3 { x: 0, y: 0, z: 4 * SCALE }, Vec3 { x: 0, y: 0, z: -SCALE });
    assert!(world.hit(&ray, 66, T_LIMIT).is_none());
    let empty = HittableList::default();
    assert!(empty.hit(&ray, 66, T_LIMIT).is_none());
}

#[test]
fn hit_record_orients_normal() {
    let ray = Ray::new(Vec3 { x: 0, y: 0, z: 0 }, Vec3 { x: 0, y: 0, z: -SCALE });
    let outward = Vec3 { x: 0, y: 0, z: SCALE };
    let rec = HitRecord::new(SCALE, Vec3 { x: 0, y: 0, z: -SCALE }, gray(), outward, &ray);
    assert!(rec.front_face);
    assert_eq!(rec.normal.z, SCALE);
    // Outward normal along the ray: flipped, front face false.
    let rec2 = HitRecord::new(
        SCALE,
        Vec3 { x: 0, y: 0, z: -SCALE },
        gray(),
        Vec3 { x: 0, y: 0, z: -SCALE },
        &ray,
    );
    assert!(!rec2.front_face);
    assert_eq!(rec2.normal.z, SCALE);
}
