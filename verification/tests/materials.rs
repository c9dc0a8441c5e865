use icg_final_1::fixed::{fx_div, fx_mul, SCALE};
use icg_final_1::hittable::{HitRecord, T_LIMIT};
use icg_final_1::material::{
    reflectance, Black, BlackHoleLayer, Checker, Dielectric, Lambertian, Material, Metal,
    Portal, CHECKER_DARK, CHECKER_LIGHT,
};
use icg_final_1::ray::Ray;
use icg_final_1::rng::Rng;
use icg_final_1::sphere::Sphere;
use icg_final_1::vec3::Vec3;
use icg_final_1::{near_zero, reflect, refract};

fn front_hit(mat: Material) -> (Ray, HitRecord) {
    let ray = Ray::new(Vec3 { x: 0, y: 0, z: 0 }, Vec3 { x: 0, y: 0, z: -SCALE });
    let rec = HitRecord::new(
        SCALE,
        Vec3 { x: 0, y: 0, z: -SCALE },
        mat,
        Vec3 { x: 0, y: 0, z: SCALE },
        &ray,
    );
    (ray, rec)
}

#[test]
fn reflect_formula() {
    // Reflecting a downward ray off a floor flips the vertical component.
    let v = Vec3 { x: SCALE, y: -SCALE, z: 0 };
    let n = Vec3 { x: 0, y: SCALE, z: 0 };
    let r = reflect(&v, &n);
    assert_eq!((r.x, r.y, r.z), (SCALE, SCALE, 0));
}

#[test]
fn refract_straight_through_at_normal_incidence() {
    // At normal incidence with matched indices the direction is unchanged.
    let uv = Vec3 { x: 0, y: 0, z: -SCALE };
    let n = Vec3 { x: 0, y: 0, z: SCALE };
    let r = refract(&uv, &n, SCALE);
    assert_eq!((r.x, r.y, r.z), (0, 0, -SCALE));
}

#[test]
fn near_zero_is_exact_zero_at_this_resolution() {
    assert!(near_zero(&Vec3 { x: 0, y: 0, z: 0 }));
    assert!(!near_zero(&Vec3 { x: 1, y: 0, z: 0 }));
}

/// Diffuse scatter always succeeds, keeps the hit point as the new origin,
/// and returns the stored albedo unchanged: no channel exceeds one.
#[test]
fn lambertian_scatter_attenuation_is_albedo() {
    let albedo = Vec3 { x: SCALE / 4, y: SCALE / 2, z: SCALE };
    let mat = Lambertian::new(albedo);
    let (ray, rec) = front_hit(Material::Lambertian(mat));
    let mut rng = Rng::new(5);
    for _ in 0..32 {
        let (att, scattered) = mat.scatter(&ray, &rec, &mut rng).expect("diffuse always scatters");
        assert_eq!((att.x, att.y, att.z), (albedo.x, albedo.y, albedo.z));
        assert!(att.x <= SCALE && att.y <= SCALE && att.z <= SCALE);
        assert_eq!(
            (scattered.orig.x, scattered.orig.y, scattered.orig.z),
            (rec.p.x, rec.p.y, rec.p.z)
        );
        // The scattered direction leans along the oriented normal side.
        assert!(!(scattered.dir.x == 0 && scattered.dir.y == 0 && scattered.dir.z == 0));
    }
}

#[test]
fn metal_scatter_reflects_and_absorbs_grazing() {
    let albedo = Vec3 { x: SCALE, y: SCALE / 2, z: SCALE / 4 };
    let mat = Metal::new(albedo, 0);
    let (ray, rec) = front_hit(Material::Metal(mat));
    let mut rng = Rng::new(11);
    let (att, scattered) = mat.scatter(&ray, &rec, &mut rng).expect("mirror reflects");
    assert_eq!((att.x, att.y, att.z), (albedo.x, albedo.y, albedo.z));
    assert!(att.x <= SCALE && att.y <= SCALE && att.z <= SCALE);
    // Head-on reflection points straight back.
    assert!(scattered.dir.z > 0);

    // A reflection that lands on the wrong side of the stored normal is
    // absorbed (self-shadowing).
    let shadowed = HitRecord {
        t: SCALE,
        p: Vec3 { x: 0, y: 0, z: -SCALE },
        mat: Material::Metal(mat),
        normal: Vec3 { x: 0, y: 0, z: -SCALE },
        front_face: true,
    };
    assert!(mat.scatter(&ray, &shadowed, &mut rng).is_none());
}

#[test]
fn metal_constructor_caps_fuzz() {
    let m = Metal::new(Vec3 { x: 0, y: 0, z: 0 }, 3 * SCALE);
    assert_eq!(m.fuzz, SCALE);
    let m2 = Metal::new(Vec3 { x: 0, y: 0, z: 0 }, SCALE / 4);
    assert_eq!(m2.fuzz, SCALE / 4);
}

/// Schlick's approximation at normal incidence is exactly
/// `r0 = ((1 - n) / (1 + n))^2`, in fixed point.
#[test]
fn dielectric_reflectance_normal_incidence() {
    for &index in &[3 * SCALE / 2, 2 * SCALE, 5 * SCALE / 4] {
        let q = fx_div(SCALE - index, SCALE + index);
        let r0 = fx_mul(q, q);
        assert_eq!(reflectance(SCALE, index), r0);
    }
    // Concretely for glass (n = 1.5): ((−0.5)/2.5)^2 = 0.04.
    let glass = reflectance(SCALE, 3 * SCALE / 2);
    let expected = fx_mul(fx_div(-SCALE / 2, 5 * SCALE / 2), fx_div(-SCALE / 2, 5 * SCALE / 2));
    assert_eq!(glass, expected);
    assert!((expected - SCALE * 4 / 100).abs() <= 2);
}

#[test]
fn dielectric_always_scatters_white() {
    let mat = Dielectric::new(3 * SCALE / 2);
    let (ray, rec) = front_hit(Material::Dielectric(mat));
    let mut rng = Rng::new(3);
    for _ in 0..16 {
        let (att, scattered) = mat.scatter(&ray, &rec, &mut rng).expect("glass always scatters");
        assert_eq!((att.x, att.y, att.z), (SCALE, SCALE, SCALE));
        assert_eq!(scattered.orig.z, rec.p.z);
        assert!(!(scattered.dir.x == 0 && scattered.dir.y == 0 && scattered.dir.z == 0));
    }
}

#[test]
fn black_absorbs_everything() {
    let mat = Black::new();
    let (ray, rec) = front_hit(Material::Black(mat));
    let mut rng = Rng::new(1);
    assert!(mat.scatter(&ray, &rec, &mut rng).is_none());
    assert!(Material::Black(mat).scatter(&ray, &rec, &mut rng).is_none());
}

/// A ray leaving portal A at `p` emerges at `target_B + (p - portal_A)` with
/// its direction preserved, and the paired portal maps it straight back.
#[test]
fn portal_round_trip() {
    let pos_a = Vec3 { x: -4 * SCALE, y: SCALE, z: 0 };
    let pos_b = Vec3 { x: 4 * SCALE, y: SCALE, z: 0 };
    let (a, b) = Portal::new_pair(
        Vec3 { x: SCALE, y: SCALE / 2, z: SCALE / 2 },
        Vec3 { x: SCALE / 2, y: SCALE / 2, z: SCALE },
        pos_a,
        pos_b,
    );
    // Leave portal A through its far side at p.
    let dir = Vec3 { x: SCALE, y: 0, z: 0 };
    let ray1 = Ray::new(Vec3 { x: -5 * SCALE, y: SCALE, z: 0 }, dir);
    let p = Vec3 { x: -3 * SCALE, y: SCALE + SCALE / 4, z: 0 };
    let hit1 = HitRecord::new(
        SCALE,
        p,
        Material::Portal(a),
        Vec3 { x: SCALE, y: 0, z: 0 },
        &ray1,
    );
    assert!(!hit1.front_face);
    let mut rng = Rng::new(9);
    let (att, out) = a.scatter(&ray1, &hit1, &mut rng).expect("portal re-emits");
    assert_eq!((att.x, att.y, att.z), (SCALE, SCALE / 2, SCALE / 2));
    assert_eq!(out.orig.x, pos_b.x + (p.x - pos_a.x));
    assert_eq!(out.orig.y, pos_b.y + (p.y - pos_a.y));
    assert_eq!(out.orig.z, pos_b.z + (p.z - pos_a.z));
    assert_eq!((out.dir.x, out.dir.y, out.dir.z), (dir.x, dir.y, dir.z));

    // Leaving B from the emerged point returns exactly to p.
    let hit2 = HitRecord::new(
        SCALE,
        out.orig,
        Material::Portal(b),
        Vec3 { x: SCALE, y: 0, z: 0 },
        &out,
    );
    let (_, back) = b.scatter(&out, &hit2, &mut rng).expect("portal re-emits");
    assert_eq!((back.orig.x, back.orig.y, back.orig.z), (p.x, p.y, p.z));
    assert_eq!((back.dir.x, back.dir.y, back.dir.z), (dir.x, dir.y, dir.z));
}

#[test]
fn portal_front_face_passes_through() {
    let p = Portal::new(
        Vec3 { x: SCALE, y: SCALE, z: SCALE },
        Vec3 { x: 0, y: 0, z: 0 },
        Vec3 { x: 8 * SCALE, y: 0, z: 0 },
    );
    let (ray, rec) = front_hit(Material::Portal(p));
    let mut rng = Rng::new(2);
    let (att, out) = p.scatter(&ray, &rec, &mut rng).expect("portal entry is transparent");
    assert_eq!((att.x, att.y, att.z), (SCALE, SCALE, SCALE));
    assert_eq!(out.orig.z, rec.p.z);
    assert_eq!(out.dir.z, ray.dir.z);
}

/// Adjacent unit cells alternate between the two fixed grays; both are
/// fractional, so the checkerboard never amplifies.
#[test]
fn checker_albedo_parity() {
    let mat = Checker::new();
    let ray = Ray::new(Vec3 { x: 0, y: 4 * SCALE, z: 0 }, Vec3 { x: 0, y: -SCALE, z: 0 });
    let mut rng = Rng::new(4);
    // Hit point in the all-positive-first cell: even parity.
    let rec_even = HitRecord::new(
        SCALE,
        Vec3 { x: SCALE / 2, y: SCALE / 2, z: SCALE / 2 },
        Material::Checker(mat),
        Vec3 { x: 0, y: SCALE, z: 0 },
        &ray,
    );
    let (att, _) = mat.scatter(&ray, &rec_even, &mut rng).expect("diffuse always scatters");
    assert_eq!(att.x, CHECKER_LIGHT);
    // One cell over: odd parity.
    let rec_odd = HitRecord::new(
        SCALE,
        Vec3 { x: 3 * SCALE / 2, y: SCALE / 2, z: SCALE / 2 },
        Material::Checker(mat),
        Vec3 { x: 0, y: SCALE, z: 0 },
        &ray,
    );
    let (att2, _) = mat.scatter(&ray, &rec_odd, &mut rng).expect("diffuse always scatters");
    assert_eq!(att2.x, CHECKER_DARK);
    assert!(CHECKER_LIGHT <= SCALE && CHECKER_DARK <= SCALE);
}

#[test]
fn black_hole_layer_coefficient_and_scatter() {
    // radius 2.4: sqrt(2.4 - 1.4) = 1, so the coefficient is
    // 1 / 64 * 2.8 = 0.04375 (up to flooring).
    let layer = BlackHoleLayer::new(157286, 64 * SCALE);
    assert_eq!(layer.pre_mult, 2867);
    let (ray, rec) = front_hit(Material::BlackHoleLayer(layer));
    let mut rng = Rng::new(6);
    let (att, out) = layer.scatter(&ray, &rec, &mut rng).expect("lens always scatters");
    assert_eq!((att.x, att.y, att.z), (SCALE, SCALE, SCALE));
    assert!(!(out.dir.x == 0 && out.dir.y == 0 && out.dir.z == 0));
}

#[test]
fn sphere_carries_material_into_the_record() {
    let albedo = Vec3 { x: SCALE, y: 0, z: 0 };
    let mat = Material::Lambertian(Lambertian::new(albedo));
    let s = Sphere::new(Vec3 { x: 0, y: 0, z: -SCALE }, SCALE / 2, mat);
    let ray = Ray::new(Vec3 { x: 0, y: 0, z: 0 }, Vec3 { x: 0, y: 0, z: -SCALE });
    let hit = s.hit(&ray, 66, T_LIMIT).expect("hit");
    match hit.mat {
        Material::Lambertian(l) => assert_eq!(l.albedo.x, SCALE),
        _ => panic!("wrong material variant"),
    }
}
