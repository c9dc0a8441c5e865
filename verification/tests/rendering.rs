use icg_final_1::approx::{exp2_fx, log2_fx, powf_fx, tan_half_deg};
use icg_final_1::material::{Black, BlackHoleLayer, Checker, Dielectric, Metal, Portal};
use icg_final_1::camera::{
    ray_color, settings_valid, Camera, CameraSettings, ImageSettings, QualitySettings,
};
use icg_final_1::color::{color_to_rgb, write_color};
use icg_final_1::fixed::SCALE;
use icg_final_1::hittable::Primitive;
use icg_final_1::hittable_list::HittableList;
use icg_final_1::material::{Lambertian, Material};
use icg_final_1::ray::Ray;
use icg_final_1::rng::Rng;
use icg_final_1::sphere::Sphere;
use icg_final_1::vec3::Vec3;

/// The canonical two-sphere scene: a ground sphere of radius 100 at
/// `y = -100.5` and a unit-radius-half sphere at `z = -1`, both diffuse.
fn two_sphere_world() -> HittableList {
    let ground = Material::Lambertian(Lambertian::new(Vec3 {
        x: SCALE / 2,
        y: SCALE * 4 / 5,
        z: 0,
    }));
    let center = Material::Lambertian(Lambertian::new(Vec3 {
        x: SCALE * 7 / 10,
        y: SCALE * 3 / 10,
        z: SCALE * 3 / 10,
    }));
    let mut world = HittableList::new();
    world.push(Primitive::Sphere(Sphere::new(
        Vec3 { x: 0, y: -(100 * SCALE + SCALE / 2), z: -SCALE },
        100 * SCALE,
        ground,
    )));
    world.push(Primitive::Sphere(Sphere::new(
        Vec3 { x: 0, y: 0, z: -SCALE },
        SCALE / 2,
        center,
    )));
    world
}

fn pinhole_camera() -> Camera {
    let image_settings = ImageSettings { image_width: 8, aspect_ratio: 2 * SCALE };
    let quality_settings = QualitySettings { samples_per_pixel: 1, max_depth: 1 };
    let camera_settings = CameraSettings {
        vfov: 90 * SCALE,
        focus_dist: SCALE,
        defocus_angle: 0,
        camera_center: Vec3 { x: 0, y: 0, z: 0 },
        camera_lookat: Vec3 { x: 0, y: 0, z: -SCALE },
        camera_vup: Vec3 { x: 0, y: SCALE, z: 0 },
    };
    assert!(settings_valid(image_settings, quality_settings, camera_settings));
    Camera::new(image_settings, quality_settings, camera_settings)
}

/// Depth termination: with an exhausted recursion budget the integrator
/// returns black, whatever the ray would otherwise strike.
#[test]
fn ray_color_depth_zero_is_black() {
    let world = two_sphere_world();
    let mut rng = Rng::new(0);
    let rays = [
        Ray::new(Vec3 { x: 0, y: 0, z: 0 }, Vec3 { x: 0, y: 0, z: -SCALE }),
        Ray::new(Vec3 { x: 0, y: 0, z: 0 }, Vec3 { x: 0, y: SCALE, z: 0 }),
        Ray::new(Vec3 { x: SCALE, y: SCALE, z: SCALE }, Vec3 { x: SCALE, y: 0, z: 0 }),
    ];
    for ray in rays.iter() {
        let c = ray_color(ray, &world, 0, &mut rng);
        assert_eq!((c.x, c.y, c.z), (0, 0, 0));
    }
}

#[test]
fn ray_color_miss_is_background_gradient() {
    let world = HittableList::new();
    let mut rng = Rng::new(0);
    // Straight up: the gradient's blue end.
    let up = ray_color(
        &Ray::new(Vec3 { x: 0, y: 0, z: 0 }, Vec3 { x: 0, y: SCALE, z: 0 }),
        &world,
        8,
        &mut rng,
    );
    // Straight down: the white end.
    let down = ray_color(
        &Ray::new(Vec3 { x: 0, y: 0, z: 0 }, Vec3 { x: 0, y: -SCALE, z: 0 }),
        &world,
        8,
        &mut rng,
    );
    assert_eq!((down.x, down.y, down.z), (SCALE, SCALE, SCALE));
    assert!(up.z > up.x); // bluer than red
    assert_eq!(up.z, SCALE);
    assert_eq!(up.x, SCALE / 2);
}

#[test]
fn ray_color_channels_stay_fractional() {
    let world = two_sphere_world();
    let mut rng = Rng::new(42);
    for i in 0..32i64 {
        let dir = Vec3 { x: (i - 16) * SCALE / 16, y: -SCALE / 2, z: -SCALE };
        let c = ray_color(&Ray::new(Vec3 { x: 0, y: 0, z: 0 }, dir), &world, 8, &mut rng);
        assert!(0 <= c.x && c.x <= SCALE);
        assert!(0 <= c.y && c.y <= SCALE);
        assert!(0 <= c.z && c.z <= SCALE);
    }
}

#[test]
fn tone_mapping_bytes() {
    let black = color_to_rgb(Vec3 { x: 0, y: 0, z: 0 });
    assert_eq!(black, (0, 0, 0));
    let white = color_to_rgb(Vec3 { x: SCALE, y: SCALE, z: SCALE });
    assert_eq!(white, (255, 255, 255));
    // Gamma 2: a quarter-intensity channel maps to half amplitude.
    let mid = color_to_rgb(Vec3 { x: SCALE / 4, y: 0, z: 0 });
    assert_eq!(mid.0, 128);
    // Negative light is clamped to zero.
    let neg = color_to_rgb(Vec3 { x: -SCALE, y: 0, z: 0 });
    assert_eq!(neg.0, 0);
}

#[test]
fn write_color_emits_one_decimal_triple_line() {
    let mut out: Vec<u8> = Vec::new();
    write_color(&mut out, Vec3 { x: 0, y: SCALE / 4, z: SCALE });
    assert_eq!(out, b"0 128 255\n".to_vec());
}

#[test]
fn camera_dimensions_follow_aspect_ratio() {
    let cam = pinhole_camera();
    assert_eq!(cam.image_width, 8);
    assert_eq!(cam.image_height, 4);
    assert_eq!(cam.samples_per_pixel, 1);
}

/// Rendering the canonical two-sphere scene is deterministic: the same seed
/// reproduces the same pixel grid, and the framebuffer has the row-major
/// size the camera promises.
#[test]
fn render_two_sphere_scene_deterministic() {
    let cam = pinhole_camera();
    let world = two_sphere_world();
    assert!(world.is_well_formed());
    let mut rng1 = Rng::new(12345);
    let buf1 = cam.render_to_imgbuf(&world, &mut rng1);
    let mut rng2 = Rng::new(12345);
    let buf2 = cam.render_to_imgbuf(&world, &mut rng2);
    assert_eq!(buf1.len(), 3 * 8 * 4);
    assert_eq!(buf1, buf2);
    // A different seed jitters sample positions; the buffer shape holds.
    let mut rng3 = Rng::new(54321);
    let buf3 = cam.render_to_imgbuf(&world, &mut rng3);
    assert_eq!(buf3.len(), 3 * 8 * 4);
}

#[test]
fn render_writes_header_and_row_major_triples() {
    let cam = pinhole_camera();
    let world = two_sphere_world();
    let mut rng = Rng::new(7);
    let mut out: Vec<u8> = Vec::new();
    cam.render(&mut out, &world, &mut rng);
    let text = String::from_utf8(out).expect("the pixel map is ASCII");
    let mut lines = text.lines();
    assert_eq!(lines.next(), Some("P3"));
    assert_eq!(lines.next(), Some("8 4"));
    assert_eq!(lines.next(), Some("255"));
    let pixel_lines: Vec<&str> = lines.collect();
    assert_eq!(pixel_lines.len(), 8 * 4);
    for line in pixel_lines {
        let parts: Vec<&str> = line.split(' ').collect();
        assert_eq!(parts.len(), 3);
        for part in parts {
            let v: u32 = part.parse().expect("a decimal channel");
            assert!(v <= 255);
        }
    }
}

#[test]
fn rng_draws_are_in_range_and_reproducible() {
    let mut a = Rng::new(99);
    let mut b = Rng::new(99);
    for _ in 0..64 {
        let x = a.next_unit();
        assert!(0 <= x && x < SCALE);
        assert_eq!(x, b.next_unit());
        let s = a.next_symmetric();
        assert!(-SCALE <= s && s < SCALE);
        b.next_symmetric();
    }
}

#[test]
fn sampling_helpers_stay_bounded() {
    let mut rng = Rng::new(2024);
    for _ in 0..64 {
        let u = icg_final_1::random_unit_vec3(&mut rng);
        assert!(u.x.abs() <= 2 * SCALE && u.y.abs() <= 2 * SCALE && u.z.abs() <= 2 * SCALE);
        let d = icg_final_1::random_vec3_in_unit_disk(&mut rng);
        assert_eq!(d.z, 0);
        assert!(d.x.abs() <= SCALE && d.y.abs() <= SCALE);
        let v = icg_final_1::random_vec3_in(&mut rng, -3 * SCALE, 5 * SCALE);
        assert!(-3 * SCALE <= v.x && v.x <= 5 * SCALE);
    }
}

#[test]
fn transcendental_approximations() {
    // tan(45 degrees) = 1, within the series' tolerance.
    let t = tan_half_deg(90 * SCALE);
    assert!((t - SCALE).abs() < 300, "tan(45deg) ~ 1, got {t}");
    // Exact on powers of two: log2(4) = 2, log2(1/2) = -1, 2^4 = 16,
    // 2^-1 = 1/2, 4^2 = 16.
    assert_eq!(log2_fx(4 * SCALE), 2 * SCALE);
    assert_eq!(log2_fx(SCALE / 2), -SCALE);
    assert_eq!(exp2_fx(4 * SCALE), 16 * SCALE);
    assert_eq!(exp2_fx(-SCALE), SCALE / 2);
    assert_eq!(powf_fx(4 * SCALE, 2 * SCALE), 16 * SCALE);
}

#[test]
fn render_exercises_every_material_variant() {
    let mut world = HittableList::new();
    world.push(Primitive::Sphere(Sphere::new(
        Vec3 { x: 0, y: -101 * SCALE, z: -SCALE },
        100 * SCALE,
        Material::Checker(Checker::new()),
    )));
    world.push(Primitive::Sphere(Sphere::new(
        Vec3 { x: -2 * SCALE, y: 0, z: -2 * SCALE },
        SCALE / 2,
        Material::Metal(Metal::new(Vec3 { x: SCALE, y: SCALE, z: SCALE }, SCALE / 10)),
    )));
    world.push(Primitive::Sphere(Sphere::new(
        Vec3 { x: 0, y: 0, z: -2 * SCALE },
        SCALE / 2,
        Material::Dielectric(Dielectric::new(3 * SCALE / 2)),
    )));
    let (pa, pb) = Portal::new_pair(
        Vec3 { x: SCALE, y: SCALE / 2, z: SCALE / 2 },
        Vec3 { x: SCALE / 2, y: SCALE / 2, z: SCALE },
        Vec3 { x: 2 * SCALE, y: 0, z: -2 * SCALE },
        Vec3 { x: -4 * SCALE, y: 0, z: -2 * SCALE },
    );
    world.push(Primitive::Sphere(Sphere::new(
        Vec3 { x: 2 * SCALE, y: 0, z: -2 * SCALE },
        SCALE / 2,
        Material::Portal(pa),
    )));
    world.push(Primitive::Sphere(Sphere::new(
        Vec3 { x: -4 * SCALE, y: 0, z: -2 * SCALE },
        SCALE / 2,
        Material::Portal(pb),
    )));
    world.push(Primitive::Sphere(Sphere::new(
        Vec3 { x: 4 * SCALE, y: 0, z: -3 * SCALE },
        SCALE / 2,
        Material::BlackHoleLayer(BlackHoleLayer::new(157286, 64 * SCALE)),
    )));
    world.push(Primitive::Sphere(Sphere::new(
        Vec3 { x: 4 * SCALE, y: 0, z: -3 * SCALE },
        SCALE / 8,
        Material::Black(Black::new()),
    )));
    assert!(world.is_well_formed());
    let cam = pinhole_camera();
    let mut rng = Rng::new(31);
    let buf = cam.render_to_imgbuf(&world, &mut rng);
    assert_eq!(buf.len(), 3 * 8 * 4);
    let mut rng2 = Rng::new(31);
    assert_eq!(buf, cam.render_to_imgbuf(&world, &mut rng2));
}

#[test]
fn settings_validation_rejects_degenerate_cameras() {
    let image_settings = ImageSettings { image_width: 8, aspect_ratio: 2 * SCALE };
    let quality_settings = QualitySettings { samples_per_pixel: 1, max_depth: 1 };
    let good = CameraSettings {
        vfov: 90 * SCALE,
        focus_dist: SCALE,
        defocus_angle: 0,
        camera_center: Vec3 { x: 0, y: 0, z: 0 },
        camera_lookat: Vec3 { x: 0, y: 0, z: -SCALE },
        camera_vup: Vec3 { x: 0, y: SCALE, z: 0 },
    };
    assert!(settings_valid(image_settings, quality_settings, good));
    // Looking at the camera's own position.
    let mut bad = good;
    bad.camera_lookat = bad.camera_center;
    assert!(!settings_valid(image_settings, quality_settings, bad));
    // Up vector parallel to the view direction.
    let mut bad2 = good;
    bad2.camera_vup = Vec3 { x: 0, y: 0, z: SCALE };
    assert!(!settings_valid(image_settings, quality_settings, bad2));
    // Field of view out of range.
    let mut bad3 = good;
    bad3.vfov = 0;
    assert!(!settings_valid(image_settings, quality_settings, bad3));
    // No samples to average.
    let bad_quality = QualitySettings { samples_per_pixel: 0, max_depth: 1 };
    assert!(!settings_valid(image_settings, bad_quality, good));
}

#[test]
fn scene_validation_rejects_out_of_range_members() {
    let mut world = HittableList::new();
    // An albedo channel above one is not a valid fraction.
    world.push(Primitive::Sphere(Sphere::new(
        Vec3 { x: 0, y: 0, z: 0 },
        SCALE,
        Material::Lambertian(Lambertian::new(Vec3 { x: 2 * SCALE, y: 0, z: 0 })),
    )));
    assert!(!world.is_well_formed());
}

#[test]
fn hemisphere_samples_never_point_into_the_surface() {
    let normal = Vec3 { x: 0, y: SCALE, z: 0 };
    let mut rng = Rng::new(77);
    for _ in 0..128 {
        let v = icg_final_1::random_vec3_on_hemisphere(&mut rng, normal);
        // The raw (un-floored) dot product with the normal is nonnegative.
        let raw = (v.x as i128) * (normal.x as i128) + (v.y as i128) * (normal.y as i128)
            + (v.z as i128) * (normal.z as i128);
        assert!(raw >= 0);
    }
}

#[test]
fn render_text_output_is_deterministic_in_the_seed() {
    let cam = pinhole_camera();
    let world = two_sphere_world();
    let mut out1: Vec<u8> = Vec::new();
    let mut rng1 = Rng::new(2026);
    cam.render(&mut out1, &world, &mut rng1);
    let mut out2: Vec<u8> = Vec::new();
    let mut rng2 = Rng::new(2026);
    cam.render(&mut out2, &world, &mut rng2);
    assert_eq!(out1, out2);
}
