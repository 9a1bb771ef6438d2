//! Behavioral tests over the fixed-point ray tracer.

use raytrace::fixed::Fx;
use raytrace::fixed::MAX_RAW;
use raytrace::fixed::SCALE;
use raytrace::geom::Intersection;
use raytrace::geom::Plane;
use raytrace::geom::Ray;
use raytrace::geom::Sphere;
use raytrace::geom::SphereMaterial;
use raytrace::geom::Surface;
use raytrace::scene::Camera;
use raytrace::scene::PointLight;
use raytrace::scene::Scene;
use raytrace::trace::render;
use raytrace::trace::setup_scene;
use raytrace::trace::to_channel;
use raytrace::trace::trace_ray;
use raytrace::vec3::Vec3;

fn fx(raw: i64) -> Fx {
    Fx { raw }
}

fn v3(x: i64, y: i64, z: i64) -> Vec3 {
    Vec3 { x: fx(x), y: fx(y), z: fx(z) }
}

fn matte_gray() -> SphereMaterial {
    SphereMaterial::new(Vec3::from_ints(64, 64, 64), fx(32768), fx(0), 0, fx(0))
}

#[test]
fn fx_add_saturates() {
    assert_eq!(fx(MAX_RAW).add(fx(1)).raw, MAX_RAW);
    assert_eq!(fx(-MAX_RAW).sub(fx(2)).raw, -MAX_RAW);
    assert_eq!(fx(i64::MIN).neg().raw, MAX_RAW);
}

#[test]
fn fx_mul_rounds_toward_zero() {
    assert_eq!(fx(98304).mul(fx(98304)).raw, 147456);
    assert_eq!(fx(-98304).mul(fx(98304)).raw, -147456);
    assert_eq!(fx(3).mul(fx(3)).raw, 0);
    assert_eq!(fx(-3).mul(fx(3)).raw, 0);
}

#[test]
fn fx_div_rounds_toward_zero() {
    assert_eq!(fx(SCALE).div(fx(3 * SCALE)).raw, 21845);
    assert_eq!(fx(-SCALE).div(fx(3 * SCALE)).raw, -21845);
    assert_eq!(fx(6 * SCALE).div(fx(2 * SCALE)).raw, 3 * SCALE);
}

#[test]
fn fx_sqrt_values() {
    assert_eq!(fx(4 * SCALE).sqrt().raw, 2 * SCALE);
    assert_eq!(fx(2 * SCALE).sqrt().raw, 92681);
    assert_eq!(fx(0).sqrt().raw, 0);
}

#[test]
fn fx_powi_values() {
    assert_eq!(fx(32768).powi(2).raw, 16384);
    assert_eq!(fx(12345).powi(0).raw, SCALE);
}

#[test]
fn fx_channel_clamps() {
    assert_eq!(to_channel(fx(-5)), 0);
    assert_eq!(to_channel(fx(300 * SCALE)), 255);
    assert_eq!(to_channel(fx(128 * SCALE + 32768)), 128);
}

#[test]
fn normalize_axis_is_exact() {
    assert_eq!(Vec3::from_ints(0, 0, 4).normalize(), v3(0, 0, SCALE));
    assert_eq!(Vec3::from_ints(3, 4, 0).normalize(), v3(39321, 52428, 0));
}

#[test]
fn ray_direction_is_unit_after_construction() {
    let r = Ray::new(Vec3::from_ints(1, 2, 3), Vec3::from_ints(3, 4, 0));
    assert_eq!(r.dir, v3(39321, 52428, 0));
    // squared norm within a few raw units of one
    let ns = r.dir.norm_sq().raw;
    assert!((ns - SCALE).abs() <= 4);
    let axis = Ray::new(Vec3::from_ints(0, 0, 0), Vec3::from_ints(0, 0, 9));
    assert_eq!(axis.dir.norm_sq().raw, SCALE);
}

#[test]
fn camera_basis_axis_aligned() {
    let cam = Camera::new(
        Vec3::from_ints(0, 0, 0),
        Vec3::from_ints(0, 0, 1),
        Vec3::from_ints(0, 1, 0),
    );
    assert_eq!(cam.right, v3(SCALE, 0, 0));
    assert_eq!(cam.up, v3(0, -SCALE, 0));
    assert_eq!(cam.dir, v3(0, 0, SCALE));
}

#[test]
fn camera_basis_orthonormal_for_skew_hint() {
    let cam = Camera::new(
        Vec3::from_ints(0, 0, 0),
        Vec3::from_ints(0, 0, 1),
        Vec3::from_ints(1, 1, 0),
    );
    assert_eq!(cam.right, v3(46341, -46341, 0));
    assert_eq!(cam.up, v3(-46341, -46341, 0));
    assert_eq!(cam.dir, v3(0, 0, SCALE));
    assert_eq!(cam.right.dot(cam.up).raw, 0);
    assert_eq!(cam.right.dot(cam.dir).raw, 0);
    assert_eq!(cam.up.dot(cam.dir).raw, 0);
    assert_eq!(cam.right.norm_sq().raw, SCALE);
    assert_eq!(cam.up.norm_sq().raw, SCALE);
    assert_eq!(cam.dir.norm_sq().raw, SCALE);
}

#[test]
fn camera_from_lookat_matches_new() {
    let pos = Vec3::from_ints(0, 2, -5);
    let lookat = Vec3::from_ints(0, 1, 0);
    let up = Vec3::from_ints(0, 1, 0);
    assert_eq!(Camera::from_lookat(pos, lookat, up), Camera::new(pos, lookat.sub(pos), up));
}

#[test]
fn camera_center_pixel_looks_forward() {
    let cam = Camera::new(
        Vec3::from_ints(0, 0, 0),
        Vec3::from_ints(0, 0, 1),
        Vec3::from_ints(0, 1, 0),
    );
    let r = cam.get_ray(1, 1, 2, 2);
    assert_eq!(r.origin, v3(0, 0, 0));
    assert_eq!(r.dir, v3(0, 0, SCALE));
}

#[test]
fn sphere_miss_when_pointing_away() {
    let s = Sphere::new(Vec3::from_ints(0, 0, 0), fx(SCALE), matte_gray());
    let r = Ray::new(Vec3::from_ints(0, 0, -4), Vec3::from_ints(0, 0, -1));
    assert!(s.intersect(&r).is_none());
}

#[test]
fn sphere_through_center_scenario() {
    let s = Sphere::new(Vec3::from_ints(0, 0, 0), fx(SCALE), matte_gray());
    let r = Ray::new(Vec3::from_ints(0, 0, -4), Vec3::from_ints(0, 0, 1));
    let hit = s.intersect(&r).unwrap();
    assert_eq!(hit.dist.raw, 3 * SCALE);
    assert_eq!(hit.pos, v3(0, 0, -SCALE));
    assert_eq!(hit.normal, v3(0, 0, -SCALE));
}

#[test]
fn sphere_head_on_distance_is_gap() {
    // any whole-number head-on approach: distance 7, radius 2, off-center
    let s = Sphere::new(Vec3::from_ints(5, -3, 2), fx(2 * SCALE), matte_gray());
    let r = Ray::new(Vec3::from_ints(5, -3, -5), Vec3::from_ints(0, 0, 1));
    let hit = s.intersect(&r).unwrap();
    assert_eq!(hit.dist.raw, 5 * SCALE);
    assert_eq!(hit.pos, v3(5 * SCALE, -3 * SCALE, 0));
    assert_eq!(hit.normal, v3(0, 0, -SCALE));
}

#[test]
fn sphere_origin_inside_returns_exit() {
    let s = Sphere::new(Vec3::from_ints(0, 0, 0), fx(2 * SCALE), matte_gray());
    let r = Ray::new(Vec3::from_ints(0, 0, 0), Vec3::from_ints(0, 0, 1));
    let hit = s.intersect(&r).unwrap();
    assert!(hit.dist.raw > 0);
    assert_eq!(hit.dist.raw, 2 * SCALE);
    assert_eq!(hit.pos, v3(0, 0, 2 * SCALE));
    assert_eq!(hit.normal, v3(0, 0, SCALE));
}

#[test]
fn plane_parallel_ray_misses() {
    let p = Plane::new(Vec3::from_ints(0, 0, 0), Vec3::from_ints(0, 1, 0), matte_gray());
    let r = Ray::new(Vec3::from_ints(0, 1, 0), Vec3::from_ints(1, 0, 0));
    assert!(p.intersect(&r).is_none());
}

#[test]
fn plane_normal_faces_the_ray() {
    let p = Plane::new(Vec3::from_ints(0, 0, 0), Vec3::from_ints(0, 1, 0), matte_gray());
    let above = Ray::new(Vec3::from_ints(0, 2, 0), Vec3::from_ints(0, -1, 0));
    let ha = p.intersect(&above).unwrap();
    assert_eq!(ha.dist.raw, 2 * SCALE);
    assert_eq!(ha.normal, v3(0, SCALE, 0));
    let below = Ray::new(Vec3::from_ints(0, -2, 0), Vec3::from_ints(0, 1, 0));
    let hb = p.intersect(&below).unwrap();
    assert_eq!(hb.dist.raw, 2 * SCALE);
    assert_eq!(hb.normal, v3(0, -SCALE, 0));
}

fn two_sphere_scene(first: Sphere, second: Sphere) -> Scene {
    let cam = Camera::new(
        Vec3::from_ints(0, 0, 0),
        Vec3::from_ints(0, 0, 1),
        Vec3::from_ints(0, 1, 0),
    );
    Scene::new(
        vec![Surface::Sphere(first), Surface::Sphere(second)],
        vec![],
        fx(0),
        Vec3::from_ints(0, 0, 0),
        cam,
    )
}

#[test]
fn scene_intersect_returns_nearest() {
    let far = Sphere::new(Vec3::from_ints(0, 0, 10), fx(SCALE), matte_gray());
    let near = Sphere::new(Vec3::from_ints(0, 0, 5), fx(SCALE), matte_gray());
    let scene = two_sphere_scene(far, near);
    let r = Ray::new(Vec3::from_ints(0, 0, 0), Vec3::from_ints(0, 0, 1));
    let (idx, hit) = scene.intersect(&r).unwrap();
    assert_eq!(idx, 1);
    assert_eq!(hit.dist.raw, 4 * SCALE);
}

#[test]
fn scene_intersect_tie_goes_to_first_listed() {
    let a = Sphere::new(Vec3::from_ints(0, 0, 5), fx(SCALE), matte_gray());
    let b = Sphere::new(Vec3::from_ints(0, 0, 5), fx(SCALE), matte_gray());
    let scene = two_sphere_scene(a, b);
    let r = Ray::new(Vec3::from_ints(0, 0, 0), Vec3::from_ints(0, 0, 1));
    let (idx, _) = scene.intersect(&r).unwrap();
    assert_eq!(idx, 0);
}

fn lit_floor_scene(with_blocker: bool) -> Scene {
    let cam = Camera::new(
        Vec3::from_ints(0, 2, 0),
        Vec3::from_ints(0, -1, 0),
        Vec3::from_ints(0, 0, 1),
    );
    let floor = Plane::new(Vec3::from_ints(0, 0, 0), Vec3::from_ints(0, 1, 0), matte_gray());
    let mut objects = vec![Surface::Plane(floor)];
    if with_blocker {
        let blocker = Sphere::new(v3(0, 98304, 0), fx(32768), matte_gray());
        objects.push(Surface::Sphere(blocker));
    }
    let light = PointLight::new(
        Vec3::from_ints(0, 3, 0),
        Vec3::from_ints(255, 255, 255),
        fx(2 * SCALE),
    );
    Scene::new(objects, vec![light], fx(32768), Vec3::from_ints(0, 0, 0), cam)
}

#[test]
fn occluded_light_leaves_ambient_only() {
    let scene = lit_floor_scene(true);
    let r = Ray::new(Vec3::from_ints(0, 2, 0), Vec3::from_ints(0, -1, 0));
    let c = trace_ray(&scene, &r, 0, 1);
    // exactly the ambient term: base 64 times coefficient one half
    assert_eq!(c, v3(32 * SCALE, 32 * SCALE, 32 * SCALE));
}

#[test]
fn unoccluded_light_adds_scaled_local_color() {
    let scene = lit_floor_scene(false);
    let r = Ray::new(Vec3::from_ints(0, 2, 0), Vec3::from_ints(0, -1, 0));
    let c = trace_ray(&scene, &r, 0, 1);
    assert_eq!(c, v3(96 * SCALE, 96 * SCALE, 96 * SCALE));
    // and the value is the ambient term plus the material's local
    // response to the shadow ray, scaled by the light's intensity
    let hit = match &scene.objects[0] {
        Surface::Plane(p) => p.intersect(&r).unwrap(),
        Surface::Sphere(s) => s.intersect(&r).unwrap(),
    };
    let mat = matte_gray();
    let base = hit.pos.add(hit.normal.scale(fx(16)));
    let sray = Ray::new(base, scene.lights[0].pos.sub(base));
    let expected = mat
        .raw_color()
        .scale(scene.ambient_coeff)
        .add(mat.color(&sray, &r, &hit).scale(scene.lights[0].intensity));
    assert_eq!(c, expected);
}

#[test]
fn matte_material_ignores_depth_allowance() {
    let scene = lit_floor_scene(false);
    let r = Ray::new(Vec3::from_ints(0, 2, 0), Vec3::from_ints(0, -1, 0));
    assert_eq!(trace_ray(&scene, &r, 0, 0), trace_ray(&scene, &r, 0, 5));
}

#[test]
fn exhausted_depth_shades_locally_only() {
    let scene = setup_scene();
    // a ray onto the mirror floor: with no allowance left the reflected
    // term is absent whatever the reflectivity
    let r = Ray::new(Vec3::from_ints(0, 2, -5), Vec3::from_ints(0, -2, 4));
    assert_eq!(trace_ray(&scene, &r, 0, 0), trace_ray(&scene, &r, 1, 1));
    assert_ne!(trace_ray(&scene, &r, 0, 0), trace_ray(&scene, &r, 0, 1));
}

#[test]
fn missed_ray_is_background_black() {
    let scene = setup_scene();
    let r = Ray::new(Vec3::from_ints(0, 2, -5), Vec3::from_ints(0, 1, 0));
    assert_eq!(trace_ray(&scene, &r, 0, 1), v3(0, 0, 0));
}

#[test]
fn render_demonstration_scene() {
    let scene = setup_scene();
    let grid = render(&scene, 64, 48, 1);
    assert_eq!(grid.len(), 64 * 48);
    // the pixel over the sphere's projected center is non-background blue
    let center = grid[24 * 64 + 32];
    assert_eq!(center.x.raw, 0);
    assert_eq!(center.y.raw, 0);
    assert!(center.z.raw > 0);
    // a pixel over the horizon misses everything: background black
    let top = grid[32];
    assert_eq!(top, v3(0, 0, 0));
    // a pixel under the horizon sees the lit mirror floor
    let bottom = grid[47 * 64 + 32];
    assert!(bottom.x.raw > 0 && bottom.y.raw > 0 && bottom.z.raw > 0);
    assert_eq!(bottom.x.raw, bottom.y.raw);
    assert!(bottom.z.raw > bottom.x.raw);
}

#[test]
fn render_center_pixel_exact_value() {
    let scene = setup_scene();
    let grid = render(&scene, 64, 48, 1);
    assert_eq!(grid[24 * 64 + 32], v3(0, 0, 8860230));
    assert_eq!(grid[47 * 64 + 32], v3(6695400, 6695400, 14802360));
}

#[test]
fn setup_scene_shape() {
    let scene = setup_scene();
    assert_eq!(scene.objects.len(), 2);
    assert_eq!(scene.lights.len(), 1);
    match &scene.objects[0] {
        Surface::Sphere(sp) => {
            assert_eq!(sp.material.base_color, Vec3::from_ints(0, 0, 255));
            assert_eq!(sp.material.diffuse.raw, 19661);
            assert_eq!(sp.material.specular.raw, 13107);
            assert_eq!(sp.material.shininess, 20);
            assert_eq!(sp.material.reflectivity.raw, 0);
        }
        Surface::Plane(_) => panic!("first object should be the sphere"),
    }
    match &scene.objects[1] {
        Surface::Plane(pl) => {
            assert_eq!(pl.material.base_color, Vec3::from_ints(100, 100, 100));
            assert_eq!(pl.material.diffuse.raw, 45875);
            assert_eq!(pl.material.specular.raw, 0);
            assert_eq!(pl.material.shininess, 0);
            assert_eq!(pl.material.reflectivity.raw, SCALE);
        }
        Surface::Sphere(_) => panic!("second object should be the plane"),
    }
}

#[test]
fn intersection_new_packages_fields() {
    let hit = Intersection::new(v3(1, 2, 3), v3(0, SCALE, 0), fx(7));
    assert_eq!(hit.pos, v3(1, 2, 3));
    assert_eq!(hit.normal, v3(0, SCALE, 0));
    assert_eq!(hit.dist.raw, 7);
}
