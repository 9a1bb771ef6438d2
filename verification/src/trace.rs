//! The recursive Whitted-style illumination integrator.
//!
//! A ray that meets nothing is background black. A hit starts from the
//! ambient term, adds each light's shadowed diffuse and specular
//! response, and, while the depth allowance lasts and the material
//! reflects, adds the recursively traced mirror reflection scaled by the
//! reflectivity. Shadow and reflection rays start a small step along the
//! surface normal so a surface cannot shadow its own hit point.

use vstd::prelude::*;

use crate::fixed::fxs;
use crate::fixed::tdiv;
use crate::fixed::Fx;
use crate::fixed::SCALE;
use crate::geom::local_color_spec;
use crate::geom::ray_spec;
use crate::geom::reflect;
use crate::geom::reflect_spec;
use crate::geom::Intersection;
use crate::geom::Plane;
use crate::geom::Ray;
use crate::geom::Sphere;
use crate::geom::SphereMaterial;
use crate::geom::Surface;
use crate::scene::camera_spec;
use crate::scene::get_ray_spec;
use crate::scene::scene_hit;
use crate::scene::Camera;
use crate::scene::PointLight;
use crate::scene::Scene;
use crate::vec3::norm_spec;
use crate::vec3::v_add_spec;
use crate::vec3::v_normalize_spec;
use crate::vec3::v_scale_spec;
use crate::vec3::v_sub_spec;
use crate::vec3::vec3i_spec;
use crate::vec3::Vec3;

verus! {

/// Raw step taken along the surface normal before casting a shadow or
/// reflection ray, so the surface cannot intersect its own hit point.
pub const ACNE_OFFSET_RAW: i64 = 16;

/// Background black, also the zero of color accumulation.
pub open spec fn vzero() -> Vec3 {
    Vec3 { x: fxs(0), y: fxs(0), z: fxs(0) }
}

/// Where a secondary ray starts: the hit point stepped a little along
/// the surface normal.
pub open spec fn offset_origin(hit: Intersection) -> Vec3 {
    v_add_spec(hit.pos, v_scale_spec(hit.normal, Fx { raw: ACNE_OFFSET_RAW }))
}

/// Whether something stands between a shadow ray's origin and a light
/// `ldist` raw units along it.
pub open spec fn occluded_spec(s: Scene, sray: Ray, ldist: int) -> bool {
    match scene_hit(s, sray) {
        Some(pr) => pr.1.dist.raw < ldist,
        None => false,
    }
}

/// One light's contribution at a hit: zero when the light is occluded,
/// else the material's local response scaled by the light's intensity.
pub open spec fn light_term_spec(
    s: Scene,
    view: Ray,
    hit: Intersection,
    m: SphereMaterial,
    l: PointLight,
) -> Vec3 {
    let base = offset_origin(hit);
    let sdir = v_sub_spec(l.pos, base);
    let sray = ray_spec(base, sdir);
    if occluded_spec(s, sray, norm_spec(sdir)) {
        vzero()
    } else {
        v_scale_spec(local_color_spec(m, sray, view, hit), l.intensity)
    }
}

/// The ambient term plus the contributions of the first `n` lights.
pub open spec fn lights_acc_spec(
    s: Scene,
    view: Ray,
    hit: Intersection,
    m: SphereMaterial,
    n: int,
) -> Vec3
    decreases n,
{
    if n <= 0 {
        v_scale_spec(m.base_color, s.ambient_coeff)
    } else {
        v_add_spec(
            lights_acc_spec(s, view, hit, m, n - 1),
            light_term_spec(s, view, hit, m, s.lights@[n - 1]),
        )
    }
}

/// The locally shaded color of a ray: background for a miss, else the
/// ambient term plus every light's shadowed contribution.
pub open spec fn shade_local_spec(s: Scene, r: Ray) -> Vec3 {
    match scene_hit(s, r) {
        None => vzero(),
        Some(pr) => lights_acc_spec(
            s,
            r,
            pr.1,
            s.objects@[pr.0].material_spec(),
            s.lights@.len() as int,
        ),
    }
}

/// The mirror ray leaving a hit: origin stepped along the normal, the
/// incoming direction reflected about the normal.
pub open spec fn reflected_ray_spec(r: Ray, hit: Intersection) -> Ray {
    ray_spec(offset_origin(hit), reflect_spec(r.dir, hit.normal))
}

/// The full integrator: the locally shaded color plus, while `depth` is
/// below `max_depth` and the hit material reflects, the reflected ray's
/// color scaled by the reflectivity.
pub open spec fn trace_spec(s: Scene, r: Ray, depth: u16, max_depth: u16) -> Vec3
    decreases max_depth - depth,
{
    match scene_hit(s, r) {
        None => vzero(),
        Some(pr) => {
            let m = s.objects@[pr.0].material_spec();
            let lit = lights_acc_spec(s, r, pr.1, m, s.lights@.len() as int);
            if depth >= max_depth {
                lit
            } else if m.reflectivity.raw > 0 {
                v_add_spec(
                    lit,
                    v_scale_spec(
                        trace_spec(s, reflected_ray_spec(r, pr.1), (depth + 1) as u16, max_depth),
                        m.reflectivity,
                    ),
                )
            } else {
                lit
            }
        },
    }
}

/// The mirror ray leaving a hit.
pub fn reflected_ray(ray: &Ray, hit: &Intersection) -> (r: Ray)
    ensures
        r == reflected_ray_spec(*ray, *hit),
{
    let pos = hit.pos.add(hit.normal.scale(Fx { raw: ACNE_OFFSET_RAW }));
    let dir = reflect(ray.dir, hit.normal);
    Ray::new(pos, dir)
}

/// Trace one ray to its color, unclamped linear light.
pub fn trace_ray(scene: &Scene, ray: &Ray, depth: u16, max_depth: u16) -> (r: Vec3)
    ensures
        r == trace_spec(*scene, *ray, depth, max_depth),
    decreases max_depth - depth,
{
    let mut color = Vec3 { x: Fx { raw: 0 }, y: Fx { raw: 0 }, z: Fx { raw: 0 } };
    if let Some((idx, hit)) = scene.intersect(ray) {
        let material = *scene.objects[idx].material();
        color = material.raw_color().scale(scene.ambient_coeff);
        let nl = scene.lights.len();
        let mut li: usize = 0;
        while li < nl
            invariant
                nl == scene.lights.len(),
                li <= nl,
                color == lights_acc_spec(*scene, *ray, hit, material, li as int),
            decreases nl - li,
        {
            let light = &scene.lights[li];
            let base = hit.pos.add(hit.normal.scale(Fx { raw: ACNE_OFFSET_RAW }));
            let sdir = light.pos.sub(base);
            let sray = Ray::new(base, sdir);
            let ldist = sdir.norm_sq().sqrt();
            let occ = match scene.intersect(&sray) {
                Some((_oi, oh)) => oh.dist.raw < ldist.raw,
                None => false,
            };
            let term = if occ {
                Vec3 { x: Fx { raw: 0 }, y: Fx { raw: 0 }, z: Fx { raw: 0 } }
            } else {
                material.color(&sray, ray, &hit).scale(light.intensity)
            };
            color = color.add(term);
            li += 1;
        }
        if depth >= max_depth {
            return color;
        }
        let refl = material.reflectivity();
        if refl.raw > 0 {
            let rray = reflected_ray(ray, &hit);
            let rcolor = trace_ray(scene, &rray, depth + 1, max_depth);
            color = color.add(rcolor.scale(refl));
        }
    }
    color
}

/// The color of one pixel: the camera ray through it, traced from
/// depth zero.
pub open spec fn pixel_spec(s: Scene, x: u32, y: u32, w: u32, h: u32, max_depth: u16) -> Vec3 {
    trace_spec(s, get_ray_spec(s.camera, x, y, w, h), 0, max_depth)
}

/// Render the whole grid: one unclamped color per pixel, rows from the
/// top, each row left to right.
pub fn render(scene: &Scene, w: u32, h: u32, max_depth: u16) -> (grid: Vec<Vec3>)
    requires
        1 <= w <= 4096,
        1 <= h <= 4096,
    ensures
        grid.len() == (w as int) * (h as int),
        forall|i: int|
            0 <= i < grid.len() ==> #[trigger] grid@[i] == pixel_spec(
                *scene,
                ((i % (w as int)) as u32),
                ((i / (w as int)) as u32),
                w,
                h,
                max_depth,
            ),
{
    let mut grid: Vec<Vec3> = Vec::new();
    let mut y: u32 = 0;
    while y < h
        invariant
            1 <= w <= 4096,
            1 <= h <= 4096,
            y <= h,
            grid.len() == (w as int) * (y as int),
            forall|i: int|
                0 <= i < grid.len() ==> #[trigger] grid@[i] == pixel_spec(
                    *scene,
                    ((i % (w as int)) as u32),
                    ((i / (w as int)) as u32),
                    w,
                    h,
                    max_depth,
                ),
        decreases h - y,
    {
        let mut x: u32 = 0;
        while x < w
            invariant
                1 <= w <= 4096,
                1 <= h <= 4096,
                y < h,
                x <= w,
                grid.len() == (w as int) * (y as int) + (x as int),
                forall|i: int|
                    0 <= i < grid.len() ==> #[trigger] grid@[i] == pixel_spec(
                        *scene,
                        ((i % (w as int)) as u32),
                        ((i / (w as int)) as u32),
                        w,
                        h,
                        max_depth,
                    ),
            decreases w - x,
        {
            let ray = scene.camera.get_ray(x, y, w, h);
            let c = trace_ray(scene, &ray, 0, max_depth);
            proof {
                assert((w as int) * (y as int) == (y as int) * (w as int)) by (nonlinear_arith);
                vstd::arithmetic::div_mod::lemma_fundamental_div_mod_converse(
                    grid.len() as int,
                    w as int,
                    y as int,
                    x as int,
                );
                assert((w as int) * (y as int) + (x as int) < (w as int) * (h as int))
                    by (nonlinear_arith)
                    requires
                        0 <= x < w,
                        0 <= y < h,
                ;
            }
            grid.push(c);
            x += 1;
        }
        proof {
            assert((w as int) * ((y as int) + 1) == (w as int) * (y as int) + (w as int))
                by (nonlinear_arith);
        }
        y += 1;
    }
    proof {
        assert((w as int) * (h as int) == grid.len());
    }
    grid
}

/// Clamp a raw channel into zero through 255 ones and quantize it to a
/// whole number of ones.
pub open spec fn channel_spec(c: Fx) -> int {
    if c.raw < 0 {
        0
    } else if c.raw > 255 * (SCALE as int) {
        255
    } else {
        tdiv(c.raw as int, SCALE as int)
    }
}

/// Clamp a color channel into the byte range, as the image writer needs.
pub fn to_channel(c: Fx) -> (r: u8)
    ensures
        r == channel_spec(c),
{
    if c.raw < 0 {
        0
    } else if c.raw > 255 * SCALE {
        255
    } else {
        ((c.raw as u64) / 65536) as u8
    }
}

/// The fixed demonstration scene: a mirror floor plane under a matte
/// blue sphere, one green point light, a dim white ambient term, and a
/// camera above and behind the sphere looking at it.
pub fn setup_scene() -> (s: Scene)
    ensures
        s.objects@.len() == 2,
        (s.objects@[0] == Surface::Sphere(Sphere {
            center: vec3i_spec(0, 1, 0),
            radius: Fx { raw: SCALE },
            material: SphereMaterial {
                base_color: vec3i_spec(0, 0, 255),
                diffuse: Fx { raw: 19661 },
                specular: Fx { raw: 13107 },
                shininess: 20,
                reflectivity: Fx { raw: 0 },
            },
        })),
        (s.objects@[1] == Surface::Plane(Plane {
            point: vec3i_spec(0, 0, 0),
            normal: v_normalize_spec(vec3i_spec(0, 1, 0)),
            material: SphereMaterial {
                base_color: vec3i_spec(100, 100, 100),
                diffuse: Fx { raw: 45875 },
                specular: Fx { raw: 0 },
                shininess: 0,
                reflectivity: Fx { raw: SCALE },
            },
        })),
        s.lights@.len() == 1,
        (s.lights@[0] == PointLight {
            pos: vec3i_spec(3, 3, -4),
            color: vec3i_spec(0, 255, 0),
            intensity: Fx { raw: 131072 },
        }),
        s.ambient_coeff.raw == 6554,
        s.ambient_color == vec3i_spec(255, 255, 255),
        (s.camera == camera_spec(
            vec3i_spec(0, 2, -5),
            v_sub_spec(vec3i_spec(0, 1, 0), vec3i_spec(0, 2, -5)),
            vec3i_spec(0, 1, 0),
        )),
{
    let camera_pos = Vec3::from_ints(0, 2, -5);
    let lookat = Vec3::from_ints(0, 1, 0);
    let up = Vec3::from_ints(0, 1, 0);
    let camera = Camera::from_lookat(camera_pos, lookat, up);

    let plane_material = SphereMaterial::new(
        Vec3::from_ints(100, 100, 100),
        Fx { raw: 45875 },
        Fx { raw: 0 },
        0,
        Fx { raw: SCALE },
    );
    let plane = Plane::new(
        Vec3::from_ints(0, 0, 0),
        Vec3::from_ints(0, 1, 0),
        plane_material,
    );

    let sphere_material = SphereMaterial::new(
        Vec3::from_ints(0, 0, 255),
        Fx { raw: 19661 },
        Fx { raw: 13107 },
        20,
        Fx { raw: 0 },
    );
    let sphere = Sphere::new(
        Vec3::from_ints(0, 1, 0),
        Fx { raw: SCALE },
        sphere_material,
    );

    let light = PointLight::new(
        Vec3::from_ints(3, 3, -4),
        Vec3::from_ints(0, 255, 0),
        Fx { raw: 2 * SCALE },
    );

    let mut objects: Vec<Surface> = Vec::new();
    objects.push(Surface::Sphere(sphere));
    objects.push(Surface::Plane(plane));
    let mut lights: Vec<PointLight> = Vec::new();
    lights.push(light);

    Scene::new(objects, lights, Fx { raw: 6554 }, Vec3::from_ints(255, 255, 255), camera)
}

/// An occluded light contributes nothing to the shaded point.
pub proof fn lemma_occluded_light_dark(
    s: Scene,
    view: Ray,
    hit: Intersection,
    m: SphereMaterial,
    l: PointLight,
)
    requires
        ({
            let base = offset_origin(hit);
            let sdir = v_sub_spec(l.pos, base);
            occluded_spec(s, ray_spec(base, sdir), norm_spec(sdir))
        }),
    ensures
        light_term_spec(s, view, hit, m, l) == vzero(),
{
}

/// An unoccluded light contributes exactly the material's local response
/// scaled by the light's intensity.
pub proof fn lemma_unoccluded_light_contributes(
    s: Scene,
    view: Ray,
    hit: Intersection,
    m: SphereMaterial,
    l: PointLight,
)
    requires
        ({
            let base = offset_origin(hit);
            let sdir = v_sub_spec(l.pos, base);
            !occluded_spec(s, ray_spec(base, sdir), norm_spec(sdir))
        }),
    ensures
        ({
            let base = offset_origin(hit);
            let sdir = v_sub_spec(l.pos, base);
            light_term_spec(s, view, hit, m, l) == v_scale_spec(
                local_color_spec(m, ray_spec(base, sdir), view, hit),
                l.intensity,
            )
        }),
{
}

/// A hit on a material with no reflectivity is shaded locally only: the
/// integrator adds no reflected term, whatever the depth allowance.
pub proof fn lemma_matte_no_reflection(s: Scene, r: Ray, depth: u16, max_depth: u16)
    requires
        (match scene_hit(s, r) {
            Some(pr) => s.objects@[pr.0].material_spec().reflectivity.raw <= 0,
            None => true,
        }),
    ensures
        trace_spec(s, r, depth, max_depth) == shade_local_spec(s, r),
{
}

/// With the depth allowance exhausted the integrator returns the locally
/// shaded color, whatever the material's reflectivity.
pub proof fn lemma_depth_cap(s: Scene, r: Ray, depth: u16, max_depth: u16)
    requires
        depth >= max_depth,
    ensures
        trace_spec(s, r, depth, max_depth) == shade_local_spec(s, r),
{
}

} // verus!
