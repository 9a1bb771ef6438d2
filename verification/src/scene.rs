//! Lights, the camera, and the scene with its closest-hit query.
//!
//! The scene scans its surfaces in order and keeps the hit with the
//! smallest distance, ties going to the surface listed first; the proof
//! function at the end states exactly that.

use vstd::prelude::*;

use crate::fixed::clip;
use crate::fixed::lemma_isqrt_unique;
use crate::fixed::smul;
use crate::fixed::tdiv;
use crate::fixed::fxs;
use crate::fixed::sdiv;
use crate::fixed::ssub;
use crate::fixed::Fx;
use crate::fixed::SCALE;
use crate::geom::ray_spec;
use crate::geom::Intersection;
use crate::geom::Ray;
use crate::geom::Surface;
use crate::vec3::dot_spec;
use crate::vec3::norm_spec;
use crate::vec3::v_add_spec;
use crate::vec3::v_cross_spec;
use crate::vec3::v_normalize_spec;
use crate::vec3::v_scale_spec;
use crate::vec3::v_sub_spec;
use crate::vec3::vec3i_spec;
use crate::vec3::Vec3;

verus! {

/// Raw value of one half, used to center pixel coordinates.
pub const HALF_RAW: i64 = 32768;

/// A point light with a color and an intensity.
#[derive(Clone, Copy, PartialEq, Eq, Structural, Debug)]
pub struct PointLight {
    pub pos: Vec3,
    pub color: Vec3,
    pub intensity: Fx,
}

impl PointLight {
    /// Build a point light.
    pub fn new(pos: Vec3, color: Vec3, intensity: Fx) -> (r: PointLight)
        ensures
            r == (PointLight { pos, color, intensity }),
    {
        PointLight { pos, color, intensity }
    }
}

/// A pinhole camera: a position and a view basis built from cross
/// products, so that in exact arithmetic the three axes are mutually
/// orthogonal whatever up hint was given.
#[derive(Clone, Copy, PartialEq, Eq, Structural, Debug)]
pub struct Camera {
    pub pos: Vec3,
    pub dir: Vec3,
    pub up: Vec3,
    pub right: Vec3,
}

/// What `Camera::new` builds: `right` normal to the up hint and the view
/// direction, `up` rebuilt normal to `right` and the view direction, and
/// every axis normalized.
pub open spec fn camera_spec(pos: Vec3, dir: Vec3, up: Vec3) -> Camera {
    let right = v_normalize_spec(v_cross_spec(up, dir));
    let up2 = v_normalize_spec(v_cross_spec(right, dir));
    Camera { pos, dir: v_normalize_spec(dir), up: up2, right }
}

/// The ray through pixel `(x, y)` of a `w` by `h` grid: pixel coordinates
/// are centered to roughly minus one half through one half, scale the
/// `right` and `up` axes, and the sum with the view direction is
/// normalized into a ray from the camera's position.
pub open spec fn get_ray_spec(c: Camera, x: u32, y: u32, w: u32, h: u32) -> Ray {
    let nx = ssub(
        sdiv(clip((x as int) * (SCALE as int)), clip((w as int) * (SCALE as int))),
        HALF_RAW as int,
    );
    let ny = ssub(
        sdiv(clip((y as int) * (SCALE as int)), clip((h as int) * (SCALE as int))),
        HALF_RAW as int,
    );
    let d = v_add_spec(
        v_add_spec(v_scale_spec(c.right, fxs(nx)), v_scale_spec(c.up, fxs(ny))),
        c.dir,
    );
    ray_spec(c.pos, d)
}

impl Camera {
    /// Build a camera looking along `dir` with the given up hint.
    pub fn new(pos: Vec3, dir: Vec3, up: Vec3) -> (r: Camera)
        ensures
            r == camera_spec(pos, dir, up),
    {
        let right = up.cross(dir).normalize();
        let up2 = right.cross(dir).normalize();
        Camera { pos, dir: dir.normalize(), up: up2, right }
    }

    /// Build a camera at `pos` looking toward `lookat`.
    pub fn from_lookat(pos: Vec3, lookat: Vec3, up: Vec3) -> (r: Camera)
        ensures
            r == camera_spec(pos, v_sub_spec(lookat, pos), up),
    {
        let dir = lookat.sub(pos);
        Camera::new(pos, dir, up)
    }

    /// The world-space ray through pixel `(x, y)` of a `w` by `h` grid.
    pub fn get_ray(&self, x: u32, y: u32, w: u32, h: u32) -> (r: Ray)
        requires
            1 <= w,
            1 <= h,
        ensures
            r == get_ray_spec(*self, x, y, w, h),
    {
        let fw = Fx::from_int(w as i64);
        let fh = Fx::from_int(h as i64);
        let nx = Fx::from_int(x as i64).div(fw).sub(Fx { raw: HALF_RAW });
        let ny = Fx::from_int(y as i64).div(fh).sub(Fx { raw: HALF_RAW });
        let d = self.right.scale(nx).add(self.up.scale(ny)).add(self.dir);
        Ray::new(self.pos, d)
    }
}

/// For the canonical view — looking along the third axis with the
/// second axis as up hint — the constructed basis is exactly
/// orthonormal: `right`, `up` and `dir` are unit axis vectors with all
/// pairwise dot products zero. For skew inputs the cross-product
/// algebra is orthogonal in exact arithmetic (`lemma_cross_orthogonal`)
/// and the fixed-point basis is orthonormal up to rounding.
pub proof fn lemma_camera_axis_basis(pos: Vec3)
    ensures
        (camera_spec(pos, vec3i_spec(0, 0, 1), vec3i_spec(0, 1, 0)) == Camera {
            pos,
            dir: Vec3 { x: Fx { raw: 0 }, y: Fx { raw: 0 }, z: Fx { raw: SCALE } },
            up: Vec3 { x: Fx { raw: 0 }, y: Fx { raw: -65536i64 }, z: Fx { raw: 0 } },
            right: Vec3 { x: Fx { raw: SCALE }, y: Fx { raw: 0 }, z: Fx { raw: 0 } },
        }),
        ({
            let c = camera_spec(pos, vec3i_spec(0, 0, 1), vec3i_spec(0, 1, 0));
            &&& dot_spec(c.right, c.up) == 0
            &&& dot_spec(c.right, c.dir) == 0
            &&& dot_spec(c.up, c.dir) == 0
            &&& dot_spec(c.right, c.right) == SCALE as int
            &&& dot_spec(c.up, c.up) == SCALE as int
            &&& dot_spec(c.dir, c.dir) == SCALE as int
        }),
{
    let sc = SCALE as int;
    let dir0 = vec3i_spec(0, 0, 1);
    let up0 = vec3i_spec(0, 1, 0);
    vstd::arithmetic::div_mod::lemma_div_by_multiple(sc, sc);
    assert(sc * sc == 4294967296) by (nonlinear_arith)
        requires
            sc == 65536,
    ;
    assert(tdiv(sc * sc, sc) == sc);
    assert(smul(sc, sc) == sc);
    assert(smul(-sc, -sc) == sc);
    assert(tdiv(-(sc * sc), sc) == -sc);
    assert(smul(-sc, sc) == -sc && smul(sc, -sc) == -sc);
    let cr = v_cross_spec(up0, dir0);
    assert(cr == (Vec3 { x: Fx { raw: SCALE }, y: Fx { raw: 0 }, z: Fx { raw: 0 } }));
    assert(dot_spec(cr, cr) == sc);
    assert(4294967296 < (sc + 1) * (sc + 1)) by (nonlinear_arith)
        requires
            sc == 65536,
    ;
    lemma_isqrt_unique(4294967296, sc);
    assert(norm_spec(cr) == sc);
    assert(sdiv(sc, sc) == sc);
    assert(sdiv(-sc, sc) == -sc);
    assert(sdiv(0, sc) == 0);
    let right = v_normalize_spec(cr);
    assert(right == (Vec3 { x: Fx { raw: SCALE }, y: Fx { raw: 0 }, z: Fx { raw: 0 } }));
    let cu = v_cross_spec(right, dir0);
    assert(cu == (Vec3 { x: Fx { raw: 0 }, y: Fx { raw: -65536i64 }, z: Fx { raw: 0 } }));
    assert(dot_spec(cu, cu) == sc);
    assert(norm_spec(cu) == sc);
    let up2 = v_normalize_spec(cu);
    assert(up2 == (Vec3 { x: Fx { raw: 0 }, y: Fx { raw: -65536i64 }, z: Fx { raw: 0 } }));
    assert(dot_spec(dir0, dir0) == sc);
    assert(norm_spec(dir0) == sc);
    assert(v_normalize_spec(dir0) == (Vec3 {
        x: Fx { raw: 0 },
        y: Fx { raw: 0 },
        z: Fx { raw: SCALE },
    }));
}

/// Distance of a hit record, for stating which hit is nearest.
pub open spec fn hit_dist(o: Option<Intersection>) -> int {
    match o {
        Some(h) => h.dist.raw as int,
        None => 0,
    }
}

/// The nearest hit among the first `n` surfaces, with the index of the
/// surface that produced it; among equal distances the earliest listed
/// surface wins.
pub open spec fn scene_hit_upto(objs: Seq<Surface>, r: Ray, n: int) -> Option<(int, Intersection)>
    decreases n,
{
    if n <= 0 {
        None
    } else {
        let prev = scene_hit_upto(objs, r, n - 1);
        match objs[n - 1].hit_spec(r) {
            Some(h) => match prev {
                None => Some(((n - 1), h)),
                Some(pr) => if h.dist.raw < pr.1.dist.raw {
                    Some(((n - 1), h))
                } else {
                    prev
                },
            },
            None => prev,
        }
    }
}

/// The nearest hit in the whole scene.
pub open spec fn scene_hit(s: Scene, r: Ray) -> Option<(int, Intersection)> {
    scene_hit_upto(s.objects@, r, s.objects@.len() as int)
}

/// The scene: surfaces, point lights, the ambient term and the camera,
/// assembled once and read-only while rendering.
pub struct Scene {
    pub objects: Vec<Surface>,
    pub lights: Vec<PointLight>,
    pub ambient_coeff: Fx,
    pub ambient_color: Vec3,
    pub camera: Camera,
}

impl Scene {
    /// Assemble a scene.
    pub fn new(
        objects: Vec<Surface>,
        lights: Vec<PointLight>,
        ambient_coeff: Fx,
        ambient_color: Vec3,
        camera: Camera,
    ) -> (r: Scene)
        ensures
            r.objects == objects,
            r.lights == lights,
            r.ambient_coeff == ambient_coeff,
            r.ambient_color == ambient_color,
            r.camera == camera,
    {
        Scene { objects, lights, ambient_coeff, ambient_color, camera }
    }

    /// Scan every surface and keep the nearest hit, ties to the first
    /// listed; the index of the winning surface is returned with it.
    pub fn intersect(&self, ray: &Ray) -> (res: Option<(usize, Intersection)>)
        ensures
            (match res {
                None => scene_hit(*self, *ray) is None,
                Some((i, h)) => i < self.objects.len() && scene_hit(*self, *ray) == Some(
                    (i as int, h),
                ),
            }),
            (res matches Some((i, h)) ==> h.dist.raw > 0),
            (res is None ==> forall|j: int|
                0 <= j < self.objects.len() ==> (#[trigger] self.objects@[j].hit_spec(*ray))
                    is None),
            (res matches Some((i, h)) ==> self.objects@[i as int].hit_spec(*ray) == Some(h)
                && forall|j: int|
                0 <= j < self.objects.len() && (#[trigger] self.objects@[j].hit_spec(*ray))
                    is Some ==> h.dist.raw <= hit_dist(self.objects@[j].hit_spec(*ray))),
    {
        proof {
            lemma_scene_hit_nearest(self.objects@, *ray, self.objects@.len() as int);
        }
        let mut result: Option<(usize, Intersection)> = None;
        let n = self.objects.len();
        let mut k: usize = 0;
        while k < n
            invariant
                n == self.objects.len(),
                k <= n,
                (match result {
                    None => scene_hit_upto(self.objects@, *ray, k as int) is None,
                    Some((i, h)) => i < k && h.dist.raw > 0 && scene_hit_upto(
                        self.objects@,
                        *ray,
                        k as int,
                    ) == Some((i as int, h)),
                }),
            decreases n - k,
        {
            let obj = &self.objects[k];
            if let Some(hit) = obj.intersect(ray) {
                match result {
                    None => {
                        result = Some((k, hit));
                    },
                    Some((_pi, ph)) => {
                        if hit.dist.raw < ph.dist.raw {
                            result = Some((k, hit));
                        }
                    },
                }
            }
            k += 1;
        }
        result
    }
}

/// The scene query returns the globally nearest hit: the record comes
/// from the listed surface, no surface the ray meets lies nearer, and
/// every earlier-listed surface the ray meets lies strictly farther, so
/// a tie in distance goes to the surface listed first.
pub proof fn lemma_scene_hit_nearest(objs: Seq<Surface>, r: Ray, n: int)
    requires
        0 <= n <= objs.len(),
    ensures
        (match scene_hit_upto(objs, r, n) {
            None => forall|j: int| 0 <= j < n ==> objs[j].hit_spec(r) is None,
            Some(pr) => {
                &&& 0 <= pr.0 < n
                &&& objs[pr.0].hit_spec(r) == Some(pr.1)
                &&& forall|j: int|
                    0 <= j < n && objs[j].hit_spec(r) is Some ==> pr.1.dist.raw <= hit_dist(
                        #[trigger] objs[j].hit_spec(r),
                    )
                &&& forall|j: int|
                    0 <= j < pr.0 && objs[j].hit_spec(r) is Some ==> pr.1.dist.raw < hit_dist(
                        #[trigger] objs[j].hit_spec(r),
                    )
            },
        }),
    decreases n,
{
    if n > 0 {
        lemma_scene_hit_nearest(objs, r, n - 1);
    }
}

} // verus!
