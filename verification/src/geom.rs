//! Rays, intersection records, materials and the geometric primitives.
//!
//! Each primitive answers the nearest forward intersection of a ray, or
//! nothing; a returned record always has a strictly positive distance.
//! Degenerate configurations — a negative discriminant, a ray parallel to
//! a plane, a surface point whose offset from the center is too short to
//! normalize — are answered with no intersection.

use vstd::prelude::*;

use crate::fixed::clip;
use crate::fixed::fxs;
use crate::fixed::iabs;
use crate::fixed::lemma_isqrt_bounds;
use crate::fixed::lemma_isqrt_perfect;
use crate::fixed::lemma_sdiv_self;
use crate::fixed::lemma_smul_whole;
use crate::fixed::max0;
use crate::fixed::pow_raw;
use crate::fixed::smul;
use crate::fixed::sneg;
use crate::fixed::ssub;
use crate::fixed::sdiv;
use crate::fixed::sqrt_raw;
use crate::fixed::tdiv;
use crate::fixed::Fx;
use crate::fixed::MAX_RAW;
use crate::fixed::SCALE;
use crate::vec3::dot_spec;
use crate::vec3::norm_spec;
use crate::vec3::v_add_spec;
use crate::vec3::v_neg_spec;
use crate::vec3::v_normalize_spec;
use crate::vec3::v_scale_spec;
use crate::vec3::v_sub_spec;
use crate::vec3::Vec3;

verus! {

/// A ray: an origin and a direction normalized at construction.
#[derive(Clone, Copy, PartialEq, Eq, Structural, Debug)]
pub struct Ray {
    pub origin: Vec3,
    pub dir: Vec3,
}

/// What `Ray::new` builds: the direction is normalized.
pub open spec fn ray_spec(origin: Vec3, dir: Vec3) -> Ray {
    Ray { origin, dir: v_normalize_spec(dir) }
}

impl Ray {
    /// Build a ray, normalizing the direction.
    pub fn new(origin: Vec3, dir: Vec3) -> (r: Ray)
        ensures
            r == ray_spec(origin, dir),
    {
        Ray { origin, dir: dir.normalize() }
    }
}

/// A surface hit: position, unit outward normal, and the strictly
/// positive distance along the ray.
#[derive(Clone, Copy, PartialEq, Eq, Structural, Debug)]
pub struct Intersection {
    pub pos: Vec3,
    pub normal: Vec3,
    pub dist: Fx,
}

impl Intersection {
    /// Package a hit record.
    pub fn new(pos: Vec3, normal: Vec3, dist: Fx) -> (r: Intersection)
        ensures
            r.pos == pos,
            r.normal == normal,
            r.dist == dist,
    {
        Intersection { pos, normal, dist }
    }
}

/// Shading parameters: base color, diffuse and specular coefficients, a
/// shininess exponent, and a mirror reflectivity within zero and one.
#[derive(Clone, Copy, PartialEq, Eq, Structural, Debug)]
pub struct SphereMaterial {
    pub base_color: Vec3,
    pub diffuse: Fx,
    pub specular: Fx,
    pub shininess: u32,
    pub reflectivity: Fx,
}

/// Mirror a direction about a surface normal: `d - n * (2 * dot(d, n))`.
pub open spec fn reflect_spec(d: Vec3, n: Vec3) -> Vec3 {
    v_sub_spec(d, v_scale_spec(n, fxs(clip(2 * dot_spec(d, n)))))
}

/// Mirror a direction about a surface normal.
pub fn reflect(d: Vec3, n: Vec3) -> (r: Vec3)
    ensures
        r == reflect_spec(d, n),
{
    d.sub(n.scale(d.dot(n).mul_int(2)))
}

/// Pure white at full channel strength, for specular highlights.
pub open spec fn white_spec() -> Vec3 {
    Vec3 {
        x: fxs(255 * (SCALE as int)),
        y: fxs(255 * (SCALE as int)),
        z: fxs(255 * (SCALE as int)),
    }
}

/// The diffuse and specular response to one light, before scaling by the
/// light's intensity: a Lambertian term over the base color plus a
/// Phong-style white highlight.
pub open spec fn local_color_spec(
    m: SphereMaterial,
    light: Ray,
    view: Ray,
    hit: Intersection,
) -> Vec3 {
    let diff = v_scale_spec(
        m.base_color,
        fxs(smul(max0(dot_spec(hit.normal, light.dir)), m.diffuse.raw as int)),
    );
    let rl = reflect_spec(light.dir, hit.normal);
    let sf = max0(dot_spec(rl, v_neg_spec(view.dir)));
    let ss = smul(pow_raw(sf, m.shininess as nat), m.specular.raw as int);
    v_add_spec(diff, v_scale_spec(white_spec(), fxs(ss)))
}

impl SphereMaterial {
    /// Build a material; reflectivity must lie within zero and one.
    pub fn new(
        base_color: Vec3,
        diffuse: Fx,
        specular: Fx,
        shininess: u32,
        reflectivity: Fx,
    ) -> (r: SphereMaterial)
        requires
            0 <= reflectivity.raw <= SCALE,
        ensures
            r == (SphereMaterial { base_color, diffuse, specular, shininess, reflectivity }),
    {
        SphereMaterial { base_color, diffuse, specular, shininess, reflectivity }
    }

    /// The unlit base color, used for the ambient term.
    pub fn raw_color(&self) -> (r: Vec3)
        ensures
            r == self.base_color,
    {
        self.base_color
    }

    /// The fraction of outgoing light owed to mirror reflection.
    pub fn reflectivity(&self) -> (r: Fx)
        ensures
            r == self.reflectivity,
    {
        self.reflectivity
    }

    /// The local response to one light arriving along `light_ray`, seen
    /// along `view_ray`, before scaling by the light's intensity.
    pub fn color(&self, light_ray: &Ray, view_ray: &Ray, hit: &Intersection) -> (r: Vec3)
        ensures
            r == local_color_spec(*self, *light_ray, *view_ray, *hit),
    {
        let diff_f = hit.normal.dot(light_ray.dir).max0();
        let diff = self.base_color.scale(diff_f.mul(self.diffuse));
        let rl = reflect(light_ray.dir, hit.normal);
        let sf = rl.dot(view_ray.dir.neg()).max0();
        let ss = sf.powi(self.shininess).mul(self.specular);
        let white = Vec3 {
            x: Fx { raw: 255 * SCALE },
            y: Fx { raw: 255 * SCALE },
            z: Fx { raw: 255 * SCALE },
        };
        diff.add(white.scale(ss))
    }
}

/// A sphere given by center and radius, owning its material.
#[derive(Clone, Copy, PartialEq, Eq, Structural, Debug)]
pub struct Sphere {
    pub center: Vec3,
    pub radius: Fx,
    pub material: SphereMaterial,
}

/// The hit record of a sphere at ray parameter `t`, or nothing when the
/// surface point sits too close to the center for its normal to register.
pub open spec fn sphere_point(s: Sphere, r: Ray, t: int) -> Option<Intersection> {
    let pos = v_add_spec(r.origin, v_scale_spec(r.dir, fxs(t)));
    let d = v_sub_spec(pos, s.center);
    if dot_spec(d, d) < 1 {
        None
    } else {
        Some(Intersection { pos, normal: v_normalize_spec(d), dist: fxs(t) })
    }
}

/// Linear coefficient of the ray-sphere quadratic: twice the dot of the
/// ray direction with the offset from center to ray origin. Positive
/// when the ray points away from the center.
pub open spec fn sphere_b(s: Sphere, r: Ray) -> int {
    clip(2 * dot_spec(r.dir, v_sub_spec(r.origin, s.center)))
}

/// Constant coefficient of the ray-sphere quadratic: the squared offset
/// from center to ray origin, less the squared radius. Positive when the
/// origin lies outside the sphere, negative when inside.
pub open spec fn sphere_c(s: Sphere, r: Ray) -> int {
    let oc = v_sub_spec(r.origin, s.center);
    ssub(dot_spec(oc, oc), smul(s.radius.raw as int, s.radius.raw as int))
}

/// Discriminant of the ray-sphere quadratic; negative means no hit.
pub open spec fn sphere_disc(s: Sphere, r: Ray) -> int {
    ssub(smul(sphere_b(s, r), sphere_b(s, r)), clip(4 * sphere_c(s, r)))
}

/// Nearest forward sphere intersection: solve the quadratic
/// `|origin + t * dir - center|^2 = radius^2`; prefer the near root when
/// it is in front, fall back to the far (exit) root, else answer nothing.
pub open spec fn sphere_hit_spec(s: Sphere, r: Ray) -> Option<Intersection> {
    let b = sphere_b(s, r);
    let disc = sphere_disc(s, r);
    if disc < 0 {
        None
    } else {
        let sq = sqrt_raw(disc);
        let d1 = tdiv(ssub(sq, b), 2);
        let d2 = tdiv(ssub(sneg(b), sq), 2);
        if d2 > 0 {
            sphere_point(s, r, d2)
        } else if d1 > 0 {
            sphere_point(s, r, d1)
        } else {
            None
        }
    }
}

impl Sphere {
    /// Build a sphere.
    pub fn new(center: Vec3, radius: Fx, material: SphereMaterial) -> (r: Sphere)
        ensures
            r == (Sphere { center, radius, material }),
    {
        Sphere { center, radius, material }
    }

    /// Nearest forward intersection of a ray with this sphere.
    pub fn intersect(&self, ray: &Ray) -> (res: Option<Intersection>)
        ensures
            res == sphere_hit_spec(*self, *ray),
            (res matches Some(h) ==> h.dist.raw > 0),
    {
        let oc = ray.origin.sub(self.center);
        let b = ray.dir.dot(oc).mul_int(2);
        let c = oc.dot(oc).sub(self.radius.mul(self.radius));
        let disc = b.mul(b).sub(c.mul_int(4));
        if disc.raw < 0 {
            return None;
        }
        let sq = disc.sqrt();
        let d1 = sq.sub(b).half();
        let d2 = b.neg().sub(sq).half();
        let t = if d2.raw > 0 {
            d2
        } else if d1.raw > 0 {
            d1
        } else {
            return None;
        };
        let pos = ray.origin.add(ray.dir.scale(t));
        let d = pos.sub(self.center);
        if d.norm_sq().raw < 1 {
            return None;
        }
        Some(Intersection { pos, normal: d.normalize(), dist: t })
    }
}

/// How nearly parallel a ray and a plane may be before the intersection
/// is treated as absent.
pub const PLANE_EPS_RAW: i64 = 16;

/// An infinite plane through a point with a fixed normal, owning its
/// material; the normal is normalized at construction.
#[derive(Clone, Copy, PartialEq, Eq, Structural, Debug)]
pub struct Plane {
    pub point: Vec3,
    pub normal: Vec3,
    pub material: SphereMaterial,
}

/// Forward plane intersection: `t = dot(point - origin, normal) / denom`
/// with `denom = dot(dir, normal)`; a near-parallel ray or a non-positive
/// `t` gives nothing, and the returned normal faces the ray.
pub open spec fn plane_hit_spec(p: Plane, r: Ray) -> Option<Intersection> {
    let denom = dot_spec(r.dir, p.normal);
    if iabs(denom) < PLANE_EPS_RAW as int {
        None
    } else {
        let t = sdiv(dot_spec(v_sub_spec(p.point, r.origin), p.normal), denom);
        if t <= 0 {
            None
        } else {
            let pos = v_add_spec(r.origin, v_scale_spec(r.dir, fxs(t)));
            let n = if denom > 0 {
                v_neg_spec(p.normal)
            } else {
                p.normal
            };
            Some(Intersection { pos, normal: n, dist: fxs(t) })
        }
    }
}

impl Plane {
    /// Build a plane, normalizing the given normal.
    pub fn new(point: Vec3, normal: Vec3, material: SphereMaterial) -> (r: Plane)
        ensures
            r.point == point,
            r.normal == v_normalize_spec(normal),
            r.material == material,
    {
        Plane { point, normal: normal.normalize(), material }
    }

    /// Nearest forward intersection of a ray with this plane.
    pub fn intersect(&self, ray: &Ray) -> (res: Option<Intersection>)
        ensures
            res == plane_hit_spec(*self, *ray),
            (res matches Some(h) ==> h.dist.raw > 0),
    {
        let denom = ray.dir.dot(self.normal);
        if denom.raw < PLANE_EPS_RAW && denom.raw > -PLANE_EPS_RAW {
            return None;
        }
        let t = self.point.sub(ray.origin).dot(self.normal).div(denom);
        if t.raw <= 0 {
            return None;
        }
        let pos = ray.origin.add(ray.dir.scale(t));
        let n = if denom.raw > 0 {
            self.normal.neg()
        } else {
            self.normal
        };
        Some(Intersection { pos, normal: n, dist: t })
    }
}

/// A geometric primitive: the closed set of shapes a scene may hold.
#[derive(Clone, Copy, PartialEq, Eq, Structural, Debug)]
pub enum Surface {
    Sphere(Sphere),
    Plane(Plane),
}

impl Surface {
    /// Nearest forward intersection, by shape. Opaque so that callers
    /// reason over the records alone, not the quadratic behind them.
    #[verifier::opaque]
    pub open spec fn hit_spec(self, r: Ray) -> Option<Intersection> {
        match self {
            Surface::Sphere(s) => sphere_hit_spec(s, r),
            Surface::Plane(p) => plane_hit_spec(p, r),
        }
    }

    /// The material a shape owns.
    pub open spec fn material_spec(self) -> SphereMaterial {
        match self {
            Surface::Sphere(s) => s.material,
            Surface::Plane(p) => p.material,
        }
    }

    /// Nearest forward intersection of a ray with this surface.
    pub fn intersect(&self, ray: &Ray) -> (res: Option<Intersection>)
        ensures
            res == self.hit_spec(*ray),
            (res matches Some(h) ==> h.dist.raw > 0),
    {
        proof {
            reveal(Surface::hit_spec);
        }
        match self {
            Surface::Sphere(s) => s.intersect(ray),
            Surface::Plane(p) => p.intersect(ray),
        }
    }

    /// The material this surface owns.
    pub fn material(&self) -> (m: &SphereMaterial)
        ensures
            *m == self.material_spec(),
    {
        match self {
            Surface::Sphere(s) => &s.material,
            Surface::Plane(p) => &p.material,
        }
    }
}

/// A ray starting outside a sphere and pointing away from its center
/// meets nothing: with the constant coefficient positive (origin
/// outside) and the linear coefficient positive (pointing away), both
/// roots of the quadratic lie behind the origin.
pub proof fn lemma_sphere_ray_away(s: Sphere, r: Ray)
    requires
        sphere_c(s, r) > 0,
        sphere_b(s, r) > 0,
    ensures
        (sphere_hit_spec(s, r) is None),
{
    let b = sphere_b(s, r);
    let c = sphere_c(s, r);
    let disc = sphere_disc(s, r);
    if disc >= 0 {
        let bb = b * b;
        assert(b * b > 0) by (nonlinear_arith)
            requires
                b > 0,
        ;
        let q = bb / (SCALE as int);
        vstd::arithmetic::div_mod::lemma_div_pos_is_pos(bb, SCALE as int);
        assert(tdiv(bb, SCALE as int) == q);
        assert(smul(b, b) <= q && smul(b, b) >= 0);
        assert(clip(4 * c) >= 4);
        assert(disc <= smul(b, b) - 4);
        vstd::arithmetic::div_mod::lemma_fundamental_div_mod(bb, SCALE as int);
        vstd::arithmetic::div_mod::lemma_mod_bound(bb, SCALE as int);
        assert(q * (SCALE as int) <= bb);
        assert(disc * (SCALE as int) <= (q - 4) * (SCALE as int)) by (nonlinear_arith)
            requires
                disc <= q - 4,
        ;
        assert((q - 4) * (SCALE as int) == q * (SCALE as int) - 4 * (SCALE as int))
            by (nonlinear_arith);
        let sq = sqrt_raw(disc);
        lemma_isqrt_bounds(disc * (SCALE as int));
        assert(sq >= 0 && sq * sq <= disc * (SCALE as int));
        assert(sq * sq < bb);
        assert(sq < b) by (nonlinear_arith)
            requires
                sq >= 0,
                b > 0,
                sq * sq < b * b,
        ;
        let n1 = ssub(sq, b);
        assert(n1 < 0);
        vstd::arithmetic::div_mod::lemma_div_pos_is_pos(iabs(n1), 2);
        assert(tdiv(n1, 2) <= 0);
        let n2 = ssub(sneg(b), sq);
        assert(n2 < 0);
        vstd::arithmetic::div_mod::lemma_div_pos_is_pos(iabs(n2), 2);
        assert(tdiv(n2, 2) <= 0);
    }
}

/// A ray fired straight at a sphere's center from outside hits the near
/// surface at distance exactly the gap between them: for any
/// whole-number radius and any greater whole-number distance along the
/// ray's axis, the hit lies the radius short of the center, its
/// distance is exactly `d - radius`, and the normal points back along
/// the ray. On such whole inputs the fixed-point quadratic loses
/// nothing to rounding.
#[verifier::rlimit(60)]
pub proof fn lemma_sphere_head_on(s: Sphere, r: Ray, d: i64, rad: i64)
    requires
        1 <= rad < d <= 0x10_0000,
        s.radius.raw == rad * (SCALE as int),
        (r.dir == Vec3 { x: Fx { raw: 0 }, y: Fx { raw: 0 }, z: Fx { raw: SCALE } }),
        r.origin.x == s.center.x,
        r.origin.y == s.center.y,
        r.origin.z.raw == s.center.z.raw - d * (SCALE as int),
        -MAX_RAW <= r.origin.x.raw,
        -MAX_RAW <= r.origin.y.raw,
        -MAX_RAW <= r.origin.z.raw,
    ensures
        (sphere_hit_spec(s, r) == Some(Intersection {
            pos: Vec3 {
                x: r.origin.x,
                y: r.origin.y,
                z: fxs(s.center.z.raw - rad * (SCALE as int)),
            },
            normal: Vec3 { x: Fx { raw: 0 }, y: Fx { raw: 0 }, z: Fx { raw: -65536i64 } },
            dist: fxs((d - rad) * (SCALE as int)),
        })),
{
    let sc = SCALE as int;
    let di = d as int;
    let ri = rad as int;
    let oc = v_sub_spec(r.origin, s.center);
    assert(oc == (Vec3 { x: Fx { raw: 0 }, y: Fx { raw: 0 }, z: fxs(-di * sc) }));
    // every whole product in the computation stays far below saturation
    assert(0 <= di * di <= 0x100_0000_0000) by (nonlinear_arith)
        requires
            1 <= di <= 0x10_0000,
    ;
    assert((-di) * (-di) == di * di) by (nonlinear_arith);
    assert(0 <= ri * ri <= 0x100_0000_0000) by (nonlinear_arith)
        requires
            1 <= ri <= 0x10_0000,
    ;
    assert((-ri) * (-ri) == ri * ri) by (nonlinear_arith);
    assert((-2 * di) * (-2 * di) == 4 * (di * di)) by (nonlinear_arith);
    // the quadratic's coefficients come out exactly
    lemma_smul_whole(1, -di);
    assert(smul(sc, (-di) * sc) == (-di) * sc);
    assert(dot_spec(r.dir, oc) == -di * sc);
    let b = sphere_b(s, r);
    assert(b == -2 * di * sc);
    lemma_smul_whole(-di, -di);
    assert(dot_spec(oc, oc) == (di * di) * sc);
    lemma_smul_whole(ri, ri);
    let c = sphere_c(s, r);
    assert(ri * ri < di * di) by (nonlinear_arith)
        requires
            1 <= ri < di,
    ;
    assert((di * di) * sc <= 0x10_0000_0000_0000_0000) by (nonlinear_arith)
        requires
            0 <= di <= 0x10_0000,
            sc == 65536,
    ;
    assert(c == (di * di) * sc - (ri * ri) * sc);
    let disc = sphere_disc(s, r);
    lemma_smul_whole(-2 * di, -2 * di);
    assert((-2 * di) * sc == -2 * di * sc) by (nonlinear_arith);
    assert(((-2 * di) * (-2 * di)) * sc == 4 * ((di * di) * sc)) by (nonlinear_arith);
    assert(smul(b, b) == 4 * ((di * di) * sc));
    assert(disc == 4 * ((ri * ri) * sc));
    // its square root is exact: the discriminant is a perfect square
    assert(disc * sc == (2 * ri * sc) * (2 * ri * sc)) by (nonlinear_arith)
        requires
            disc == 4 * ((ri * ri) * sc),
            sc == 65536,
    ;
    lemma_isqrt_perfect(2 * ri * sc);
    let sq = sqrt_raw(disc);
    assert(sq == 2 * ri * sc);
    // the near root is in front, at exactly the gap
    assert(sneg(b) == 2 * di * sc);
    let n2 = ssub(sneg(b), sq);
    assert(n2 == 2 * (di - ri) * sc) by (nonlinear_arith)
        requires
            n2 == clip(2 * di * sc - 2 * ri * sc),
            1 <= ri < di <= 0x10_0000,
            sc == 65536,
    ;
    assert((di - ri) * sc >= 0);
    vstd::arithmetic::div_mod::lemma_div_by_multiple((di - ri) * sc, 2);
    assert(2 * (di - ri) * sc == ((di - ri) * sc) * 2) by (nonlinear_arith);
    let d2 = tdiv(n2, 2);
    assert(d2 == (di - ri) * sc);
    assert(d2 > 0) by (nonlinear_arith)
        requires
            d2 == (di - ri) * sc,
            di > ri,
            sc == 65536,
    ;
    // the surface point and its normal are exact as well
    let t = fxs(d2);
    lemma_smul_whole(1, di - ri);
    assert((di - ri) * sc == t.raw as int);
    assert(smul(sc, (di - ri) * sc) == (di - ri) * sc);
    assert(smul(0, t.raw as int) == 0);
    let pos = v_add_spec(r.origin, v_scale_spec(r.dir, t));
    assert(pos == (Vec3 {
        x: r.origin.x,
        y: r.origin.y,
        z: fxs(s.center.z.raw - ri * sc),
    }));
    let dd = v_sub_spec(pos, s.center);
    assert(dd == (Vec3 { x: Fx { raw: 0 }, y: Fx { raw: 0 }, z: fxs(-ri * sc) }));
    lemma_smul_whole(-ri, -ri);
    assert(dot_spec(dd, dd) == (ri * ri) * sc);
    assert((ri * ri) * sc >= sc) by (nonlinear_arith)
        requires
            ri >= 1,
            sc == 65536,
    ;
    assert((ri * ri) * sc * sc == (ri * sc) * (ri * sc)) by (nonlinear_arith);
    lemma_isqrt_perfect(ri * sc);
    assert(norm_spec(dd) == ri * sc);
    lemma_sdiv_self(ri * sc);
    assert(v_normalize_spec(dd) == (Vec3 {
        x: Fx { raw: 0 },
        y: Fx { raw: 0 },
        z: Fx { raw: -65536i64 },
    }));
}

/// A ray starting inside a sphere leaves through the far surface: with
/// the constant coefficient negative (origin inside) and the linear
/// coefficient moderate, the near root lies behind the origin, the far
/// (exit) root lies strictly ahead, and any returned record carries that
/// exit root as its positive distance. The record itself may still be
/// absent when the rounded surface point falls degenerately close to
/// the center. The bounds exclude what rounding cannot promise: with a
/// linear coefficient beyond three quarters of one — a wide sphere left
/// almost tangentially — the exit distance can round down to zero.
pub proof fn lemma_sphere_inside_exits(s: Sphere, r: Ray)
    requires
        -0x100_0000_0000 <= sphere_c(s, r) < 0,
        -0x80_0000_0000 <= sphere_b(s, r) <= 49151,
    ensures
        sphere_disc(s, r) >= 0,
        tdiv(ssub(sneg(sphere_b(s, r)), sqrt_raw(sphere_disc(s, r))), 2) <= 0,
        tdiv(ssub(sqrt_raw(sphere_disc(s, r)), sphere_b(s, r)), 2) > 0,
        (sphere_hit_spec(s, r) == sphere_point(
            s,
            r,
            tdiv(ssub(sqrt_raw(sphere_disc(s, r)), sphere_b(s, r)), 2),
        )),
        (sphere_hit_spec(s, r) matches Some(h) ==> h.dist.raw > 0),
{
    let b = sphere_b(s, r);
    let c = sphere_c(s, r);
    let disc = sphere_disc(s, r);
    let sc = SCALE as int;
    let bb = b * b;
    assert(0 <= b * b <= 0x4000_0000_0000_0000_0000) by (nonlinear_arith)
        requires
            -0x80_0000_0000 <= b <= 0x80_0000_0000,
    ;
    let q = bb / sc;
    vstd::arithmetic::div_mod::lemma_div_pos_is_pos(bb, sc);
    vstd::arithmetic::div_mod::lemma_fundamental_div_mod(bb, sc);
    vstd::arithmetic::div_mod::lemma_mod_bound(bb, sc);
    assert(bb - sc < q * sc <= bb);
    assert(q <= 0x4000_0000_0000_0000) by (nonlinear_arith)
        requires
            q * sc <= 0x4000_0000_0000_0000_0000,
            sc == 65536,
            q >= 0,
    ;
    assert(tdiv(bb, sc) == q);
    assert(smul(b, b) == q);
    assert(clip(4 * c) == 4 * c);
    assert(disc == q - 4 * c);
    assert(disc >= q + 4);
    let ds = disc * sc;
    assert(ds == q * sc - (4 * c) * sc) by (nonlinear_arith)
        requires
            disc == q - 4 * c,
            ds == disc * sc,
    ;
    assert((4 * c) * sc <= -4 * sc) by (nonlinear_arith)
        requires
            c <= -1,
            sc == 65536,
    ;
    assert(ds >= q * sc + 4 * sc);
    assert(ds > bb - sc + 4 * sc);
    assert(ds >= bb + 3 * sc + 1);
    let sq = sqrt_raw(disc);
    lemma_isqrt_bounds(ds);
    assert(sq >= 0 && sq * sq <= ds && ds < (sq + 1) * (sq + 1));
    // the root is at least two above b, so the exit distance is positive
    assert((b + 2) * (b + 2) == b * b + 4 * b + 4) by (nonlinear_arith);
    assert((b + 2) * (b + 2) <= ds);
    if b + 2 > 0 && sq < b + 2 {
        assert((sq + 1) * (sq + 1) <= (b + 2) * (b + 2)) by (nonlinear_arith)
            requires
                0 <= sq + 1,
                sq + 1 <= b + 2,
        ;
        assert(false);
    }
    assert(sq >= b + 2);
    // the root covers the magnitude of b, so the near root is behind
    assert((sq + 1) * (sq + 1) > b * b);
    assert(sq + 1 > b && sq + 1 > -b) by (nonlinear_arith)
        requires
            (sq + 1) * (sq + 1) > b * b,
            sq + 1 >= 0,
    ;
    assert(sneg(b) == -b);
    let n2 = ssub(sneg(b), sq);
    assert(-b - sq <= 0);
    assert(n2 <= 0);
    vstd::arithmetic::div_mod::lemma_div_pos_is_pos(iabs(n2), 2);
    assert(tdiv(n2, 2) <= 0);
    // the exit root: sq - b >= 2, and sq itself stays small
    assert(disc <= 0x4000_0000_0000_0000 + 0x400_0000_0000);
    assert(ds <= 0x4000_0000_0000_0000_0000 + 0x400_0000_0000_0000_0000) by (nonlinear_arith)
        requires
            ds == disc * 65536,
            0 <= disc <= 0x4000_0000_0000_0000 + 0x400_0000_0000,
    ;
    assert(sq <= 0x200_0000_0000) by (nonlinear_arith)
        requires
            sq * sq <= ds,
            ds <= 0x4000_0000_0000_0000_0000 + 0x400_0000_0000_0000_0000,
            sq >= 0,
    ;
    let n1 = ssub(sq, b);
    assert(n1 == sq - b);
    assert(n1 >= 2);
    assert(tdiv(n1, 2) == n1 / 2);
    vstd::arithmetic::div_mod::lemma_div_is_ordered(2, n1, 2);
    assert(tdiv(n1, 2) >= 1);
}

} // verus!
