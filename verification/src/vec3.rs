//! Three-component vectors over the fixed-point scalars.
//!
//! Each executable operation is proved equal to a specification-level
//! mirror, so that the geometry built on top can be stated exactly.
//! Normalization is total: a vector too short for its length to register
//! in fixed precision is returned unchanged.

use vstd::prelude::*;

use crate::fixed::clip;
use crate::fixed::fxs;
use crate::fixed::iabs;
use crate::fixed::isqrt_spec;
use crate::fixed::lemma_isqrt_unique;
use crate::fixed::sadd;
use crate::fixed::sdiv;
use crate::fixed::smul;
use crate::fixed::sneg;
use crate::fixed::ssub;
use crate::fixed::tdiv;
use crate::fixed::Fx;
use crate::fixed::SCALE;

verus! {

/// A point or direction in space, one fixed-point scalar per axis.
#[derive(Clone, Copy, PartialEq, Eq, Structural, Debug)]
pub struct Vec3 {
    pub x: Fx,
    pub y: Fx,
    pub z: Fx,
}

/// Componentwise saturating sum.
pub open spec fn v_add_spec(a: Vec3, b: Vec3) -> Vec3 {
    Vec3 {
        x: fxs(sadd(a.x.raw as int, b.x.raw as int)),
        y: fxs(sadd(a.y.raw as int, b.y.raw as int)),
        z: fxs(sadd(a.z.raw as int, b.z.raw as int)),
    }
}

/// Componentwise saturating difference.
pub open spec fn v_sub_spec(a: Vec3, b: Vec3) -> Vec3 {
    Vec3 {
        x: fxs(ssub(a.x.raw as int, b.x.raw as int)),
        y: fxs(ssub(a.y.raw as int, b.y.raw as int)),
        z: fxs(ssub(a.z.raw as int, b.z.raw as int)),
    }
}

/// Componentwise saturating negation.
pub open spec fn v_neg_spec(a: Vec3) -> Vec3 {
    Vec3 {
        x: fxs(sneg(a.x.raw as int)),
        y: fxs(sneg(a.y.raw as int)),
        z: fxs(sneg(a.z.raw as int)),
    }
}

/// Componentwise saturating product with one scalar.
pub open spec fn v_scale_spec(a: Vec3, s: Fx) -> Vec3 {
    Vec3 {
        x: fxs(smul(a.x.raw as int, s.raw as int)),
        y: fxs(smul(a.y.raw as int, s.raw as int)),
        z: fxs(smul(a.z.raw as int, s.raw as int)),
    }
}

/// Raw value of the fixed-point dot product, summed left to right.
pub open spec fn dot_spec(a: Vec3, b: Vec3) -> int {
    sadd(
        sadd(
            smul(a.x.raw as int, b.x.raw as int),
            smul(a.y.raw as int, b.y.raw as int),
        ),
        smul(a.z.raw as int, b.z.raw as int),
    )
}

/// Fixed-point cross product.
pub open spec fn v_cross_spec(a: Vec3, b: Vec3) -> Vec3 {
    Vec3 {
        x: fxs(ssub(smul(a.y.raw as int, b.z.raw as int), smul(a.z.raw as int, b.y.raw as int))),
        y: fxs(ssub(smul(a.z.raw as int, b.x.raw as int), smul(a.x.raw as int, b.z.raw as int))),
        z: fxs(ssub(smul(a.x.raw as int, b.y.raw as int), smul(a.y.raw as int, b.x.raw as int))),
    }
}

/// Raw length of a vector: square root of its squared norm.
pub open spec fn norm_spec(v: Vec3) -> int {
    isqrt_spec(dot_spec(v, v) * (SCALE as int))
}

/// Scale a vector to unit length; one whose length rounds below the
/// smallest positive scalar is returned unchanged.
pub open spec fn v_normalize_spec(v: Vec3) -> Vec3 {
    let l = norm_spec(v);
    if l >= 1 {
        Vec3 {
            x: fxs(sdiv(v.x.raw as int, l)),
            y: fxs(sdiv(v.y.raw as int, l)),
            z: fxs(sdiv(v.z.raw as int, l)),
        }
    } else {
        v
    }
}

/// The vector standing for a triple of whole numbers.
pub open spec fn vec3i_spec(x: int, y: int, z: int) -> Vec3 {
    Vec3 {
        x: fxs(clip(x * (SCALE as int))),
        y: fxs(clip(y * (SCALE as int))),
        z: fxs(clip(z * (SCALE as int))),
    }
}

/// A fixed-point square is never negative.
proof fn lemma_smul_self_nonneg(x: int)
    ensures
        smul(x, x) >= 0,
{
    assert(x * x >= 0) by (nonlinear_arith);
    assert(tdiv(x * x, SCALE as int) >= 0);
}

/// The squared norm of any vector is non-negative.
pub proof fn lemma_dot_self_nonneg(v: Vec3)
    ensures
        dot_spec(v, v) >= 0,
{
    lemma_smul_self_nonneg(v.x.raw as int);
    lemma_smul_self_nonneg(v.y.raw as int);
    lemma_smul_self_nonneg(v.z.raw as int);
}

impl Vec3 {
    /// Build the vector standing for a triple of whole numbers.
    pub fn from_ints(x: i64, y: i64, z: i64) -> (r: Vec3)
        ensures
            r == vec3i_spec(x as int, y as int, z as int),
    {
        Vec3 { x: Fx::from_int(x), y: Fx::from_int(y), z: Fx::from_int(z) }
    }

    /// Componentwise sum.
    pub fn add(self, o: Vec3) -> (r: Vec3)
        ensures
            r == v_add_spec(self, o),
    {
        Vec3 { x: self.x.add(o.x), y: self.y.add(o.y), z: self.z.add(o.z) }
    }

    /// Componentwise difference.
    pub fn sub(self, o: Vec3) -> (r: Vec3)
        ensures
            r == v_sub_spec(self, o),
    {
        Vec3 { x: self.x.sub(o.x), y: self.y.sub(o.y), z: self.z.sub(o.z) }
    }

    /// Componentwise negation.
    pub fn neg(self) -> (r: Vec3)
        ensures
            r == v_neg_spec(self),
    {
        Vec3 { x: self.x.neg(), y: self.y.neg(), z: self.z.neg() }
    }

    /// Product with one scalar.
    pub fn scale(self, s: Fx) -> (r: Vec3)
        ensures
            r == v_scale_spec(self, s),
    {
        Vec3 { x: self.x.mul(s), y: self.y.mul(s), z: self.z.mul(s) }
    }

    /// Fixed-point dot product.
    pub fn dot(self, o: Vec3) -> (r: Fx)
        ensures
            r.raw == dot_spec(self, o),
    {
        self.x.mul(o.x).add(self.y.mul(o.y)).add(self.z.mul(o.z))
    }

    /// Fixed-point cross product.
    pub fn cross(self, o: Vec3) -> (r: Vec3)
        ensures
            r == v_cross_spec(self, o),
    {
        Vec3 {
            x: self.y.mul(o.z).sub(self.z.mul(o.y)),
            y: self.z.mul(o.x).sub(self.x.mul(o.z)),
            z: self.x.mul(o.y).sub(self.y.mul(o.x)),
        }
    }

    /// Squared length, which is never negative.
    pub fn norm_sq(self) -> (r: Fx)
        ensures
            r.raw == dot_spec(self, self),
            r.raw >= 0,
    {
        proof {
            lemma_dot_self_nonneg(self);
        }
        self.dot(self)
    }

    /// Scale to unit length; a vector whose length rounds to zero is
    /// returned unchanged.
    pub fn normalize(self) -> (r: Vec3)
        ensures
            r == v_normalize_spec(self),
    {
        let n = self.norm_sq();
        let l = n.sqrt();
        if l.raw >= 1 {
            Vec3 { x: self.x.div(l), y: self.y.div(l), z: self.z.div(l) }
        } else {
            self
        }
    }
}

/// Dividing a raw value by a positive length keeps its sign, and keeps
/// zero at zero.
proof fn lemma_sdiv_keeps_sign(x: int, l: int)
    requires
        l >= 1,
    ensures
        x == 0 ==> sdiv(x, l) == 0,
        x >= 0 ==> sdiv(x, l) >= 0,
        x <= 0 ==> sdiv(x, l) <= 0,
{
    vstd::arithmetic::div_mod::lemma_div_pos_is_pos(iabs(x * (SCALE as int)), l);
}

/// Normalization never turns a direction around: each component keeps
/// its sign, and a zero component stays exactly zero. This is the part
/// of "the direction is preserved" that holds of every vector; along an
/// axis the result is moreover exactly the unit vector, which
/// `lemma_normalize_axis` states.
pub proof fn lemma_normalize_keeps_direction(v: Vec3)
    ensures
        v.x.raw == 0 ==> v_normalize_spec(v).x.raw == 0,
        v.y.raw == 0 ==> v_normalize_spec(v).y.raw == 0,
        v.z.raw == 0 ==> v_normalize_spec(v).z.raw == 0,
        v.x.raw >= 0 ==> v_normalize_spec(v).x.raw >= 0,
        v.y.raw >= 0 ==> v_normalize_spec(v).y.raw >= 0,
        v.z.raw >= 0 ==> v_normalize_spec(v).z.raw >= 0,
        v.x.raw <= 0 ==> v_normalize_spec(v).x.raw <= 0,
        v.y.raw <= 0 ==> v_normalize_spec(v).y.raw <= 0,
        v.z.raw <= 0 ==> v_normalize_spec(v).z.raw <= 0,
{
    let l = norm_spec(v);
    if l >= 1 {
        lemma_sdiv_keeps_sign(v.x.raw as int, l);
        lemma_sdiv_keeps_sign(v.y.raw as int, l);
        lemma_sdiv_keeps_sign(v.z.raw as int, l);
    }
}

/// Exact dot product of two integer triples.
pub open spec fn dotx(ax: int, ay: int, az: int, bx: int, by: int, bz: int) -> int {
    ax * bx + ay * by + az * bz
}

/// First component of the exact cross product of two integer triples.
pub open spec fn crossx_x(ay: int, az: int, by: int, bz: int) -> int {
    ay * bz - az * by
}

/// Second component of the exact cross product of two integer triples.
pub open spec fn crossx_y(ax: int, az: int, bx: int, bz: int) -> int {
    az * bx - ax * bz
}

/// Third component of the exact cross product of two integer triples.
pub open spec fn crossx_z(ax: int, ay: int, bx: int, by: int) -> int {
    ax * by - ay * bx
}

/// In exact arithmetic a cross product is orthogonal to both factors:
/// the algebra behind the camera's mutually orthogonal view basis.
/// The executable basis construction carries rounding of up to one raw
/// unit per product, which this exact statement does not cover.
pub proof fn lemma_cross_orthogonal(ax: int, ay: int, az: int, bx: int, by: int, bz: int)
    by (nonlinear_arith)
    ensures
        dotx(
            crossx_x(ay, az, by, bz),
            crossx_y(ax, az, bx, bz),
            crossx_z(ax, ay, bx, by),
            ax,
            ay,
            az,
        ) == 0,
        dotx(
            crossx_x(ay, az, by, bz),
            crossx_y(ax, az, bx, bz),
            crossx_z(ax, ay, bx, by),
            bx,
            by,
            bz,
        ) == 0,
{
}

/// Normalizing an axis-aligned vector is exact: along an axis whose raw
/// component is a positive multiple of 256, the result is exactly the
/// unit vector of that axis.
pub proof fn lemma_normalize_axis(k: i64)
    requires
        256 <= k <= 0x7fff_ffff,
        k % 256 == 0,
    ensures
        (v_normalize_spec(Vec3 { x: Fx { raw: 0 }, y: Fx { raw: 0 }, z: Fx { raw: k } }) == Vec3 {
            x: Fx { raw: 0 },
            y: Fx { raw: 0 },
            z: Fx { raw: SCALE },
        }),
{
    let v = Vec3 { x: Fx { raw: 0 }, y: Fx { raw: 0 }, z: Fx { raw: k } };
    let ki = k as int;
    let m = ki / 256;
    assert(ki == 256 * m);
    assert(ki * ki == 65536 * (m * m)) by (nonlinear_arith)
        requires
            ki == 256 * m,
    ;
    assert(m * m >= 0) by (nonlinear_arith);
    vstd::arithmetic::div_mod::lemma_div_by_multiple(m * m, 65536);
    assert(tdiv(ki * ki, SCALE as int) == m * m);
    assert(m <= 0x7f_ffff);
    assert(m * m <= 0x7f_ffff * 0x7f_ffff) by (nonlinear_arith)
        requires
            0 <= m <= 0x7f_ffff,
    ;
    assert(smul(ki, ki) == m * m);
    assert(smul(0, 0) == 0);
    assert(dot_spec(v, v) == m * m);
    assert((m * m) * (SCALE as int) == ki * ki) by (nonlinear_arith)
        requires
            ki == 256 * m,
    ;
    assert(ki * ki < (ki + 1) * (ki + 1)) by (nonlinear_arith)
        requires
            ki >= 0,
    ;
    assert(ki * ki >= 0) by (nonlinear_arith);
    lemma_isqrt_unique(ki * ki, ki);
    assert(norm_spec(v) == ki);
    vstd::arithmetic::div_mod::lemma_div_by_multiple(SCALE as int, ki);
    assert((SCALE as int) * ki == ki * (SCALE as int)) by (nonlinear_arith);
    assert(tdiv(ki * (SCALE as int), ki) == SCALE as int);
    assert(sdiv(ki, ki) == SCALE as int);
    assert(sdiv(0, ki) == 0);
}

} // verus!
