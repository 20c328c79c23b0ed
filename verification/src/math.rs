//! Fixed-point linear algebra for the scene graph and renderer. Scalars are
//! signed 64-bit values in Q47.16 form (one unit is `FX_ONE` = 65536 raw
//! units); every operation truncates toward zero and saturates at the i64
//! range instead of wrapping, so all of them are total and exactly
//! specified. Rotations are unit quaternions in the same representation;
//! matrices are 4x4 homogeneous with the translation in the last column and
//! column vectors on the right.

use vstd::prelude::*;
use vstd::arithmetic::div_mod::lemma_div_multiples_vanish;

verus! {

/// One unit in fixed-point form.
pub const FX_ONE: i64 = 65536;

/// Two units, the factor of the quaternion-to-matrix formula.
pub const FX_TWO: i64 = 131072;

/// Radians per degree (pi / 180) in fixed-point units, rounded to nearest.
pub const FX_RAD_PER_DEG: i64 = 1144;

/// Saturation of an unbounded result into the i64 range.
pub open spec fn clamp64(v: int) -> int {
    if v > i64::MAX {
        i64::MAX as int
    } else if v < i64::MIN {
        i64::MIN as int
    } else {
        v
    }
}

/// Saturation of an unbounded result into the i32 range.
pub open spec fn clamp32(v: int) -> int {
    if v > i32::MAX {
        i32::MAX as int
    } else if v < i32::MIN {
        i32::MIN as int
    } else {
        v
    }
}

/// Division truncating toward zero (the mathematical `/` rounds toward
/// negative infinity; hardware division truncates).
pub open spec fn tdiv(n: int, d: int) -> int {
    let q = (if n >= 0 {
        n
    } else {
        -n
    }) / (if d >= 0 {
        d
    } else {
        -d
    });
    if (n < 0) != (d < 0) {
        -q
    } else {
        q
    }
}

/// Fixed-point addition: exact sum, saturated.
pub open spec fn fxs_add(a: i64, b: i64) -> i64 {
    clamp64(a + b) as i64
}

/// Fixed-point subtraction: exact difference, saturated.
pub open spec fn fxs_sub(a: i64, b: i64) -> i64 {
    clamp64(a - b) as i64
}

/// Fixed-point negation (saturated, so negating `i64::MIN` gives `i64::MAX`).
pub open spec fn fxs_neg(a: i64) -> i64 {
    clamp64(-a) as i64
}

/// Fixed-point multiplication: exact product scaled back by one unit,
/// truncated toward zero, saturated.
pub open spec fn fxs_mul(a: i64, b: i64) -> i64 {
    clamp64(tdiv(a * b, FX_ONE as int)) as i64
}

/// Fixed-point division: `a / b` in units, truncated toward zero, saturated;
/// division by zero yields zero.
pub open spec fn fxs_div(a: i64, b: i64) -> i64 {
    if b == 0 {
        0
    } else {
        clamp64(tdiv(a * (FX_ONE as int), b as int)) as i64
    }
}

/// The integer part of a fixed-point value, truncated toward zero and
/// saturated into the i32 range.
pub open spec fn fxs_to_i32(a: i64) -> i32 {
    clamp32(tdiv(a as int, FX_ONE as int)) as i32
}

fn clamp_i128_to_i64(v: i128) -> (r: i64)
    ensures
        r as int == clamp64(v as int),
{
    if v > i64::MAX as i128 {
        i64::MAX
    } else if v < i64::MIN as i128 {
        i64::MIN
    } else {
        v as i64
    }
}

/// Truncating division of a bounded i128 by a positive divisor.
fn tdiv_i128(n: i128, d: i128) -> (q: i128)
    requires
        -0x4000_0000_0000_0000_0000_0000_0000_0000i128 <= n
            <= 0x4000_0000_0000_0000_0000_0000_0000_0000i128,
        0 < d,
    ensures
        q as int == tdiv(n as int, d as int),
{
    if n >= 0 {
        let m = n as u128;
        let q = m / (d as u128);
        q as i128
    } else {
        let m = (-n) as u128;
        let q = m / (d as u128);
        -(q as i128)
    }
}

pub fn fx_add(a: i64, b: i64) -> (r: i64)
    ensures
        r == fxs_add(a, b),
{
    clamp_i128_to_i64(a as i128 + b as i128)
}

pub fn fx_sub(a: i64, b: i64) -> (r: i64)
    ensures
        r == fxs_sub(a, b),
{
    clamp_i128_to_i64(a as i128 - b as i128)
}

pub fn fx_neg(a: i64) -> (r: i64)
    ensures
        r == fxs_neg(a),
{
    clamp_i128_to_i64(-(a as i128))
}

pub fn fx_mul(a: i64, b: i64) -> (r: i64)
    ensures
        r == fxs_mul(a, b),
{
    let pa = a as i128;
    let pb = b as i128;
    proof {
        assert(-0x4000_0000_0000_0000_0000_0000_0000_0000i128 as int <= (pa as int) * (pb as int)
            <= 0x4000_0000_0000_0000_0000_0000_0000_0000i128 as int) by (nonlinear_arith)
            requires
                -0x8000_0000_0000_0000i128 as int <= pa as int <= 0x7fff_ffff_ffff_ffffi128 as int,
                -0x8000_0000_0000_0000i128 as int <= pb as int <= 0x7fff_ffff_ffff_ffffi128 as int,
        ;
    }
    let p = pa * pb;
    let q = tdiv_i128(p, FX_ONE as i128);
    clamp_i128_to_i64(q)
}

pub fn fx_div(a: i64, b: i64) -> (r: i64)
    ensures
        r == fxs_div(a, b),
{
    if b == 0 {
        return 0;
    }
    proof {
        assert(-0x4000_0000_0000_0000_0000_0000_0000_0000i128 as int <= (a as int) * (
        FX_ONE as int) <= 0x4000_0000_0000_0000_0000_0000_0000_0000i128 as int)
            by (nonlinear_arith)
            requires
                -0x8000_0000_0000_0000i128 as int <= a as int <= 0x7fff_ffff_ffff_ffffi128 as int,
        ;
    }
    let n = (a as i128) * (FX_ONE as i128);
    let neg = (a < 0) != (b < 0);
    let na: u128 = if n >= 0 {
        n as u128
    } else {
        (-n) as u128
    };
    let nb: u128 = if b >= 0 {
        b as u128
    } else {
        (-(b as i128)) as u128
    };
    let q = na / nb;
    let sq: i128 = if neg && q > 0 {
        -(q as i128)
    } else {
        q as i128
    };
    proof {
        assert(sq as int == tdiv(n as int, b as int));
    }
    clamp_i128_to_i64(sq)
}

/// The integer part of a fixed-point value as an i32 (truncated, saturated).
pub fn fx_to_i32(a: i64) -> (r: i32)
    ensures
        r == fxs_to_i32(a),
{
    let q = tdiv_i128(a as i128, FX_ONE as i128);
    if q > i32::MAX as i128 {
        i32::MAX
    } else if q < i32::MIN as i128 {
        i32::MIN
    } else {
        q as i32
    }
}

/// A whole number in fixed-point form; exact, no saturation can occur.
pub open spec fn fxs_from_i32(v: i32) -> i64 {
    (v as int * FX_ONE as int) as i64
}

/// A whole number taken into fixed-point form; exact, no saturation can
/// occur.
pub fn fx_from_i32(v: i32) -> (r: i64)
    ensures
        r == fxs_from_i32(v),
        r as int == v as int * FX_ONE as int,
{
    (v as i64) * FX_ONE
}

/// Scaling by one unit is exact: multiplying by `FX_ONE` gives the value
/// back, on either side.
pub proof fn lemma_fx_mul_one(a: i64)
    ensures
        fxs_mul(a, FX_ONE) == a,
        fxs_mul(FX_ONE, a) == a,
{
    if a >= 0 {
        lemma_div_multiples_vanish(a as int, FX_ONE as int);
        assert((FX_ONE as int) * (a as int) == (a as int) * (FX_ONE as int));
    } else {
        lemma_div_multiples_vanish(-(a as int), FX_ONE as int);
        assert((FX_ONE as int) * (-(a as int)) == -((a as int) * (FX_ONE as int)));
    }
}

/// Multiplying by zero gives zero, on either side.
pub proof fn lemma_fx_mul_zero(a: i64)
    ensures
        fxs_mul(a, 0) == 0,
        fxs_mul(0, a) == 0,
{
}

/// A two-component fixed-point vector (texture coordinates).
#[derive(Clone, Copy, PartialEq, Eq, Structural, Debug)]
pub struct Vec2 {
    pub x: i64,
    pub y: i64,
}

/// A three-component fixed-point vector.
#[derive(Clone, Copy, PartialEq, Eq, Structural, Debug)]
pub struct Vec3 {
    pub x: i64,
    pub y: i64,
    pub z: i64,
}

/// A four-component fixed-point vector (tangents with handedness).
#[derive(Clone, Copy, PartialEq, Eq, Structural, Debug)]
pub struct Vec4 {
    pub x: i64,
    pub y: i64,
    pub z: i64,
    pub w: i64,
}

/// A rotation as a quaternion in fixed-point form; callers keep it unit
/// length (in units, `x^2 + y^2 + z^2 + w^2 == FX_ONE^2` up to rounding).
#[derive(Clone, Copy, PartialEq, Eq, Structural, Debug)]
pub struct Quat {
    pub x: i64,
    pub y: i64,
    pub z: i64,
    pub w: i64,
}

/// An axis-aligned rectangle (normalized viewport rects and pixel rects).
#[derive(Clone, Copy, PartialEq, Eq, Structural, Debug)]
pub struct Rect<T> {
    pub x: T,
    pub y: T,
    pub width: T,
    pub height: T,
}

pub open spec fn vec3s_zero() -> Vec3 {
    Vec3 { x: 0, y: 0, z: 0 }
}

pub open spec fn vec3s_one() -> Vec3 {
    Vec3 { x: FX_ONE, y: FX_ONE, z: FX_ONE }
}

pub open spec fn vec3s_add(a: Vec3, b: Vec3) -> Vec3 {
    Vec3 { x: fxs_add(a.x, b.x), y: fxs_add(a.y, b.y), z: fxs_add(a.z, b.z) }
}

pub open spec fn vec3s_sub(a: Vec3, b: Vec3) -> Vec3 {
    Vec3 { x: fxs_sub(a.x, b.x), y: fxs_sub(a.y, b.y), z: fxs_sub(a.z, b.z) }
}

pub open spec fn vec3s_neg(a: Vec3) -> Vec3 {
    Vec3 { x: fxs_neg(a.x), y: fxs_neg(a.y), z: fxs_neg(a.z) }
}

pub open spec fn vec3s_dot(a: Vec3, b: Vec3) -> i64 {
    fxs_add(fxs_add(fxs_mul(a.x, b.x), fxs_mul(a.y, b.y)), fxs_mul(a.z, b.z))
}

pub open spec fn vec3s_cross(a: Vec3, b: Vec3) -> Vec3 {
    Vec3 {
        x: fxs_sub(fxs_mul(a.y, b.z), fxs_mul(a.z, b.y)),
        y: fxs_sub(fxs_mul(a.z, b.x), fxs_mul(a.x, b.z)),
        z: fxs_sub(fxs_mul(a.x, b.y), fxs_mul(a.y, b.x)),
    }
}

pub fn vec3_zero() -> (r: Vec3)
    ensures
        r == vec3s_zero(),
{
    Vec3 { x: 0, y: 0, z: 0 }
}

pub fn vec3_one() -> (r: Vec3)
    ensures
        r == vec3s_one(),
{
    Vec3 { x: FX_ONE, y: FX_ONE, z: FX_ONE }
}

pub fn vec3_new(x: i64, y: i64, z: i64) -> (r: Vec3)
    ensures
        r == (Vec3 { x, y, z }),
{
    Vec3 { x, y, z }
}

pub fn vec3_add(a: Vec3, b: Vec3) -> (r: Vec3)
    ensures
        r == vec3s_add(a, b),
{
    Vec3 { x: fx_add(a.x, b.x), y: fx_add(a.y, b.y), z: fx_add(a.z, b.z) }
}

pub fn vec3_sub(a: Vec3, b: Vec3) -> (r: Vec3)
    ensures
        r == vec3s_sub(a, b),
{
    Vec3 { x: fx_sub(a.x, b.x), y: fx_sub(a.y, b.y), z: fx_sub(a.z, b.z) }
}

pub fn vec3_neg(a: Vec3) -> (r: Vec3)
    ensures
        r == vec3s_neg(a),
{
    Vec3 { x: fx_neg(a.x), y: fx_neg(a.y), z: fx_neg(a.z) }
}

pub fn vec3_dot(a: Vec3, b: Vec3) -> (r: i64)
    ensures
        r == vec3s_dot(a, b),
{
    fx_add(fx_add(fx_mul(a.x, b.x), fx_mul(a.y, b.y)), fx_mul(a.z, b.z))
}

pub fn vec3_cross(a: Vec3, b: Vec3) -> (r: Vec3)
    ensures
        r == vec3s_cross(a, b),
{
    Vec3 {
        x: fx_sub(fx_mul(a.y, b.z), fx_mul(a.z, b.y)),
        y: fx_sub(fx_mul(a.z, b.x), fx_mul(a.x, b.z)),
        z: fx_sub(fx_mul(a.x, b.y), fx_mul(a.y, b.x)),
    }
}

pub open spec fn quats_identity() -> Quat {
    Quat { x: 0, y: 0, z: 0, w: FX_ONE }
}

/// The conjugate rotates the opposite way; for unit quaternions it is the
/// inverse rotation, which is how this library inverts rotation factors.
pub open spec fn quats_conjugate(q: Quat) -> Quat {
    Quat { x: fxs_neg(q.x), y: fxs_neg(q.y), z: fxs_neg(q.z), w: q.w }
}

pub fn quat_identity() -> (r: Quat)
    ensures
        r == quats_identity(),
{
    Quat { x: 0, y: 0, z: 0, w: FX_ONE }
}

pub fn quat_conjugate(q: Quat) -> (r: Quat)
    ensures
        r == quats_conjugate(q),
{
    Quat { x: fx_neg(q.x), y: fx_neg(q.y), z: fx_neg(q.z), w: q.w }
}

/// A 4x4 homogeneous transform; `mRC` is the entry of row R, column C, so
/// the translation sits in `m03`, `m13`, `m23` and vectors multiply on the
/// right.
#[derive(Clone, Copy, PartialEq, Eq, Structural, Debug)]
pub struct Mat4 {
    pub m00: i64,
    pub m01: i64,
    pub m02: i64,
    pub m03: i64,
    pub m10: i64,
    pub m11: i64,
    pub m12: i64,
    pub m13: i64,
    pub m20: i64,
    pub m21: i64,
    pub m22: i64,
    pub m23: i64,
    pub m30: i64,
    pub m31: i64,
    pub m32: i64,
    pub m33: i64,
}

/// A four-term inner product, the building block of matrix multiplication.
pub open spec fn fxs_dot4(a0: i64, b0: i64, a1: i64, b1: i64, a2: i64, b2: i64, a3: i64, b3: i64) -> i64 {
    fxs_add(fxs_add(fxs_add(fxs_mul(a0, b0), fxs_mul(a1, b1)), fxs_mul(a2, b2)), fxs_mul(a3, b3))
}

fn fx_dot4(a0: i64, b0: i64, a1: i64, b1: i64, a2: i64, b2: i64, a3: i64, b3: i64) -> (r: i64)
    ensures
        r == fxs_dot4(a0, b0, a1, b1, a2, b2, a3, b3),
{
    fx_add(fx_add(fx_add(fx_mul(a0, b0), fx_mul(a1, b1)), fx_mul(a2, b2)), fx_mul(a3, b3))
}

pub open spec fn mats_identity() -> Mat4 {
    Mat4 {
        m00: FX_ONE,
        m01: 0,
        m02: 0,
        m03: 0,
        m10: 0,
        m11: FX_ONE,
        m12: 0,
        m13: 0,
        m20: 0,
        m21: 0,
        m22: FX_ONE,
        m23: 0,
        m30: 0,
        m31: 0,
        m32: 0,
        m33: FX_ONE,
    }
}

pub fn mat_identity() -> (r: Mat4)
    ensures
        r == mats_identity(),
{
    Mat4 {
        m00: FX_ONE,
        m01: 0,
        m02: 0,
        m03: 0,
        m10: 0,
        m11: FX_ONE,
        m12: 0,
        m13: 0,
        m20: 0,
        m21: 0,
        m22: FX_ONE,
        m23: 0,
        m30: 0,
        m31: 0,
        m32: 0,
        m33: FX_ONE,
    }
}

/// Translation by `v`: the identity with `v` in the last column.
pub open spec fn mats_translation(v: Vec3) -> Mat4 {
    Mat4 {
        m00: FX_ONE,
        m01: 0,
        m02: 0,
        m03: v.x,
        m10: 0,
        m11: FX_ONE,
        m12: 0,
        m13: v.y,
        m20: 0,
        m21: 0,
        m22: FX_ONE,
        m23: v.z,
        m30: 0,
        m31: 0,
        m32: 0,
        m33: FX_ONE,
    }
}

pub fn mat_translation(v: Vec3) -> (r: Mat4)
    ensures
        r == mats_translation(v),
{
    Mat4 {
        m00: FX_ONE,
        m01: 0,
        m02: 0,
        m03: v.x,
        m10: 0,
        m11: FX_ONE,
        m12: 0,
        m13: v.y,
        m20: 0,
        m21: 0,
        m22: FX_ONE,
        m23: v.z,
        m30: 0,
        m31: 0,
        m32: 0,
        m33: FX_ONE,
    }
}

/// Non-uniform scaling by `v` along the axes.
pub open spec fn mats_scaling(v: Vec3) -> Mat4 {
    Mat4 {
        m00: v.x,
        m01: 0,
        m02: 0,
        m03: 0,
        m10: 0,
        m11: v.y,
        m12: 0,
        m13: 0,
        m20: 0,
        m21: 0,
        m22: v.z,
        m23: 0,
        m30: 0,
        m31: 0,
        m32: 0,
        m33: FX_ONE,
    }
}

pub fn mat_scaling(v: Vec3) -> (r: Mat4)
    ensures
        r == mats_scaling(v),
{
    Mat4 {
        m00: v.x,
        m01: 0,
        m02: 0,
        m03: 0,
        m10: 0,
        m11: v.y,
        m12: 0,
        m13: 0,
        m20: 0,
        m21: 0,
        m22: v.z,
        m23: 0,
        m30: 0,
        m31: 0,
        m32: 0,
        m33: FX_ONE,
    }
}

/// The rotation matrix of a (unit) quaternion, the standard homogeneous
/// form.
pub open spec fn mats_from_quat(q: Quat) -> Mat4 {
    Mat4 {
        m00: fxs_sub(FX_ONE, fxs_mul(FX_TWO, fxs_add(fxs_mul(q.y, q.y), fxs_mul(q.z, q.z)))),
        m01: fxs_mul(FX_TWO, fxs_sub(fxs_mul(q.x, q.y), fxs_mul(q.w, q.z))),
        m02: fxs_mul(FX_TWO, fxs_add(fxs_mul(q.x, q.z), fxs_mul(q.w, q.y))),
        m03: 0,
        m10: fxs_mul(FX_TWO, fxs_add(fxs_mul(q.x, q.y), fxs_mul(q.w, q.z))),
        m11: fxs_sub(FX_ONE, fxs_mul(FX_TWO, fxs_add(fxs_mul(q.x, q.x), fxs_mul(q.z, q.z)))),
        m12: fxs_mul(FX_TWO, fxs_sub(fxs_mul(q.y, q.z), fxs_mul(q.w, q.x))),
        m13: 0,
        m20: fxs_mul(FX_TWO, fxs_sub(fxs_mul(q.x, q.z), fxs_mul(q.w, q.y))),
        m21: fxs_mul(FX_TWO, fxs_add(fxs_mul(q.y, q.z), fxs_mul(q.w, q.x))),
        m22: fxs_sub(FX_ONE, fxs_mul(FX_TWO, fxs_add(fxs_mul(q.x, q.x), fxs_mul(q.y, q.y)))),
        m23: 0,
        m30: 0,
        m31: 0,
        m32: 0,
        m33: FX_ONE,
    }
}

pub fn mat_from_quat(q: Quat) -> (r: Mat4)
    ensures
        r == mats_from_quat(q),
{
    Mat4 {
        m00: fx_sub(FX_ONE, fx_mul(FX_TWO, fx_add(fx_mul(q.y, q.y), fx_mul(q.z, q.z)))),
        m01: fx_mul(FX_TWO, fx_sub(fx_mul(q.x, q.y), fx_mul(q.w, q.z))),
        m02: fx_mul(FX_TWO, fx_add(fx_mul(q.x, q.z), fx_mul(q.w, q.y))),
        m03: 0,
        m10: fx_mul(FX_TWO, fx_add(fx_mul(q.x, q.y), fx_mul(q.w, q.z))),
        m11: fx_sub(FX_ONE, fx_mul(FX_TWO, fx_add(fx_mul(q.x, q.x), fx_mul(q.z, q.z)))),
        m12: fx_mul(FX_TWO, fx_sub(fx_mul(q.y, q.z), fx_mul(q.w, q.x))),
        m13: 0,
        m20: fx_mul(FX_TWO, fx_sub(fx_mul(q.x, q.z), fx_mul(q.w, q.y))),
        m21: fx_mul(FX_TWO, fx_add(fx_mul(q.y, q.z), fx_mul(q.w, q.x))),
        m22: fx_sub(FX_ONE, fx_mul(FX_TWO, fx_add(fx_mul(q.x, q.x), fx_mul(q.y, q.y)))),
        m23: 0,
        m30: 0,
        m31: 0,
        m32: 0,
        m33: FX_ONE,
    }
}

/// Matrix product `a * b`: entry (r, c) is the inner product of row r of
/// `a` with column c of `b`.
#[verifier::opaque]
pub open spec fn mats_mul(a: Mat4, b: Mat4) -> Mat4 {
    Mat4 {
        m00: fxs_dot4(a.m00, b.m00, a.m01, b.m10, a.m02, b.m20, a.m03, b.m30),
        m01: fxs_dot4(a.m00, b.m01, a.m01, b.m11, a.m02, b.m21, a.m03, b.m31),
        m02: fxs_dot4(a.m00, b.m02, a.m01, b.m12, a.m02, b.m22, a.m03, b.m32),
        m03: fxs_dot4(a.m00, b.m03, a.m01, b.m13, a.m02, b.m23, a.m03, b.m33),
        m10: fxs_dot4(a.m10, b.m00, a.m11, b.m10, a.m12, b.m20, a.m13, b.m30),
        m11: fxs_dot4(a.m10, b.m01, a.m11, b.m11, a.m12, b.m21, a.m13, b.m31),
        m12: fxs_dot4(a.m10, b.m02, a.m11, b.m12, a.m12, b.m22, a.m13, b.m32),
        m13: fxs_dot4(a.m10, b.m03, a.m11, b.m13, a.m12, b.m23, a.m13, b.m33),
        m20: fxs_dot4(a.m20, b.m00, a.m21, b.m10, a.m22, b.m20, a.m23, b.m30),
        m21: fxs_dot4(a.m20, b.m01, a.m21, b.m11, a.m22, b.m21, a.m23, b.m31),
        m22: fxs_dot4(a.m20, b.m02, a.m21, b.m12, a.m22, b.m22, a.m23, b.m32),
        m23: fxs_dot4(a.m20, b.m03, a.m21, b.m13, a.m22, b.m23, a.m23, b.m33),
        m30: fxs_dot4(a.m30, b.m00, a.m31, b.m10, a.m32, b.m20, a.m33, b.m30),
        m31: fxs_dot4(a.m30, b.m01, a.m31, b.m11, a.m32, b.m21, a.m33, b.m31),
        m32: fxs_dot4(a.m30, b.m02, a.m31, b.m12, a.m32, b.m22, a.m33, b.m32),
        m33: fxs_dot4(a.m30, b.m03, a.m31, b.m13, a.m32, b.m23, a.m33, b.m33),
    }
}

pub fn mat_mul(a: &Mat4, b: &Mat4) -> (r: Mat4)
    ensures
        r == mats_mul(*a, *b),
{
    proof {
        reveal(mats_mul);
    }
    Mat4 {
        m00: fx_dot4(a.m00, b.m00, a.m01, b.m10, a.m02, b.m20, a.m03, b.m30),
        m01: fx_dot4(a.m00, b.m01, a.m01, b.m11, a.m02, b.m21, a.m03, b.m31),
        m02: fx_dot4(a.m00, b.m02, a.m01, b.m12, a.m02, b.m22, a.m03, b.m32),
        m03: fx_dot4(a.m00, b.m03, a.m01, b.m13, a.m02, b.m23, a.m03, b.m33),
        m10: fx_dot4(a.m10, b.m00, a.m11, b.m10, a.m12, b.m20, a.m13, b.m30),
        m11: fx_dot4(a.m10, b.m01, a.m11, b.m11, a.m12, b.m21, a.m13, b.m31),
        m12: fx_dot4(a.m10, b.m02, a.m11, b.m12, a.m12, b.m22, a.m13, b.m32),
        m13: fx_dot4(a.m10, b.m03, a.m11, b.m13, a.m12, b.m23, a.m13, b.m33),
        m20: fx_dot4(a.m20, b.m00, a.m21, b.m10, a.m22, b.m20, a.m23, b.m30),
        m21: fx_dot4(a.m20, b.m01, a.m21, b.m11, a.m22, b.m21, a.m23, b.m31),
        m22: fx_dot4(a.m20, b.m02, a.m21, b.m12, a.m22, b.m22, a.m23, b.m32),
        m23: fx_dot4(a.m20, b.m03, a.m21, b.m13, a.m22, b.m23, a.m23, b.m33),
        m30: fx_dot4(a.m30, b.m00, a.m31, b.m10, a.m32, b.m20, a.m33, b.m30),
        m31: fx_dot4(a.m30, b.m01, a.m31, b.m11, a.m32, b.m21, a.m33, b.m31),
        m32: fx_dot4(a.m30, b.m02, a.m31, b.m12, a.m32, b.m22, a.m33, b.m32),
        m33: fx_dot4(a.m30, b.m03, a.m31, b.m13, a.m32, b.m23, a.m33, b.m33),
    }
}

/// An inner product against a unit axis picks out one factor exactly.
proof fn lemma_dot4_units(a0: i64, a1: i64, a2: i64, a3: i64)
    ensures
        fxs_dot4(a0, FX_ONE, a1, 0, a2, 0, a3, 0) == a0,
        fxs_dot4(a0, 0, a1, FX_ONE, a2, 0, a3, 0) == a1,
        fxs_dot4(a0, 0, a1, 0, a2, FX_ONE, a3, 0) == a2,
        fxs_dot4(a0, 0, a1, 0, a2, 0, a3, FX_ONE) == a3,
        fxs_dot4(FX_ONE, a0, 0, a1, 0, a2, 0, a3) == a0,
        fxs_dot4(0, a0, FX_ONE, a1, 0, a2, 0, a3) == a1,
        fxs_dot4(0, a0, 0, a1, FX_ONE, a2, 0, a3) == a2,
        fxs_dot4(0, a0, 0, a1, 0, a2, FX_ONE, a3) == a3,
{
    lemma_fx_mul_one(a0);
    lemma_fx_mul_one(a1);
    lemma_fx_mul_one(a2);
    lemma_fx_mul_one(a3);
}

/// The identity matrix is neutral for the fixed-point product, on either
/// side and for every matrix: truncation loses nothing when one factor of
/// each term is a plain unit or zero.
pub proof fn lemma_mat_mul_identity(m: Mat4)
    ensures
        mats_mul(m, mats_identity()) == m,
        mats_mul(mats_identity(), m) == m,
{
    reveal(mats_mul);
    lemma_dot4_units(m.m00, m.m01, m.m02, m.m03);
    lemma_dot4_units(m.m10, m.m11, m.m12, m.m13);
    lemma_dot4_units(m.m20, m.m21, m.m22, m.m23);
    lemma_dot4_units(m.m30, m.m31, m.m32, m.m33);
    lemma_dot4_units(m.m00, m.m10, m.m20, m.m30);
    lemma_dot4_units(m.m01, m.m11, m.m21, m.m31);
    lemma_dot4_units(m.m02, m.m12, m.m22, m.m32);
    lemma_dot4_units(m.m03, m.m13, m.m23, m.m33);
}

/// Floor of the square root: the unique nonnegative r with
/// `r * r <= n < (r + 1) * (r + 1)`.
pub open spec fn sqrt_floor(n: int) -> int {
    choose|r: int| 0 <= r && #[trigger] (r * r) <= n && n < (r + 1) * (r + 1)
}

/// Any witness of the square-root property is the `sqrt_floor`.
pub proof fn lemma_sqrt_floor_unique(n: int, r: int)
    requires
        0 <= r,
        r * r <= n,
        n < (r + 1) * (r + 1),
    ensures
        sqrt_floor(n) == r,
{
    assert(exists|s: int| 0 <= s && #[trigger] (s * s) <= n && n < (s + 1) * (s + 1)) by {
        assert(0 <= r && r * r <= n && n < (r + 1) * (r + 1));
    }
    let s = sqrt_floor(n);
    assert(0 <= s && s * s <= n && n < (s + 1) * (s + 1));
    assert(s == r) by (nonlinear_arith)
        requires
            0 <= r,
            r * r <= n,
            n < (r + 1) * (r + 1),
            0 <= s,
            s * s <= n,
            n < (s + 1) * (s + 1),
    ;
}

/// Floor of the square root of a 128-bit value, by binary search.
pub fn isqrt_u128(n: u128) -> (r: u64)
    ensures
        (r as int) * (r as int) <= n as int,
        (n as int) < (r as int + 1) * (r as int + 1),
{
    let mut lo: u64 = 0;
    let mut hi: u64 = u64::MAX;
    proof {
        assert((n as int) < (u64::MAX as int + 1) * (u64::MAX as int + 1)) by (nonlinear_arith)
            requires
                n as int <= u128::MAX as int,
        ;
    }
    while lo < hi
        invariant
            lo <= hi,
            (lo as int) * (lo as int) <= n as int,
            (n as int) < (hi as int + 1) * (hi as int + 1),
        decreases hi - lo,
    {
        let mid = lo + (hi - lo) / 2;
        let next = mid + 1;
        proof {
            assert((next as int) * (next as int) < 0x1_0000_0000_0000_0000_0000_0000_0000_0000)
                by (nonlinear_arith)
                requires
                    0 <= next as int <= u64::MAX as int,
            ;
        }
        let sq = (next as u128) * (next as u128);
        if sq <= n {
            lo = next;
        } else {
            hi = mid;
        }
    }
    lo
}

/// The magnitude of a signed value, wide enough that even `i64::MIN` fits.
fn mag64(a: i64) -> (r: u128)
    ensures
        r as int == if a >= 0 {
            a as int
        } else {
            -(a as int)
        },
{
    if a >= 0 {
        a as u128
    } else {
        (-(a as i128)) as u128
    }
}

/// The length of a vector in raw units (floor of the Euclidean norm).
pub open spec fn vec3s_len(v: Vec3) -> int {
    sqrt_floor((v.x as int) * (v.x as int) + (v.y as int) * (v.y as int) + (v.z as int) * (
    v.z as int))
}

/// The vector scaled to unit length (up to truncation); the zero vector
/// stays zero.
pub open spec fn vec3s_normalize(v: Vec3) -> Vec3 {
    let len = vec3s_len(v);
    if len == 0 {
        vec3s_zero()
    } else {
        Vec3 {
            x: clamp64(tdiv((v.x as int) * (FX_ONE as int), len)) as i64,
            y: clamp64(tdiv((v.y as int) * (FX_ONE as int), len)) as i64,
            z: clamp64(tdiv((v.z as int) * (FX_ONE as int), len)) as i64,
        }
    }
}

fn normalize_component(c: i64, len: u64) -> (r: i64)
    requires
        len > 0,
    ensures
        r as int == clamp64(tdiv((c as int) * (FX_ONE as int), len as int)),
{
    proof {
        assert(-0x4000_0000_0000_0000_0000_0000_0000_0000i128 as int <= (c as int) * (
        FX_ONE as int) <= 0x4000_0000_0000_0000_0000_0000_0000_0000i128 as int)
            by (nonlinear_arith)
            requires
                -0x8000_0000_0000_0000i128 as int <= c as int <= 0x7fff_ffff_ffff_ffffi128 as int,
        ;
    }
    let n = (c as i128) * (FX_ONE as i128);
    let q = tdiv_i128(n, len as i128);
    clamp_i128_to_i64(q)
}

pub fn vec3_normalize(v: Vec3) -> (r: Vec3)
    ensures
        r == vec3s_normalize(v),
{
    let mx = mag64(v.x);
    let my = mag64(v.y);
    let mz = mag64(v.z);
    proof {
        assert(mx as int * mx as int == v.x as int * v.x as int && mx as int * mx as int
            <= 0x4000_0000_0000_0000_0000_0000_0000_0000) by (nonlinear_arith)
            requires
                mx as int == if v.x >= 0 {
                    v.x as int
                } else {
                    -(v.x as int)
                },
                mx as int <= 0x8000_0000_0000_0000,
        ;
        assert(my as int * my as int == v.y as int * v.y as int && my as int * my as int
            <= 0x4000_0000_0000_0000_0000_0000_0000_0000) by (nonlinear_arith)
            requires
                my as int == if v.y >= 0 {
                    v.y as int
                } else {
                    -(v.y as int)
                },
                my as int <= 0x8000_0000_0000_0000,
        ;
        assert(mz as int * mz as int == v.z as int * v.z as int && mz as int * mz as int
            <= 0x4000_0000_0000_0000_0000_0000_0000_0000) by (nonlinear_arith)
            requires
                mz as int == if v.z >= 0 {
                    v.z as int
                } else {
                    -(v.z as int)
                },
                mz as int <= 0x8000_0000_0000_0000,
        ;
    }
    let sum = mx * mx + my * my + mz * mz;
    let len = isqrt_u128(sum);
    proof {
        lemma_sqrt_floor_unique(sum as int, len as int);
    }
    if len == 0 {
        Vec3 { x: 0, y: 0, z: 0 }
    } else {
        Vec3 {
            x: normalize_component(v.x, len),
            y: normalize_component(v.y, len),
            z: normalize_component(v.z, len),
        }
    }
}

/// Odd polynomial approximation of the tangent, `x + x^3/3 + 2*x^5/15`,
/// adequate for the half-angles of a camera's vertical field of view (below
/// a quarter turn).
pub open spec fn fxs_tan(x: i64) -> i64 {
    let x2 = fxs_mul(x, x);
    let x3 = fxs_mul(x2, x);
    let x5 = fxs_mul(x3, x2);
    fxs_add(fxs_add(x, fxs_div(x3, 196608)), fxs_div(fxs_mul(FX_TWO, x5), 983040))
}

pub fn fx_tan(x: i64) -> (r: i64)
    ensures
        r == fxs_tan(x),
{
    let x2 = fx_mul(x, x);
    let x3 = fx_mul(x2, x);
    let x5 = fx_mul(x3, x2);
    fx_add(fx_add(x, fx_div(x3, 196608)), fx_div(fx_mul(FX_TWO, x5), 983040))
}

/// Right-handed perspective projection for a vertical field of view `fovy`
/// (radians), aspect ratio and near/far planes, mapping depth to [-1, 1].
#[verifier::opaque]
pub open spec fn mats_perspective(aspect: i64, fovy: i64, znear: i64, zfar: i64) -> Mat4 {
    let f = fxs_div(FX_ONE, fxs_tan(fxs_div(fovy, FX_TWO)));
    let depth = fxs_sub(zfar, znear);
    Mat4 {
        m00: fxs_div(f, aspect),
        m01: 0,
        m02: 0,
        m03: 0,
        m10: 0,
        m11: f,
        m12: 0,
        m13: 0,
        m20: 0,
        m21: 0,
        m22: fxs_neg(fxs_div(fxs_add(zfar, znear), depth)),
        m23: fxs_neg(fxs_div(fxs_mul(FX_TWO, fxs_mul(zfar, znear)), depth)),
        m30: 0,
        m31: 0,
        m32: fxs_neg(FX_ONE),
        m33: 0,
    }
}

pub fn mat_perspective(aspect: i64, fovy: i64, znear: i64, zfar: i64) -> (r: Mat4)
    ensures
        r == mats_perspective(aspect, fovy, znear, zfar),
{
    proof {
        reveal(mats_perspective);
    }
    let f = fx_div(FX_ONE, fx_tan(fx_div(fovy, FX_TWO)));
    let depth = fx_sub(zfar, znear);
    Mat4 {
        m00: fx_div(f, aspect),
        m01: 0,
        m02: 0,
        m03: 0,
        m10: 0,
        m11: f,
        m12: 0,
        m13: 0,
        m20: 0,
        m21: 0,
        m22: fx_neg(fx_div(fx_add(zfar, znear), depth)),
        m23: fx_neg(fx_div(fx_mul(FX_TWO, fx_mul(zfar, znear)), depth)),
        m30: 0,
        m31: 0,
        m32: fx_neg(FX_ONE),
        m33: 0,
    }
}

/// Right-handed look-at view matrix: camera at `eye` looking toward
/// `target` with the given up direction.
#[verifier::opaque]
pub open spec fn mats_look_at_rh(eye: Vec3, target: Vec3, up: Vec3) -> Mat4 {
    let zaxis = vec3s_normalize(vec3s_sub(eye, target));
    let xaxis = vec3s_normalize(vec3s_cross(up, zaxis));
    let yaxis = vec3s_cross(zaxis, xaxis);
    Mat4 {
        m00: xaxis.x,
        m01: xaxis.y,
        m02: xaxis.z,
        m03: fxs_neg(vec3s_dot(xaxis, eye)),
        m10: yaxis.x,
        m11: yaxis.y,
        m12: yaxis.z,
        m13: fxs_neg(vec3s_dot(yaxis, eye)),
        m20: zaxis.x,
        m21: zaxis.y,
        m22: zaxis.z,
        m23: fxs_neg(vec3s_dot(zaxis, eye)),
        m30: 0,
        m31: 0,
        m32: 0,
        m33: FX_ONE,
    }
}

pub fn mat_look_at_rh(eye: Vec3, target: Vec3, up: Vec3) -> (r: Mat4)
    ensures
        r == mats_look_at_rh(eye, target, up),
{
    proof {
        reveal(mats_look_at_rh);
    }
    let zaxis = vec3_normalize(vec3_sub(eye, target));
    let xaxis = vec3_normalize(vec3_cross(up, zaxis));
    let yaxis = vec3_cross(zaxis, xaxis);
    Mat4 {
        m00: xaxis.x,
        m01: xaxis.y,
        m02: xaxis.z,
        m03: fx_neg(vec3_dot(xaxis, eye)),
        m10: yaxis.x,
        m11: yaxis.y,
        m12: yaxis.z,
        m13: fx_neg(vec3_dot(yaxis, eye)),
        m20: zaxis.x,
        m21: zaxis.y,
        m22: zaxis.z,
        m23: fx_neg(vec3_dot(zaxis, eye)),
        m30: 0,
        m31: 0,
        m32: 0,
        m33: FX_ONE,
    }
}

/// Composing two translations translates by the (saturated) sum of the
/// offsets, whichever side each factor stands on.
pub proof fn lemma_mat_translation_compose(a: Vec3, b: Vec3)
    ensures
        mats_mul(mats_translation(a), mats_translation(b)) == mats_translation(vec3s_add(a, b)),
{
    reveal(mats_mul);
    lemma_dot4_units(FX_ONE, 0, 0, a.x);
    lemma_fx_mul_one(a.x);
    lemma_fx_mul_one(a.y);
    lemma_fx_mul_one(a.z);
    lemma_fx_mul_one(b.x);
    lemma_fx_mul_one(b.y);
    lemma_fx_mul_one(b.z);
}

} // verus!

