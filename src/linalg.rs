use vstd::prelude::*;

use crate::scalar::{canon_bits, Scalar, ONE_BITS};

verus! {

/// A 3-vector of single-precision numbers, held as their bit patterns (`x, y, z`).
#[derive(Clone, Copy, Debug, PartialEq, Eq)]
pub struct Vec3 {
    pub bits: [u32; 3],
}

/// A quaternion of single-precision numbers, held as their bit patterns (`x, y, z, w`).
#[derive(Clone, Copy, Debug, PartialEq, Eq)]
pub struct Quat {
    pub bits: [u32; 4],
}

/// A 4x4 matrix of single-precision numbers, held as their bit patterns in
/// column-major order: the last column holds the translation.
#[derive(Clone, Copy, Debug, PartialEq, Eq)]
pub struct Mat4 {
    pub bits: [u32; 16],
}

/// The components of `s` with every NaN replaced by the canonical NaN.
#[verifier::opaque]
pub open spec fn canon_seq(s: Seq<u32>) -> Seq<u32> {
    s.map_values(|b: u32| canon_bits(b))
}

impl View for Vec3 {
    type V = Seq<u32>;

    /// The components, with NaN payloads left out.
    open spec fn view(&self) -> Seq<u32> {
        canon_seq(self.bits@)
    }
}

impl View for Quat {
    type V = Seq<u32>;

    /// The components, with NaN payloads left out.
    open spec fn view(&self) -> Seq<u32> {
        canon_seq(self.bits@)
    }
}

impl View for Mat4 {
    type V = Seq<u32>;

    /// The components, with NaN payloads left out.
    open spec fn view(&self) -> Seq<u32> {
        canon_seq(self.bits@)
    }
}

// What each name below stands for is computed by `glam` or by the processor.
// Every one is given inputs and a result without NaN payloads: those are the
// only part of a floating-point result that IEEE-754 and Rust leave open, and
// they never change whether a component is a NaN, nor any other component.

/// The single-precision sum `a + b`.
pub uninterp spec fn scalar_add(a: Scalar, b: Scalar) -> Scalar;

/// The single-precision difference `a - b`.
pub uninterp spec fn scalar_sub(a: Scalar, b: Scalar) -> Scalar;

/// The single-precision product `a * b`.
pub uninterp spec fn scalar_mul(a: Scalar, b: Scalar) -> Scalar;

/// The single-precision quotient `a / b`.
pub uninterp spec fn scalar_div(a: Scalar, b: Scalar) -> Scalar;

/// `glam`'s `v * s`: each component multiplied by `s`.
pub uninterp spec fn vec3_scale(v: Seq<u32>, s: Scalar) -> Seq<u32>;

/// `glam`'s component-wise sum `a + b`.
pub uninterp spec fn vec3_add(a: Seq<u32>, b: Seq<u32>) -> Seq<u32>;

/// `glam`'s `q * s`: each component multiplied by `s`.
pub uninterp spec fn quat_scale(q: Seq<u32>, s: Scalar) -> Seq<u32>;

/// `glam`'s rotation quaternion read from the upper 3x3 block of `m`.
pub uninterp spec fn quat_from_mat4(m: Seq<u32>) -> Seq<u32>;

/// `glam`'s matrix product `a * b`.
pub uninterp spec fn mat4_mul(a: Seq<u32>, b: Seq<u32>) -> Seq<u32>;

/// `glam`'s rotation matrix of the quaternion `q`.
pub uninterp spec fn mat4_from_quat(q: Seq<u32>) -> Seq<u32>;

/// Relies on single-precision addition (`f32 + f32`); `glam::Vec2` only holds the operands.
#[verifier::external_body]
pub(crate) fn add_scalar(a: Scalar, b: Scalar) -> (r: Scalar)
    ensures
        r.canon() == scalar_add(a.canon(), b.canon()),
{
    let v: glam::Vec2 = bytemuck::cast([a.bits, b.bits]);
    Scalar { bits: (v.x + v.y).to_bits() }
}

/// Relies on single-precision subtraction (`f32 - f32`); `glam::Vec2` only holds the operands.
#[verifier::external_body]
pub(crate) fn sub_scalar(a: Scalar, b: Scalar) -> (r: Scalar)
    ensures
        r.canon() == scalar_sub(a.canon(), b.canon()),
{
    let v: glam::Vec2 = bytemuck::cast([a.bits, b.bits]);
    Scalar { bits: (v.x - v.y).to_bits() }
}

/// Relies on single-precision multiplication (`f32 * f32`); `glam::Vec2` only holds the operands.
#[verifier::external_body]
pub(crate) fn mul_scalar(a: Scalar, b: Scalar) -> (r: Scalar)
    ensures
        r.canon() == scalar_mul(a.canon(), b.canon()),
{
    let v: glam::Vec2 = bytemuck::cast([a.bits, b.bits]);
    Scalar { bits: (v.x * v.y).to_bits() }
}

/// Relies on single-precision division (`f32 / f32`, which yields an infinity or a
/// NaN for a zero divisor and never panics); `glam::Vec2` only holds the operands.
#[verifier::external_body]
pub(crate) fn div_scalar(a: Scalar, b: Scalar) -> (r: Scalar)
    ensures
        r.canon() == scalar_div(a.canon(), b.canon()),
{
    let v: glam::Vec2 = bytemuck::cast([a.bits, b.bits]);
    Scalar { bits: (v.x / v.y).to_bits() }
}

/// Relies on `glam::Vec3: Mul<f32>` (one product per component, on every target).
#[verifier::external_body]
pub(crate) fn scale_vec3(v: Vec3, s: Scalar) -> (r: Vec3)
    ensures
        r@ == vec3_scale(v@, s.canon()),
{
    let v: glam::Vec3 = bytemuck::cast(v.bits);
    Vec3 { bits: bytemuck::cast(v * glam::Vec2::splat(bytemuck::cast(s.bits)).x) }
}

/// Relies on `glam::Vec3: Add<Vec3>` (one sum per component, on every target).
#[verifier::external_body]
pub(crate) fn add_vec3(a: Vec3, b: Vec3) -> (r: Vec3)
    ensures
        r@ == vec3_add(a@, b@),
{
    let a: glam::Vec3 = bytemuck::cast(a.bits);
    let b: glam::Vec3 = bytemuck::cast(b.bits);
    Vec3 { bits: bytemuck::cast(a + b) }
}

/// Relies on `glam::Quat::slerp`. Its rounding differs between `glam`'s
/// SIMD and scalar builds, so nothing is claimed of the result.
#[verifier::external_body]
pub(crate) fn slerp(a: Quat, b: Quat, s: Scalar) -> (r: Quat) {
    let a: glam::Quat = bytemuck::cast(a.bits);
    let b: glam::Quat = bytemuck::cast(b.bits);
    Quat { bits: bytemuck::cast(a.slerp(b, bytemuck::cast(s.bits))) }
}

/// Relies on `glam::Quat: Mul<f32>` (one product per component, on every target).
#[verifier::external_body]
pub(crate) fn scale_quat(q: Quat, s: Scalar) -> (r: Quat)
    ensures
        r@ == quat_scale(q@, s.canon()),
{
    let q: glam::Quat = bytemuck::cast(q.bits);
    Quat { bits: bytemuck::cast(q * glam::Vec2::splat(bytemuck::cast(s.bits)).x) }
}

/// Relies on `glam::Quat::from_mat4`.
#[verifier::external_body]
pub(crate) fn rotation_of(m: &Mat4) -> (r: Quat)
    ensures
        r@ == quat_from_mat4(m@),
{
    let m: glam::Mat4 = bytemuck::cast(m.bits);
    Quat { bits: bytemuck::cast(glam::Quat::from_mat4(&m)) }
}

/// Relies on `glam::Mat4: Mul<Mat4>`.
#[verifier::external_body]
pub(crate) fn mul_mat4(a: Mat4, b: Mat4) -> (r: Mat4)
    ensures
        r@ == mat4_mul(a@, b@),
{
    let a: glam::Mat4 = bytemuck::cast(a.bits);
    let b: glam::Mat4 = bytemuck::cast(b.bits);
    Mat4 { bits: bytemuck::cast(a * b) }
}

/// Relies on `glam::Mat4::from_quat`.
#[verifier::external_body]
pub(crate) fn rotation_matrix(q: Quat) -> (r: Mat4)
    ensures
        r@ == mat4_from_quat(q@),
{
    let q: glam::Quat = bytemuck::cast(q.bits);
    Mat4 { bits: bytemuck::cast(glam::Mat4::from_quat(q)) }
}

/// The translation matrix by `v`: the identity with `v` in the last column.
pub open spec fn translation_seq(v: Seq<u32>) -> Seq<u32> {
    seq![ONE_BITS, 0, 0, 0, 0, ONE_BITS, 0, 0, 0, 0, ONE_BITS, 0, v[0], v[1], v[2], ONE_BITS]
}

/// The scaling matrix by `v`: `v` and then 1 on the diagonal, 0 elsewhere.
pub open spec fn scale_seq(v: Seq<u32>) -> Seq<u32> {
    seq![v[0], 0, 0, 0, 0, v[1], 0, 0, 0, 0, v[2], 0, 0, 0, 0, ONE_BITS]
}

/// The pure quaternion of the translation column of `m` (`w` = 0).
pub open spec fn translation_quat_seq(m: Seq<u32>) -> Seq<u32> {
    seq![m[12], m[13], m[14], 0]
}

/// Component `i` of `v`, as a number.
pub open spec fn at(v: Seq<u32>, i: int) -> Scalar {
    Scalar { bits: v[i] }
}

/// The Hamilton product `a * b`, each component summed left to right:
/// `x = aw*bx + ax*bw + ay*bz - az*by`, `y = aw*by - ax*bz + ay*bw + az*bx`,
/// `z = aw*bz + ax*by - ay*bx + az*bw`, `w = aw*bw - ax*bx - ay*by - az*bz`.
pub open spec fn quat_product(a: Seq<u32>, b: Seq<u32>) -> Seq<u32> {
    let (ax, ay, az, aw) = (at(a, 0), at(a, 1), at(a, 2), at(a, 3));
    let (bx, by, bz, bw) = (at(b, 0), at(b, 1), at(b, 2), at(b, 3));
    let x = scalar_sub(
        scalar_add(scalar_add(scalar_mul(aw, bx), scalar_mul(ax, bw)), scalar_mul(ay, bz)),
        scalar_mul(az, by),
    );
    let y = scalar_add(
        scalar_add(scalar_sub(scalar_mul(aw, by), scalar_mul(ax, bz)), scalar_mul(ay, bw)),
        scalar_mul(az, bx),
    );
    let z = scalar_add(
        scalar_sub(scalar_add(scalar_mul(aw, bz), scalar_mul(ax, by)), scalar_mul(ay, bx)),
        scalar_mul(az, bw),
    );
    let w = scalar_sub(
        scalar_sub(scalar_sub(scalar_mul(aw, bw), scalar_mul(ax, bx)), scalar_mul(ay, by)),
        scalar_mul(az, bz),
    );
    seq![x.bits, y.bits, z.bits, w.bits]
}

proof fn lemma_canon_idempotent(b: u32)
    ensures
        canon_bits(canon_bits(b)) == canon_bits(b),
{
}

impl Mat4 {
    /// The translation matrix by `v`.
    pub fn from_translation(v: Vec3) -> (r: Mat4)
        ensures
            r@ == translation_seq(v@),
    {
        let t = v.bits;
        let one = ONE_BITS;
        let r = Mat4 { bits: [one, 0, 0, 0, 0, one, 0, 0, 0, 0, one, 0, t[0], t[1], t[2], one] };
        reveal(canon_seq);
        assert(r@ =~= translation_seq(v@));
        r
    }

    /// The scaling matrix by `v`.
    pub fn from_scale(v: Vec3) -> (r: Mat4)
        ensures
            r@ == scale_seq(v@),
    {
        let s = v.bits;
        let one = ONE_BITS;
        let r = Mat4 { bits: [s[0], 0, 0, 0, 0, s[1], 0, 0, 0, 0, s[2], 0, 0, 0, 0, one] };
        reveal(canon_seq);
        assert(r@ =~= scale_seq(v@));
        r
    }
}

impl Quat {
    /// The pure quaternion of the translation column of `m`.
    pub fn from_translation_of(m: &Mat4) -> (r: Quat)
        ensures
            r@ == translation_quat_seq(m@),
    {
        let r = Quat { bits: [m.bits[12], m.bits[13], m.bits[14], 0] };
        reveal(canon_seq);
        assert(r@ =~= translation_quat_seq(m@));
        r
    }

    /// The Hamilton product `self * other` (see [`quat_product`]).
    pub fn product(self, other: Quat) -> (r: Quat)
        ensures
            r@ == quat_product(self@, other@),
    {
        let a = self.bits;
        let b = other.bits;
        let (ax, ay, az, aw) = (
            Scalar::from_bits(a[0]),
            Scalar::from_bits(a[1]),
            Scalar::from_bits(a[2]),
            Scalar::from_bits(a[3]),
        );
        let (bx, by, bz, bw) = (
            Scalar::from_bits(b[0]),
            Scalar::from_bits(b[1]),
            Scalar::from_bits(b[2]),
            Scalar::from_bits(b[3]),
        );
        let x = sub_scalar(
            add_scalar(add_scalar(mul_scalar(aw, bx), mul_scalar(ax, bw)), mul_scalar(ay, bz)),
            mul_scalar(az, by),
        );
        let y = add_scalar(
            add_scalar(sub_scalar(mul_scalar(aw, by), mul_scalar(ax, bz)), mul_scalar(ay, bw)),
            mul_scalar(az, bx),
        );
        let z = add_scalar(
            sub_scalar(add_scalar(mul_scalar(aw, bz), mul_scalar(ax, by)), mul_scalar(ay, bx)),
            mul_scalar(az, bw),
        );
        let w = sub_scalar(
            sub_scalar(sub_scalar(mul_scalar(aw, bw), mul_scalar(ax, bx)), mul_scalar(ay, by)),
            mul_scalar(az, bz),
        );
        let r = Quat { bits: [x.bits, y.bits, z.bits, w.bits] };
        proof {
            lemma_canon_idempotent(x.bits);
            lemma_canon_idempotent(y.bits);
            lemma_canon_idempotent(z.bits);
            lemma_canon_idempotent(w.bits);
        }
        reveal(canon_seq);
        assert(r@ =~= quat_product(self@, other@));
        r
    }
}

} // verus!
