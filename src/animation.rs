use vstd::prelude::*;

use crate::error::AnimError;
use crate::linalg::{
    add_scalar, add_vec3, div_scalar, mul_scalar, scalar_add, scalar_div, scalar_mul, scalar_sub,
    scale_vec3, slerp, sub_scalar, vec3_add, vec3_scale, Quat, Vec3,
};
use crate::nodes_tree::{trs_of, Node, Trs};
use crate::scalar::{Scalar, MINUS_TWO_BITS, ONE_BITS, THREE_BITS, TWO_BITS};

verus! {

/// How values between two keyframes are computed.
#[derive(Clone, Copy, Debug, PartialEq, Eq, Structural)]
pub enum InterpolationType {
    /// The earlier keyframe's value, held until the next keyframe.
    STEP,
    /// A straight blend for vectors, spherical interpolation for rotations.
    LINEAR,
    /// Cubic Hermite interpolation with an in-tangent, a point and an
    /// out-tangent stored per keyframe.
    CUBICSPLINE,
}

impl Default for InterpolationType {
    fn default() -> (r: InterpolationType)
        ensures
            r == InterpolationType::STEP,
    {
        InterpolationType::STEP
    }
}

/// The keyframe values of a channel, tagged with the node property they drive.
pub enum ChannelType {
    Translation(Vec<Vec3>),
    Rotation(Vec<Quat>),
    Scale(Vec<Vec3>),
}

/// A sampled channel value, tagged with the node property it sets.
#[derive(Clone, Copy, Debug)]
pub enum ChannelValue {
    Translation(Vec3),
    Rotation(Quat),
    Scale(Vec3),
}

impl Default for ChannelType {
    fn default() -> (r: ChannelType)
        ensures
            r matches ChannelType::Translation(v) && v@.len() == 0,
    {
        ChannelType::Translation(Vec::new())
    }
}

impl ChannelType {
    pub open spec fn spec_len(&self) -> nat {
        match self {
            ChannelType::Translation(v) => v@.len(),
            ChannelType::Rotation(v) => v@.len(),
            ChannelType::Scale(v) => v@.len(),
        }
    }

    pub fn len(&self) -> (r: usize)
        ensures
            r == self.spec_len(),
    {
        match self {
            ChannelType::Translation(v) => v.len(),
            ChannelType::Rotation(v) => v.len(),
            ChannelType::Scale(v) => v.len(),
        }
    }
}

/// One animation curve: keyframe times and values, and the interpolation between them.
pub struct Channel {
    pub interpolation: InterpolationType,
    pub times: Vec<Scalar>,
    pub values: ChannelType,
}

/// The number of values that `times` keyframes need under `interpolation`:
/// one per keyframe, or a tangent, point, tangent triplet per keyframe.
pub open spec fn values_needed(interpolation: InterpolationType, times: nat) -> nat {
    if interpolation == InterpolationType::CUBICSPLINE {
        3 * times
    } else {
        times
    }
}

/// Where the value of keyframe `k` stands among the values.
pub open spec fn point_index(interpolation: InterpolationType, k: int) -> int {
    if interpolation == InterpolationType::CUBICSPLINE {
        3 * k + 1
    } else {
        k
    }
}

/// The index of the first of `times[i..]` at or after `t`; `times.len()` when there is none.
pub open spec fn first_at_or_after(times: Seq<Scalar>, t: Scalar, i: int) -> int
    decreases times.len() - i,
{
    if i < 0 || i >= times.len() {
        times.len() as int
    } else if t.spec_le(times[i]) {
        i
    } else {
        first_at_or_after(times, t, i + 1)
    }
}

/// The keyframe pair `(prev, next)` that frames time `t`: `next` is the first
/// keyframe at or after `t` and `prev` the one before it (`next` itself when it
/// is the first keyframe); `(0, 0)` when every keyframe lies before `t`.
pub open spec fn frame_of(times: Seq<Scalar>, t: Scalar) -> (int, int) {
    let next = first_at_or_after(times, t, 0);
    if next >= times.len() || next == 0 {
        (0, 0)
    } else {
        (next - 1, next)
    }
}

proof fn lemma_first_in_range(times: Seq<Scalar>, t: Scalar, i: int)
    requires
        0 <= i <= times.len(),
    ensures
        i <= first_at_or_after(times, t, i) <= times.len(),
    decreases times.len() - i,
{
    if i < times.len() && !t.spec_le(times[i]) {
        lemma_first_in_range(times, t, i + 1);
    }
}

/// Keyframe times in ascending order, with no NaN among them.
pub open spec fn sorted_times(times: Seq<Scalar>) -> bool {
    forall|i: int, j: int| 0 <= i <= j < times.len() ==> (#[trigger] times[i]).spec_le(#[trigger] times[j])
}

proof fn lemma_first_skips(times: Seq<Scalar>, t: Scalar, i: int, j: int)
    requires
        0 <= i <= j <= times.len(),
        forall|m: int| i <= m < j ==> !t.spec_le(#[trigger] times[m]),
    ensures
        first_at_or_after(times, t, i) == first_at_or_after(times, t, j),
    decreases j - i,
{
    if i < j {
        lemma_first_skips(times, t, i + 1, j);
    }
}

/// With ascending keyframe times, a time after keyframe `k` and at or before
/// keyframe `k + 1` is framed by exactly those two keyframes.
pub proof fn lemma_frame_between(times: Seq<Scalar>, t: Scalar, k: int)
    requires
        sorted_times(times),
        0 <= k,
        k + 1 < times.len(),
        times[k].spec_lt(t),
        t.spec_le(times[k + 1]),
    ensures
        frame_of(times, t) == (k, k + 1),
{
    assert forall|m: int| 0 <= m < k + 1 implies !t.spec_le(#[trigger] times[m]) by {
        assert(times[m].spec_le(times[k]));
    }
    lemma_first_skips(times, t, 0, k + 1);
}

/// Sampling a step channel with ascending keyframe times at any time after
/// keyframe `k` and before keyframe `k + 1` gives keyframe `k`'s value; for the
/// first keyframe, at any time before the second.
pub proof fn lemma_step_holds_keyframe(c: &Channel, k: int, t: Scalar)
    requires
        c.wf(),
        c.interpolation == InterpolationType::STEP,
        sorted_times(c.times@),
        0 <= k,
        k + 1 < c.times@.len(),
        k == 0 || c.times@[k].spec_lt(t),
        t.spec_lt(c.times@[k + 1]),
    ensures
        c.sample_spec(t) == Ok::<Expected, AnimError>(c.keyframe(k)),
{
    let times = c.times@;
    if k > 0 || times[0].spec_lt(t) {
        lemma_frame_between(times, t, k);
    } else {
        assert(times[0].spec_le(times[0]));
        assert(t.spec_le(times[0]));
        assert(first_at_or_after(times, t, 0) == 0);
        assert(frame_of(times, t) == (0int, 0int));
    }
}

/// Sampling a linear vector channel with ascending keyframe times at a time
/// after keyframe `k` and at or before keyframe `k + 1` blends the two
/// keyframes at the fraction of the interval that has passed. A rotation
/// channel there is sampled by spherical interpolation, whose result is not
/// stated, and succeeds.
pub proof fn lemma_linear_between_keyframes(c: &Channel, k: int, t: Scalar)
    requires
        c.wf(),
        c.interpolation == InterpolationType::LINEAR,
        sorted_times(c.times@),
        0 <= k,
        k + 1 < c.times@.len(),
        c.times@[k].spec_lt(t),
        t.spec_le(c.times@[k + 1]),
    ensures
        ({
            let s = fraction(c.times@[k], c.times@[k + 1], t);
            c.sample_spec(t) == Ok::<Expected, AnimError>(
                match c.values {
                    ChannelType::Translation(v) => (0, Some(blend(v@[k]@, v@[k + 1]@, s))),
                    ChannelType::Rotation(v) => (1, None),
                    ChannelType::Scale(v) => (2, Some(blend(v@[k]@, v@[k + 1]@, s))),
                },
            )
        }),
{
    lemma_frame_between(c.times@, t, k);
}

/// Cubic-spline interpolation of a rotation channel fails as unsupported, at every time.
pub proof fn lemma_cubic_rotation_unsupported(c: &Channel, t: Scalar)
    requires
        c.values is Rotation,
        c.interpolation == InterpolationType::CUBICSPLINE,
    ensures
        c.sample_spec(t) == Err::<Expected, AnimError>(AnimError::UnsupportedInterpolation),
{
}

/// The fraction of the way from `prev_time` to `next_time` at which `time` lies.
pub open spec fn fraction(prev_time: Scalar, next_time: Scalar, time: Scalar) -> Scalar {
    scalar_div(
        scalar_sub(time.canon(), prev_time.canon()),
        scalar_sub(next_time.canon(), prev_time.canon()),
    )
}

/// The straight blend `prev * (1 - s) + next * s`.
pub open spec fn blend(prev: Seq<u32>, next: Seq<u32>, s: Scalar) -> Seq<u32> {
    vec3_add(vec3_scale(prev, scalar_sub(Scalar { bits: ONE_BITS }, s)), vec3_scale(next, s))
}

/// The cubic Hermite curve between the points `p0` and `p1`, with the tangents
/// `m0` and `m1` already scaled by the interval's length, at `s`:
/// `p0 * h00 + m0 * h10 + p1 * h01 + m1 * h11` with the standard basis
/// `h00 = 2s^3 - 3s^2 + 1`, `h10 = s^3 - 2s^2 + s`, `h01 = -2s^3 + 3s^2`,
/// `h11 = s^3 - s^2`, evaluated left to right.
pub open spec fn hermite(p0: Seq<u32>, m0: Seq<u32>, p1: Seq<u32>, m1: Seq<u32>, s: Scalar) -> Seq<
    u32,
> {
    let s2 = scalar_mul(s, s);
    let s3 = scalar_mul(s2, s);
    let two = Scalar { bits: TWO_BITS };
    let three = Scalar { bits: THREE_BITS };
    let h00 = scalar_add(
        scalar_sub(scalar_mul(two, s3), scalar_mul(three, s2)),
        Scalar { bits: ONE_BITS },
    );
    let h10 = scalar_add(scalar_sub(s3, scalar_mul(two, s2)), s);
    let h01 = scalar_add(scalar_mul(Scalar { bits: MINUS_TWO_BITS }, s3), scalar_mul(three, s2));
    let h11 = scalar_sub(s3, s2);
    vec3_add(
        vec3_add(vec3_add(vec3_scale(p0, h00), vec3_scale(m0, h10)), vec3_scale(p1, h01)),
        vec3_scale(m1, h11),
    )
}

/// A vector channel's value at `time` between keyframes `indexes`.
pub open spec fn vec_value(
    interpolation: InterpolationType,
    values: Seq<Vec3>,
    times: Seq<Scalar>,
    indexes: (int, int),
    time: Scalar,
) -> Result<Seq<u32>, AnimError> {
    let (p, n) = indexes;
    if p == n {
        Ok(values[point_index(interpolation, p)]@)
    } else {
        match interpolation {
            InterpolationType::STEP => Ok(values[p]@),
            InterpolationType::LINEAR => Ok(
                blend(values[p]@, values[n]@, fraction(times[p], times[n], time)),
            ),
            InterpolationType::CUBICSPLINE => {
                let delta = scalar_sub(times[n].canon(), times[p].canon());
                if delta.spec_num_eq(Scalar { bits: 0 }) {
                    Err(AnimError::DegenerateKeyframeInterval)
                } else {
                    Ok(
                        hermite(
                            values[3 * p + 1]@,
                            vec3_scale(values[3 * p + 2]@, delta),
                            values[3 * n + 1]@,
                            vec3_scale(values[3 * n]@, delta),
                            fraction(times[p], times[n], time),
                        ),
                    )
                }
            },
        }
    }
}

/// A rotation channel's value at `time` between keyframes `indexes`: `None`
/// stands for a spherical interpolation, whose result is not stated.
pub open spec fn quat_value(
    interpolation: InterpolationType,
    values: Seq<Quat>,
    indexes: (int, int),
) -> Result<Option<Seq<u32>>, AnimError> {
    let (p, n) = indexes;
    match interpolation {
        InterpolationType::CUBICSPLINE => Err(AnimError::UnsupportedInterpolation),
        InterpolationType::STEP => Ok(Some(values[p]@)),
        InterpolationType::LINEAR => if p == n {
            Ok(Some(values[p]@))
        } else {
            Ok(None)
        },
    }
}

/// `r` is what `e` describes: the same error, or a success whose value, when
/// `e` states one, equals it.
pub open spec fn meets<T: View<V = Seq<u32>>>(r: Result<T, AnimError>, e: Result<Option<Seq<u32>>, AnimError>) -> bool {
    match e {
        Ok(v) => r is Ok && (v matches Some(w) ==> r->Ok_0@ == w),
        Err(err) => r == Err::<T, AnimError>(err),
    }
}

/// `e` with its value, if any, made an explicit one.
pub open spec fn stated(e: Result<Seq<u32>, AnimError>) -> Result<Option<Seq<u32>>, AnimError> {
    match e {
        Ok(v) => Ok(Some(v)),
        Err(err) => Err(err),
    }
}

proof fn lemma_triplet_in_range(k: int, keyframes: int, values: int)
    requires
        0 <= k < keyframes,
        values == 3 * keyframes,
    ensures
        k * 3 + 2 < values,
{
}

/// Evaluates [`hermite`].
fn hermite_at(p0: Vec3, m0: Vec3, p1: Vec3, m1: Vec3, s: Scalar) -> (r: Vec3)
    ensures
        r@ == hermite(p0@, m0@, p1@, m1@, s.canon()),
{
    let two = Scalar::from_bits(TWO_BITS);
    let three = Scalar::from_bits(THREE_BITS);
    let s2 = mul_scalar(s, s);
    let s3 = mul_scalar(s2, s);
    let h00 = add_scalar(sub_scalar(mul_scalar(two, s3), mul_scalar(three, s2)), Scalar::from_bits(ONE_BITS));
    let h10 = add_scalar(sub_scalar(s3, mul_scalar(two, s2)), s);
    let h01 = add_scalar(mul_scalar(Scalar::from_bits(MINUS_TWO_BITS), s3), mul_scalar(three, s2));
    let h11 = sub_scalar(s3, s2);
    add_vec3(
        add_vec3(add_vec3(scale_vec3(p0, h00), scale_vec3(m0, h10)), scale_vec3(p1, h01)),
        scale_vec3(m1, h11),
    )
}

impl InterpolationType {
    /// Interpolates vector keyframes at `time`, between the keyframes `indexes`.
    /// When both indexes are the same keyframe its value is returned as is.
    pub fn interpolate(
        &self,
        values: &Vec<Vec3>,
        timings: &Vec<Scalar>,
        indexes: (usize, usize),
        time: Scalar,
    ) -> (r: Result<Vec3, AnimError>)
        requires
            indexes.0 < timings@.len(),
            indexes.1 < timings@.len(),
            values@.len() == values_needed(*self, timings@.len()),
        ensures
            meets(r, stated(vec_value(*self, values@, timings@, (indexes.0 as int, indexes.1 as int), time))),
    {
        let (p, n) = indexes;
        let value_count = values.len();
        if p == n {
            return match self {
                InterpolationType::CUBICSPLINE => {
                    proof {
                        lemma_triplet_in_range(p as int, timings@.len() as int, value_count as int);
                    }
                    Ok(values[p * 3 + 1])
                },
                _ => Ok(values[p]),
            };
        }
        match self {
            InterpolationType::STEP => Ok(values[p]),
            InterpolationType::LINEAR => {
                let prev_time = timings[p];
                let next_time = timings[n];
                let t = div_scalar(sub_scalar(time, prev_time), sub_scalar(next_time, prev_time));
                Ok(
                    add_vec3(
                        scale_vec3(values[p], sub_scalar(Scalar::from_bits(ONE_BITS), t)),
                        scale_vec3(values[n], t),
                    ),
                )
            },
            InterpolationType::CUBICSPLINE => {
                let prev_time = timings[p];
                let next_time = timings[n];
                let delta_time = sub_scalar(next_time, prev_time);
                proof {
                    lemma_triplet_in_range(p as int, timings@.len() as int, value_count as int);
                    lemma_triplet_in_range(n as int, timings@.len() as int, value_count as int);
                }
                if delta_time.num_eq(Scalar::zero()) {
                    return Err(AnimError::DegenerateKeyframeInterval);
                }
                let prev_tangent = scale_vec3(values[p * 3 + 2], delta_time);
                let next_tangent = scale_vec3(values[n * 3], delta_time);
                let t = div_scalar(sub_scalar(time, prev_time), delta_time);
                let prev_point = values[p * 3 + 1];
                let next_point = values[n * 3 + 1];
                Ok(hermite_at(prev_point, prev_tangent, next_point, next_tangent, t))
            },
        }
    }

    /// Interpolates rotation keyframes at `time`, between the keyframes
    /// `indexes`, spherically. Cubic-spline rotation is not supported and
    /// always fails with `UnsupportedInterpolation`, whatever the arguments.
    pub fn s_interpolate(
        &self,
        values: &Vec<Quat>,
        timings: &Vec<Scalar>,
        indexes: (usize, usize),
        time: Scalar,
    ) -> (r: Result<Quat, AnimError>)
        requires
            *self != InterpolationType::CUBICSPLINE ==> {
                &&& indexes.0 < timings@.len()
                &&& indexes.1 < timings@.len()
                &&& values@.len() == timings@.len()
            },
        ensures
            meets(r, quat_value(*self, values@, (indexes.0 as int, indexes.1 as int))),
    {
        let (p, n) = indexes;
        match self {
            InterpolationType::CUBICSPLINE => Err(AnimError::UnsupportedInterpolation),
            InterpolationType::STEP => Ok(values[p]),
            InterpolationType::LINEAR => {
                if p == n {
                    return Ok(values[p]);
                }
                let prev_time = timings[p];
                let next_time = timings[n];
                let t = div_scalar(sub_scalar(time, prev_time), sub_scalar(next_time, prev_time));
                Ok(slerp(values[p], values[n], t))
            },
        }
    }
}

/// What is known of a sampled value: the property it sets (0 translation,
/// 1 rotation, 2 scale) and, unless it comes from a spherical interpolation,
/// the value itself.
pub type Expected = (int, Option<Seq<u32>>);

/// `v` is a value that `e` describes.
pub open spec fn value_meets(v: ChannelValue, e: Expected) -> bool {
    match v {
        ChannelValue::Translation(x) => e.0 == 0 && (e.1 matches Some(w) ==> x@ == w),
        ChannelValue::Rotation(x) => e.0 == 1 && (e.1 matches Some(w) ==> x@ == w),
        ChannelValue::Scale(x) => e.0 == 2 && (e.1 matches Some(w) ==> x@ == w),
    }
}

impl Channel {
    /// Keyframes exist, and there are as many values as the interpolation needs.
    pub open spec fn wf(&self) -> bool {
        &&& self.times@.len() > 0
        &&& self.values.spec_len() == values_needed(self.interpolation, self.times@.len())
    }

    /// The value of keyframe `k`: for cubic splines the point between the tangents.
    pub open spec fn keyframe(&self, k: int) -> Expected {
        let i = point_index(self.interpolation, k);
        match self.values {
            ChannelType::Translation(v) => (0, Some(v@[i]@)),
            ChannelType::Rotation(v) => (1, Some(v@[i]@)),
            ChannelType::Scale(v) => (2, Some(v@[i]@)),
        }
    }

    /// What is known of the channel's value at time `t`.
    pub open spec fn sample_spec(&self, t: Scalar) -> Result<Expected, AnimError> {
        let indexes = frame_of(self.times@, t);
        match self.values {
            ChannelType::Translation(v) => match vec_value(self.interpolation, v@, self.times@, indexes, t) {
                Ok(x) => Ok((0, Some(x))),
                Err(e) => Err(e),
            },
            ChannelType::Rotation(v) => match quat_value(self.interpolation, v@, indexes) {
                Ok(x) => Ok((1, x)),
                Err(e) => Err(e),
            },
            ChannelType::Scale(v) => match vec_value(self.interpolation, v@, self.times@, indexes, t) {
                Ok(x) => Ok((2, Some(x))),
                Err(e) => Err(e),
            },
        }
    }

    /// Checks the shape of a channel: `ChannelShapeMismatch` when it has no
    /// keyframe or its value count is not what the interpolation needs.
    pub fn new(interpolation: InterpolationType, times: Vec<Scalar>, values: ChannelType) -> (r: Result<
        Channel,
        AnimError,
    >)
        ensures
            r is Ok <==> times@.len() > 0 && values.spec_len() == values_needed(
                interpolation,
                times@.len(),
            ),
            r is Ok ==> r->Ok_0.wf() && r->Ok_0.interpolation == interpolation && r->Ok_0.times@
                == times@ && r->Ok_0.values == values,
            r is Err ==> r->Err_0 == AnimError::ChannelShapeMismatch,
    {
        let count = values.len();
        let shaped = match interpolation {
            InterpolationType::CUBICSPLINE => count % 3 == 0 && count / 3 == times.len(),
            _ => count == times.len(),
        };
        if times.len() == 0 || !shaped {
            return Err(AnimError::ChannelShapeMismatch);
        }
        Ok(Channel { interpolation, times, values })
    }

    /// The keyframes that frame time `t` (see [`frame_of`]).
    pub fn get_indexes(&self, t: Scalar) -> (r: (usize, usize))
        ensures
            (r.0 as int, r.1 as int) == frame_of(self.times@, t),
    {
        let mut prev: usize = 0;
        let mut i: usize = 0;
        while i < self.times.len()
            invariant
                i <= self.times@.len(),
                first_at_or_after(self.times@, t, 0) == first_at_or_after(self.times@, t, i as int),
                prev == if i == 0 {
                    0
                } else {
                    i - 1
                },
            decreases self.times@.len() - i,
        {
            if self.times[i].ge(t) {
                return (prev, i);
            }
            prev = i;
            i += 1;
        }
        (0, 0)
    }

    /// The channel's value at time `t`, without touching any node.
    pub fn sample(&self, t: Scalar) -> (r: Result<ChannelValue, AnimError>)
        requires
            self.wf(),
        ensures
            match self.sample_spec(t) {
                Ok(e) => r is Ok && value_meets(r->Ok_0, e),
                Err(e) => r == Err::<ChannelValue, AnimError>(e),
            },
    {
        let indexes = self.get_indexes(t);
        proof {
            lemma_first_in_range(self.times@, t, 0);
        }
        match &self.values {
            ChannelType::Translation(v) => match self.interpolation.interpolate(v, &self.times, indexes, t) {
                Ok(x) => Ok(ChannelValue::Translation(x)),
                Err(e) => Err(e),
            },
            ChannelType::Rotation(v) => match self.interpolation.s_interpolate(v, &self.times, indexes, t) {
                Ok(x) => Ok(ChannelValue::Rotation(x)),
                Err(e) => Err(e),
            },
            ChannelType::Scale(v) => match self.interpolation.interpolate(v, &self.times, indexes, t) {
                Ok(x) => Ok(ChannelValue::Scale(x)),
                Err(e) => Err(e),
            },
        }
    }
}

/// What is known of a node's translation, rotation and scale: each part is
/// either a stated value or, after a spherical interpolation, left open.
pub type TrsExpected = (Option<Seq<u32>>, Option<Seq<u32>>, Option<Seq<u32>>);

/// Everything is known of a transform that is at hand.
pub open spec fn known(trs: Trs) -> TrsExpected {
    (Some(trs.0@), Some(trs.1@), Some(trs.2@))
}

/// `trs` is a transform that `e` describes.
pub open spec fn trs_meets(trs: Trs, e: TrsExpected) -> bool {
    &&& (e.0 matches Some(w) ==> trs.0@ == w)
    &&& (e.1 matches Some(w) ==> trs.1@ == w)
    &&& (e.2 matches Some(w) ==> trs.2@ == w)
}

/// `e` with the property that `v` names set to what is known of `v`.
pub open spec fn apply_value(e: TrsExpected, v: Expected) -> TrsExpected {
    if v.0 == 0 {
        (v.1, e.1, e.2)
    } else if v.0 == 1 {
        (e.0, v.1, e.2)
    } else {
        (e.0, e.1, v.1)
    }
}

/// `e` after the channel `c`, if present, has been sampled at `t` and applied.
pub open spec fn apply_channel(c: Option<Channel>, t: Scalar, e: TrsExpected) -> Result<TrsExpected, AnimError> {
    match c {
        None => Ok(e),
        Some(c) => match c.sample_spec(t) {
            Ok(v) => Ok(apply_value(e, v)),
            Err(err) => Err(err),
        },
    }
}

impl Channel {
    /// Samples the channel at `t` and writes the value into the node property
    /// it drives. On an error the node is left as it was.
    pub fn eval(&self, t: Scalar, node: &mut Node) -> (r: Result<(), AnimError>)
        requires
            self.wf(),
        ensures
            final(node).parent == old(node).parent,
            final(node).name == old(node).name,
            match apply_channel(Some(*self), t, known(trs_of(*old(node)))) {
                Ok(x) => r is Ok && trs_meets(trs_of(*final(node)), x),
                Err(e) => r == Err::<(), AnimError>(e) && trs_of(*final(node)) == trs_of(*old(node)),
            },
    {
        match self.sample(t) {
            Ok(ChannelValue::Translation(x)) => {
                node.translate = x;
                Ok(())
            },
            Ok(ChannelValue::Rotation(x)) => {
                node.rotate = x;
                Ok(())
            },
            Ok(ChannelValue::Scale(x)) => {
                node.scale = x;
                Ok(())
            },
            Err(e) => Err(e),
        }
    }
}

/// The channels that animate one node; each is optional.
pub struct NodeChannels {
    pub translation: Option<Channel>,
    pub rotation: Option<Channel>,
    pub scale: Option<Channel>,
}

impl Default for NodeChannels {
    fn default() -> (r: NodeChannels)
        ensures
            r.translation is None,
            r.rotation is None,
            r.scale is None,
    {
        NodeChannels { translation: None, rotation: None, scale: None }
    }
}

/// A channel slot that is empty or holds a well-formed channel.
pub open spec fn slot_wf(c: Option<Channel>) -> bool {
    c matches Some(c) ==> c.wf()
}

impl NodeChannels {
    pub open spec fn wf(&self) -> bool {
        slot_wf(self.translation) && slot_wf(self.rotation) && slot_wf(self.scale)
    }

    /// What is known of a transform described by `e` after the translation,
    /// rotation and scale channels, in that order, have been applied at `t`;
    /// the first error, if any.
    pub open spec fn pose_spec(&self, t: Scalar, e: TrsExpected) -> Result<TrsExpected, AnimError> {
        match apply_channel(self.translation, t, e) {
            Err(err) => Err(err),
            Ok(a) => match apply_channel(self.rotation, t, a) {
                Err(err) => Err(err),
                Ok(b) => apply_channel(self.scale, t, b),
            },
        }
    }

    fn apply(c: &Option<Channel>, t: Scalar, trs: Trs, Ghost(e): Ghost<TrsExpected>) -> (r: Result<
        Trs,
        AnimError,
    >)
        requires
            slot_wf(*c),
            trs_meets(trs, e),
        ensures
            match apply_channel(*c, t, e) {
                Ok(x) => r is Ok && trs_meets(r->Ok_0, x),
                Err(err) => r == Err::<Trs, AnimError>(err),
            },
    {
        match c {
            None => Ok(trs),
            Some(c) => match c.sample(t) {
                Ok(ChannelValue::Translation(x)) => Ok((x, trs.1, trs.2)),
                Ok(ChannelValue::Rotation(x)) => Ok((trs.0, x, trs.2)),
                Ok(ChannelValue::Scale(x)) => Ok((trs.0, trs.1, x)),
                Err(e) => Err(e),
            },
        }
    }

    /// The node transform `trs` with every present channel applied at `t`.
    pub fn pose(&self, t: Scalar, trs: Trs) -> (r: Result<Trs, AnimError>)
        requires
            self.wf(),
        ensures
            match self.pose_spec(t, known(trs)) {
                Ok(x) => r is Ok && trs_meets(r->Ok_0, x),
                Err(err) => r == Err::<Trs, AnimError>(err),
            },
    {
        let ghost e0 = known(trs);
        let ghost e1 = apply_channel(self.translation, t, e0)->Ok_0;
        let a = match Self::apply(&self.translation, t, trs, Ghost(e0)) {
            Ok(a) => a,
            Err(e) => {
                return Err(e);
            },
        };
        let ghost e2 = apply_channel(self.rotation, t, e1)->Ok_0;
        let b = match Self::apply(&self.rotation, t, a, Ghost(e1)) {
            Ok(b) => b,
            Err(e) => {
                return Err(e);
            },
        };
        Self::apply(&self.scale, t, b, Ghost(e2))
    }

    /// Applies every present channel at `t` to the node. Absent channels leave
    /// their property as it was; on an error the node is left as it was.
    pub fn eval(&self, t: Scalar, node: &mut Node) -> (r: Result<(), AnimError>)
        requires
            self.wf(),
        ensures
            final(node).parent == old(node).parent,
            final(node).name == old(node).name,
            match self.pose_spec(t, known(trs_of(*old(node)))) {
                Ok(x) => r is Ok && trs_meets(trs_of(*final(node)), x),
                Err(e) => r == Err::<(), AnimError>(e) && trs_of(*final(node)) == trs_of(*old(node)),
            },
    {
        match self.pose(t, (node.translate, node.rotate, node.scale)) {
            Ok((a, b, c)) => {
                node.translate = a;
                node.rotate = b;
                node.scale = c;
                Ok(())
            },
            Err(e) => Err(e),
        }
    }
}

/// Whether the channel slot `c` holds a channel whose last keyframe is at `x`.
pub open spec fn ends_at(c: Option<Channel>, x: Scalar) -> bool {
    &&& c is Some
    &&& c->Some_0.times@.len() > 0
    &&& c->Some_0.times@.last() == x
}

/// Whether one of the channels of the first `upto` nodes ends at `x`.
pub open spec fn some_channel_ends_at(
    channels: Seq<Option<NodeChannels>>,
    upto: int,
    x: Scalar,
) -> bool {
    exists|i: int|
        0 <= i < upto && #[trigger] channels[i] is Some && {
            let nc = channels[i]->Some_0;
            ends_at(nc.translation, x) || ends_at(nc.rotation, x) || ends_at(nc.scale, x)
        }
}

/// `d` is the largest last-keyframe time among the channels of the first
/// `upto` nodes, negative times included; NaN times count only when every one
/// is a NaN. `None` when those nodes have no channel.
pub open spec fn is_max_end(channels: Seq<Option<NodeChannels>>, upto: int, d: Option<Scalar>) -> bool {
    match d {
        None => forall|x: Scalar| !#[trigger] some_channel_ends_at(channels, upto, x),
        Some(d) => {
            &&& some_channel_ends_at(channels, upto, d)
            &&& forall|x: Scalar|
                #[trigger] some_channel_ends_at(channels, upto, x) ==> x.is_nan() || (!d.is_nan()
                    && x.key() <= d.key())
        },
    }
}

/// `d` is the duration of an animation with `channels`: the largest
/// last-keyframe time over every channel of every node, or 0 when no node has
/// a channel (see [`is_max_end`]).
pub open spec fn is_duration(channels: Seq<Option<NodeChannels>>, d: Scalar) -> bool {
    if exists|x: Scalar| #[trigger] some_channel_ends_at(channels, channels.len() as int, x) {
        is_max_end(channels, channels.len() as int, Some(d))
    } else {
        d.bits == 0
    }
}

/// A named set of node channels, indexed like the nodes of the tree they animate.
pub struct Animation {
    pub name: String,
    pub channels: Vec<Option<NodeChannels>>,
    /// Set by [`Animation::new`] to the largest last-keyframe time.
    pub duration: Scalar,
}

/// Every present entry is well formed.
pub open spec fn channels_wf(channels: Seq<Option<NodeChannels>>) -> bool {
    forall|i: int| 0 <= i < channels.len() ==> (#[trigger] channels[i] matches Some(nc) ==> nc.wf())
}

/// `best`, replaced by the last keyframe time of `c` when `best` is absent or
/// a NaN, or when that time is larger.
fn raise_to_end(best: Option<Scalar>, c: &Option<Channel>) -> (r: Option<Scalar>)
    requires
        slot_wf(*c),
    ensures
        r == raised(best, *c),
{
    match c {
        None => best,
        Some(c) => {
            let end = c.times[c.times.len() - 1];
            match best {
                None => Some(end),
                Some(d) => if d.is_nan_exec() || end.gt(d) {
                    Some(end)
                } else {
                    Some(d)
                },
            }
        },
    }
}

impl Animation {
    pub open spec fn wf(&self) -> bool {
        channels_wf(self.channels@)
    }

    /// Makes an animation; its duration is the largest last-keyframe time over
    /// every channel of every node, or 0 when no node has a channel.
    pub fn new(name: String, channels: Vec<Option<NodeChannels>>) -> (r: Animation)
        requires
            channels_wf(channels@),
        ensures
            r.name == name,
            r.channels@ == channels@,
            r.wf(),
            is_duration(channels@, r.duration),
    {
        let mut best: Option<Scalar> = None;
        let mut i: usize = 0;
        while i < channels.len()
            invariant
                channels_wf(channels@),
                i <= channels@.len(),
                is_max_end(channels@, i as int, best),
            decreases channels@.len() - i,
        {
            let ghost before = best;
            if let Some(nc) = &channels[i] {
                assert(nc.wf());
                let a = raise_to_end(best, &nc.translation);
                let b = raise_to_end(a, &nc.rotation);
                best = raise_to_end(b, &nc.scale);
            }
            proof {
                lemma_max_end_step(channels@, i as int, before, best);
            }
            i += 1;
        }
        let duration = match best {
            Some(d) => d,
            None => Scalar::zero(),
        };
        Animation { name, channels, duration }
    }

    pub fn duration(&self) -> (r: Scalar)
        ensures
            r == self.duration,
    {
        self.duration
    }
}

/// What [`raise_to_end`] does to the running maximum, node by node.
pub open spec fn raised(best: Option<Scalar>, c: Option<Channel>) -> Option<Scalar> {
    match c {
        None => best,
        Some(c) => match best {
            None => Some(c.times@.last()),
            Some(d) => if d.is_nan() || d.spec_lt(c.times@.last()) {
                Some(c.times@.last())
            } else {
                Some(d)
            },
        },
    }
}

proof fn lemma_max_end_step(
    channels: Seq<Option<NodeChannels>>,
    i: int,
    before: Option<Scalar>,
    after: Option<Scalar>,
)
    requires
        0 <= i < channels.len(),
        channels_wf(channels),
        is_max_end(channels, i, before),
        after == match channels[i] {
            None => before,
            Some(nc) => raised(raised(raised(before, nc.translation), nc.rotation), nc.scale),
        },
    ensures
        is_max_end(channels, i + 1, after),
{
    assert forall|x: Scalar| #[trigger]
        some_channel_ends_at(channels, i + 1, x) implies some_channel_ends_at(channels, i, x) || (
    channels[i] is Some && {
        let nc = channels[i]->Some_0;
        ends_at(nc.translation, x) || ends_at(nc.rotation, x) || ends_at(nc.scale, x)
    }) by {
        let w = choose|w: int|
            0 <= w < i + 1 && #[trigger] channels[w] is Some && {
                let nc = channels[w]->Some_0;
                ends_at(nc.translation, x) || ends_at(nc.rotation, x) || ends_at(nc.scale, x)
            };
        if w < i {
            assert(some_channel_ends_at(channels, i, x));
        }
    }
    assert forall|x: Scalar| #[trigger] some_channel_ends_at(channels, i, x) implies some_channel_ends_at(
        channels,
        i + 1,
        x,
    ) by {
        let w = choose|w: int|
            0 <= w < i && #[trigger] channels[w] is Some && {
                let nc = channels[w]->Some_0;
                ends_at(nc.translation, x) || ends_at(nc.rotation, x) || ends_at(nc.scale, x)
            };
        assert(0 <= w < i + 1);
    }
    if let Some(nc) = channels[i] {
        assert(channels[i] is Some);
        assert(nc.wf());
        if let Some(d) = after {
            if nc.scale is Some && ends_at(nc.scale, d) || nc.rotation is Some && ends_at(nc.rotation, d)
                || nc.translation is Some && ends_at(nc.translation, d) {
                assert(some_channel_ends_at(channels, i + 1, d));
            }
        }
    }
}

/// Which node property a channel drives: 0 translation, 1 rotation, 2 scale.
pub open spec fn kind_of(c: Channel) -> int {
    match c.values {
        ChannelType::Translation(_) => 0,
        ChannelType::Rotation(_) => 1,
        ChannelType::Scale(_) => 2,
    }
}

/// The index of the last of the first `k` targets that drives property `kind`
/// of node `n`; -1 when there is none.
pub open spec fn last_target(targets: Seq<(usize, Channel)>, n: int, kind: int, k: int) -> int
    decreases k,
{
    if k <= 0 {
        -1
    } else if targets[k - 1].0 == n && kind_of(targets[k - 1].1) == kind {
        k - 1
    } else {
        last_target(targets, n, kind, k - 1)
    }
}

/// The channel of `targets` that ends up driving property `kind` of node `n`:
/// the last one aimed at it.
pub open spec fn grouped(targets: Seq<(usize, Channel)>, n: int, kind: int) -> Option<Channel> {
    let i = last_target(targets, n, kind, targets.len() as int);
    if i >= 0 {
        Some(targets[i].1)
    } else {
        None
    }
}

proof fn lemma_last_target_bounds(targets: Seq<(usize, Channel)>, n: int, kind: int, k: int)
    requires
        0 <= k <= targets.len(),
    ensures
        -1 <= last_target(targets, n, kind, k) < k,
        last_target(targets, n, kind, k) >= 0 ==> {
            let i = last_target(targets, n, kind, k);
            targets[i].0 == n && kind_of(targets[i].1) == kind
        },
        forall|j: int|
            0 <= j < k && (#[trigger] targets[j]).0 == n && kind_of(targets[j].1) == kind ==> j
                <= last_target(targets, n, kind, k),
    decreases k,
{
    if k > 0 {
        lemma_last_target_bounds(targets, n, kind, k - 1);
    }
}

fn kind_exec(c: &Channel) -> (r: usize)
    ensures
        r == kind_of(*c),
{
    match c.values {
        ChannelType::Translation(_) => 0,
        ChannelType::Rotation(_) => 1,
        ChannelType::Scale(_) => 2,
    }
}

/// Gathers per-property channels aimed at nodes into one [`NodeChannels`]
/// entry per node of a tree of `node_count` nodes. When several channels
/// drive the same property of the same node, the last one is kept. Nodes that
/// no channel aims at get `None`. Fails with `MalformedHierarchy` when a
/// channel aims at a node out of range.
pub fn group_channels(node_count: usize, targets: Vec<(usize, Channel)>) -> (r: Result<
    Vec<Option<NodeChannels>>,
    AnimError,
>)
    ensures
        r is Ok <==> forall|i: int| 0 <= i < targets@.len() ==> (#[trigger] targets@[i]).0 < node_count,
        r is Ok ==> r->Ok_0@.len() == node_count && forall|n: int|
            0 <= n < node_count ==> {
                let t = grouped(targets@, n, 0);
                let q = grouped(targets@, n, 1);
                let s = grouped(targets@, n, 2);
                #[trigger] r->Ok_0@[n] == if t is None && q is None && s is None {
                    None
                } else {
                    Some(NodeChannels { translation: t, rotation: q, scale: s })
                }
            },
        r is Err ==> r->Err_0 == AnimError::MalformedHierarchy,
{
    let ghost all = targets@;
    let mut i: usize = 0;
    while i < targets.len()
        invariant
            i <= targets@.len(),
            forall|j: int| 0 <= j < i ==> (#[trigger] targets@[j]).0 < node_count,
        decreases targets@.len() - i,
    {
        if targets[i].0 >= node_count {
            return Err(AnimError::MalformedHierarchy);
        }
        i += 1;
    }
    let mut slots: Vec<Vec<Option<Channel>>> = Vec::new();
    let mut kind: usize = 0;
    while kind < 3
        invariant
            kind <= 3,
            slots@.len() == kind,
            forall|a: int, n: int|
                0 <= a < kind && 0 <= n < slots@[a]@.len() ==> #[trigger] slots@[a]@[n] is None,
            forall|a: int| 0 <= a < kind ==> (#[trigger] slots@[a])@.len() == node_count,
        decreases 3 - kind,
    {
        let mut column: Vec<Option<Channel>> = Vec::new();
        let mut n: usize = 0;
        while n < node_count
            invariant
                n <= node_count,
                column@.len() == n,
                forall|m: int| 0 <= m < n ==> #[trigger] column@[m] is None,
            decreases node_count - n,
        {
            column.push(None);
            n += 1;
        }
        slots.push(column);
        kind += 1;
    }
    let mut targets = targets;
    proof {
        assert forall|a: int, n: int| 0 <= a < 3 && 0 <= n < node_count implies #[trigger] slots@[a]@[n]
            == {
            let i = last_target(all, n, a, all.len() as int);
            if i >= targets@.len() {
                Some(all[i].1)
            } else {
                None::<Channel>
            }
        } by {
            lemma_last_target_bounds(all, n, a, all.len() as int);
        }
        assert(targets@ == all.subrange(0, targets@.len() as int));
    }
    while targets.len() > 0
        invariant
            targets@.len() <= all.len(),
            targets@ == all.subrange(0, targets@.len() as int),
            forall|j: int| 0 <= j < all.len() ==> (#[trigger] all[j]).0 < node_count,
            slots@.len() == 3,
            forall|a: int| 0 <= a < 3 ==> (#[trigger] slots@[a])@.len() == node_count,
            forall|a: int, n: int|
                0 <= a < 3 && 0 <= n < node_count ==> #[trigger] slots@[a]@[n] == {
                    let i = last_target(all, n, a, all.len() as int);
                    if i >= targets@.len() {
                        Some(all[i].1)
                    } else {
                        None::<Channel>
                    }
                },
        decreases targets@.len(),
    {
        let ghost k = targets@.len() as int;
        let (m, c) = targets.pop().unwrap();
        assert((m, c) == all[k - 1]);
        let a = kind_exec(&c);
        proof {
            lemma_last_target_bounds(all, m as int, a as int, all.len() as int);
        }
        let ghost before = slots@;
        if slots[a][m].is_none() {
            let mut column: Vec<Option<Channel>> = Vec::new();
            std::mem::swap(&mut column, &mut slots[a]);
            column.set(m, Some(c));
            std::mem::swap(&mut column, &mut slots[a]);
        }
        proof {
            assert forall|b: int, n: int| 0 <= b < 3 && 0 <= n < node_count implies #[trigger] slots@[b]@[n] == {
                let i = last_target(all, n, b, all.len() as int);
                if i >= k - 1 {
                    Some(all[i].1)
                } else {
                    None::<Channel>
                }
            } by {
                lemma_last_target_bounds(all, n, b, all.len() as int);
                let i = last_target(all, n, b, all.len() as int);
                if i == k - 1 {
                    assert(all[k - 1].0 == n && kind_of(all[k - 1].1) == b);
                }
                if b != a || n != m {
                    assert(slots@[b]@[n] == before[b]@[n]);
                }
            }
        }
    }
    let mut grouped_channels: Vec<Option<NodeChannels>> = Vec::new();
    let mut n: usize = 0;
    while n < node_count
        invariant
            n <= node_count,
            slots@.len() == 3,
            forall|a: int| 0 <= a < 3 ==> (#[trigger] slots@[a])@.len() == node_count,
            forall|a: int, p: int|
                0 <= a < 3 && n <= p < node_count ==> #[trigger] slots@[a]@[p] == grouped(all, p, a),
            grouped_channels@.len() == n,
            forall|p: int|
                0 <= p < n ==> {
                    let t = grouped(all, p, 0);
                    let q = grouped(all, p, 1);
                    let s = grouped(all, p, 2);
                    #[trigger] grouped_channels@[p] == if t is None && q is None && s is None {
                        None
                    } else {
                        Some(NodeChannels { translation: t, rotation: q, scale: s })
                    }
                },
        decreases node_count - n,
    {
        let ghost before = slots@;
        let mut t: Option<Channel> = None;
        let mut q: Option<Channel> = None;
        let mut s: Option<Channel> = None;
        std::mem::swap(&mut t, &mut slots[0][n]);
        std::mem::swap(&mut q, &mut slots[1][n]);
        std::mem::swap(&mut s, &mut slots[2][n]);
        assert(t == grouped(all, n as int, 0));
        assert(q == grouped(all, n as int, 1));
        assert(s == grouped(all, n as int, 2));
        if t.is_none() && q.is_none() && s.is_none() {
            grouped_channels.push(None);
        } else {
            grouped_channels.push(Some(NodeChannels { translation: t, rotation: q, scale: s }));
        }
        n += 1;
    }
    Ok(grouped_channels)
}

} // verus!
