use vstd::prelude::*;

verus! {

/// Why an evaluation or a load step could not be carried out.
#[derive(Clone, Copy, Debug, PartialEq, Eq, Structural)]
pub enum AnimError {
    /// A node, parent or joint index is out of range, a parent chain has a
    /// cycle, or the skin's arrays are not parallel.
    MalformedHierarchy,
    /// A channel's value count does not match its keyframe count, or it has no keyframe.
    ChannelShapeMismatch,
    /// Two adjacent keyframes of a cubic-spline channel share their timestamp.
    DegenerateKeyframeInterval,
    /// Cubic-spline interpolation of a rotation channel, which is not supported.
    UnsupportedInterpolation,
    /// The requested animation does not exist.
    AnimationIndexOutOfRange,
}

} // verus!
