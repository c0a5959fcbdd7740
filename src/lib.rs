//! Skeletal animation core: a node hierarchy with local and global transforms,
//! keyframe channels sampled with step, linear and cubic-spline interpolation,
//! and the per-joint skinning transforms that a vertex shader consumes.
//!
//! Real numbers are IEEE-754 single-precision values, held as bit patterns:
//! [`Scalar`] for one number, and the vector, quaternion and matrix types of
//! [`linalg`] for several. Every floating-point operation is left to `glam` and
//! to the processor. What is proved is the logic around them: which keyframes
//! are chosen, which formula is applied to which operands, how transforms
//! compose along the hierarchy, and when each error is reported. Results are
//! stated up to the payload of NaN components, which floating-point arithmetic
//! leaves open.

pub mod animation;
pub mod error;
pub mod image;
pub mod linalg;
pub mod nodes_tree;
pub mod scalar;
pub mod skeleton;

pub use animation::{
    group_channels, Animation, Channel, ChannelType, ChannelValue, InterpolationType, NodeChannels,
};
pub use error::AnimError;
pub use image::{rgb_to_rgba, ImageData};
pub use linalg::{Mat4, Quat, Vec3};
pub use nodes_tree::{
    create_nodes_tree_from_joints, find_a_false, lemma_root_global_is_local, Node, NodeDesc, NodeTree,
};
pub use scalar::Scalar;
pub use skeleton::Skeleton;

