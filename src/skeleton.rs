use vstd::prelude::*;

use crate::animation::{channels_wf, known, trs_meets, Animation, NodeChannels, TrsExpected};
use crate::error::AnimError;
use crate::linalg::Quat;
use crate::nodes_tree::{trs_of, Node, NodeTree, Trs};
use crate::scalar::Scalar;

verus! {

/// A skinned skeleton with the animations that can drive it.
pub struct Skeleton {
    pub nodes_tree: NodeTree,
    pub animations: Vec<Animation>,
}

/// The transform that node `i` takes at time `t` under `channels`: its
/// present channels applied to its current transform, or the current
/// transform itself when it is not animated.
pub open spec fn node_pose(
    nodes: Seq<Node>,
    channels: Seq<Option<NodeChannels>>,
    t: Scalar,
    i: int,
) -> Result<TrsExpected, AnimError> {
    node_pose_of(nodes[i], channels[i], t)
}

/// `p` is a pose that node `j` may take at time `t` under `channels`.
pub open spec fn pose_matches(
    nodes: Seq<Node>,
    channels: Seq<Option<NodeChannels>>,
    t: Scalar,
    j: int,
    p: Trs,
) -> bool {
    node_pose(nodes, channels, t, j) is Ok && trs_meets(p, node_pose(nodes, channels, t, j)->Ok_0)
}

/// What is known of the transform that `node` takes at time `t` under the
/// channels `c`.
#[verifier::opaque]
pub open spec fn node_pose_of(node: Node, c: Option<NodeChannels>, t: Scalar) -> Result<
    TrsExpected,
    AnimError,
> {
    match c {
        None => Ok(known(trs_of(node))),
        Some(nc) => nc.pose_spec(t, known(trs_of(node))),
    }
}

fn pose_node(node: &Node, c: &Option<NodeChannels>, time: Scalar) -> (r: Result<Trs, AnimError>)
    requires
        c matches Some(nc) ==> nc.wf(),
    ensures
        match node_pose_of(*node, *c, time) {
            Ok(x) => r is Ok && trs_meets(r->Ok_0, x),
            Err(e) => r == Err::<Trs, AnimError>(e),
        },
{
    reveal(node_pose_of);
    let trs = (node.translate, node.rotate, node.scale);
    match c {
        None => Ok(trs),
        Some(nc) => nc.pose(time, trs),
    }
}

/// The error of the first node, in index order, whose pose fails; `None`
/// when every node's pose succeeds.
#[verifier::opaque]
pub open spec fn first_pose_error(
    nodes: Seq<Node>,
    channels: Seq<Option<NodeChannels>>,
    t: Scalar,
) -> Option<AnimError> {
    if exists|i: int| 0 <= i < nodes.len() && #[trigger] node_pose(nodes, channels, t, i) is Err {
        let i = choose|i: int|
            0 <= i < nodes.len() && #[trigger] node_pose(nodes, channels, t, i) is Err && forall|j: int|
                0 <= j < i ==> node_pose(nodes, channels, t, j) is Ok;
        Some(node_pose(nodes, channels, t, i)->Err_0)
    } else {
        None
    }
}

/// The animation that an optional index selects: the first one by default.
pub open spec fn selected(animation_index: Option<usize>) -> int {
    match animation_index {
        Some(i) => i as int,
        None => 0,
    }
}

fn write_trs(node: &mut Node, trs: Trs)
    ensures
        final(node).parent == old(node).parent,
        final(node).name == old(node).name,
        trs_of(*final(node)) == trs,
{
    node.translate = trs.0;
    node.rotate = trs.1;
    node.scale = trs.2;
}

/// Every node's pose at `time`, or the first node's error.
fn compute_poses(nodes: &Vec<Node>, channels: &Vec<Option<NodeChannels>>, time: Scalar) -> (r: Result<
    Vec<Trs>,
    AnimError,
>)
    requires
        channels_wf(channels@),
        channels@.len() == nodes@.len(),
    ensures
        match first_pose_error(nodes@, channels@, time) {
            Some(e) => r == Err::<Vec<Trs>, AnimError>(e),
            None => r is Ok && r->Ok_0@.len() == nodes@.len() && forall|j: int|
                0 <= j < nodes@.len() ==> #[trigger] pose_matches(nodes@, channels@, time, j, r->Ok_0@[j]),
        },
{
    let mut poses: Vec<Trs> = Vec::new();
    let mut i: usize = 0;
    while i < nodes.len()
        invariant
            channels_wf(channels@),
            channels@.len() == nodes@.len(),
            i <= nodes@.len(),
            poses@.len() == i,
            forall|j: int|
                0 <= j < i ==> #[trigger] pose_matches(nodes@, channels@, time, j, poses@[j]),
        decreases nodes@.len() - i,
    {
        assert(channels@[i as int] matches Some(nc) ==> nc.wf());
        let r = pose_node(&nodes[i], &channels[i], time);
        match r {
            Ok(p) => {
                poses.push(p);
            },
            Err(e) => {
                proof {
                    lemma_first_error_at(nodes@, channels@, time, i as int, poses@);
                }
                return Err(e);
            },
        }
        i += 1;
    }
    proof {
        assert forall|j: int| 0 <= j < nodes@.len() implies !(#[trigger] node_pose(
            nodes@,
            channels@,
            time,
            j,
        ) is Err) by {
            assert(pose_matches(nodes@, channels@, time, j, poses@[j]));
        }
        reveal(first_pose_error);
    }
    Ok(poses)
}

proof fn lemma_first_error_at(
    nodes: Seq<Node>,
    channels: Seq<Option<NodeChannels>>,
    t: Scalar,
    i: int,
    poses: Seq<Trs>,
)
    requires
        0 <= i < nodes.len(),
        node_pose(nodes, channels, t, i) is Err,
        poses.len() == i,
        forall|j: int|
            0 <= j < i ==> #[trigger] pose_matches(nodes, channels, t, j, poses[j]),
    ensures
        first_pose_error(nodes, channels, t) == Some(node_pose(nodes, channels, t, i)->Err_0),
{
    reveal(first_pose_error);
    assert forall|j: int| 0 <= j < i implies node_pose(nodes, channels, t, j) is Ok by {
        assert(pose_matches(nodes, channels, t, j, poses[j]));
    }
    let w = choose|w: int|
        0 <= w < nodes.len() && #[trigger] node_pose(nodes, channels, t, w) is Err && forall|j: int|
            0 <= j < w ==> node_pose(nodes, channels, t, j) is Ok;
    if w < i {
        assert(pose_matches(nodes, channels, t, w, poses[w]));
    }
    if w > i {
        assert(node_pose(nodes, channels, t, i) is Ok);
    }
}

/// Writes each pose into its node; parents, names and the skin stay.
fn apply_poses(tree: &mut NodeTree, poses: &Vec<Trs>)
    requires
        poses@.len() == old(tree).nodes@.len(),
    ensures
        final(tree).joints_index@ == old(tree).joints_index@,
        final(tree).inverse_bind_matrices@ == old(tree).inverse_bind_matrices@,
        final(tree).nodes@.len() == old(tree).nodes@.len(),
        forall|j: int|
            0 <= j < poses@.len() ==> {
                let n = #[trigger] final(tree).nodes@[j];
                &&& n.parent == old(tree).nodes@[j].parent
                &&& n.name == old(tree).nodes@[j].name
                &&& trs_of(n) == poses@[j]
            },
{
    let ghost nodes = tree.nodes@;
    let mut k: usize = 0;
    while k < poses.len()
        invariant
            poses@.len() == nodes.len(),
            k <= poses@.len(),
            tree.nodes@.len() == nodes.len(),
            tree.joints_index@ == old(tree).joints_index@,
            tree.inverse_bind_matrices@ == old(tree).inverse_bind_matrices@,
            nodes == old(tree).nodes@,
            forall|j: int|
                0 <= j < nodes.len() ==> {
                    let n = #[trigger] tree.nodes@[j];
                    &&& n.parent == nodes[j].parent
                    &&& n.name == nodes[j].name
                    &&& trs_of(n) == if j < k {
                        poses@[j]
                    } else {
                        trs_of(nodes[j])
                    }
                },
        decreases poses@.len() - k,
    {
        write_trs(&mut tree.nodes[k], poses[k]);
        k += 1;
    }
}

impl Skeleton {
    /// The skin's arrays are parallel, and every animation is well formed and
    /// has one entry per node.
    pub open spec fn wf(&self) -> bool {
        &&& self.nodes_tree.wf()
        &&& forall|a: int|
            0 <= a < self.animations@.len() ==> {
                &&& (#[trigger] self.animations@[a]).wf()
                &&& self.animations@[a].channels@.len() == self.nodes_tree.nodes@.len()
            }
    }

    /// Poses the skeleton with the selected animation (the first when
    /// `animation_index` is `None`) at `time`, and returns every joint's packed
    /// skinning transform. Time is not wrapped around the duration.
    ///
    /// Fails with `AnimationIndexOutOfRange` when the animation does not exist,
    /// and with the first failing node's error when a channel cannot be
    /// evaluated; in both cases the skeleton is left as it was. Otherwise every
    /// animated node takes its new transform, and packing the joints may still
    /// fail with `MalformedHierarchy`.
    pub fn render_animation(&mut self, time: Scalar, animation_index: Option<usize>) -> (r: Result<
        Vec<[Quat; 2]>,
        AnimError,
    >)
        requires
            old(self).wf(),
        ensures
            final(self).wf(),
            final(self).animations@ == old(self).animations@,
            final(self).nodes_tree.joints_index@ == old(self).nodes_tree.joints_index@,
            final(self).nodes_tree.inverse_bind_matrices@ == old(self).nodes_tree.inverse_bind_matrices@,
            selected(animation_index) >= old(self).animations@.len() ==> r == Err::<
                Vec<[Quat; 2]>,
                AnimError,
            >(AnimError::AnimationIndexOutOfRange) && final(self).nodes_tree.nodes@ == old(
                self,
            ).nodes_tree.nodes@,
            selected(animation_index) < old(self).animations@.len() ==> {
                let nodes = old(self).nodes_tree.nodes@;
                let channels = old(self).animations@[selected(animation_index)].channels@;
                match first_pose_error(nodes, channels, time) {
                    Some(e) => r == Err::<Vec<[Quat; 2]>, AnimError>(e)
                        && final(self).nodes_tree.nodes@ == nodes,
                    None => {
                        &&& final(self).nodes_tree.nodes@.len() == nodes.len()
                        &&& forall|i: int|
                            0 <= i < nodes.len() ==> {
                                let n = #[trigger] final(self).nodes_tree.nodes@[i];
                                &&& n.parent == nodes[i].parent
                                &&& n.name == nodes[i].name
                                &&& pose_matches(nodes, channels, time, i, trs_of(n))
                            }
                        &&& final(self).nodes_tree.packs_joints(r)
                    },
                }
            },
    {
        let index = match animation_index {
            Some(i) => i,
            None => 0,
        };
        if index >= self.animations.len() {
            return Err(AnimError::AnimationIndexOutOfRange);
        }
        let poses = match compute_poses(&self.nodes_tree.nodes, &self.animations[index].channels, time) {
            Ok(p) => p,
            Err(e) => {
                return Err(e);
            },
        };
        apply_poses(&mut self.nodes_tree, &poses);
        self.nodes_tree.get_joints_double_quat()
    }
}

} // verus!
