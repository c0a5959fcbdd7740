use vstd::prelude::*;

use crate::error::AnimError;
use crate::linalg::{
    mat4_from_quat, mat4_mul, mul_mat4, quat_from_mat4, quat_product, quat_scale, rotation_matrix,
    rotation_of, scale_quat, scale_seq, translation_quat_seq, translation_seq, Mat4, Quat, Vec3,
};
use crate::scalar::{Scalar, HALF_BITS};

verus! {

/// One transform node of the hierarchy.
#[derive(Debug)]
pub struct Node {
    /// The index of the parent node in the same tree, if any.
    pub parent: Option<usize>,
    pub name: String,
    pub translate: Vec3,
    pub rotate: Quat,
    pub scale: Vec3,
}

/// A node's translation, rotation and scale.
pub type Trs = (Vec3, Quat, Vec3);

pub open spec fn trs_of(n: Node) -> Trs {
    (n.translate, n.rotate, n.scale)
}

/// The arena of nodes, with the skin: for each joint slot the node it follows
/// and its inverse bind matrix.
pub struct NodeTree {
    pub nodes: Vec<Node>,
    pub joints_index: Vec<usize>,
    pub inverse_bind_matrices: Vec<Mat4>,
}

/// The local transform of a node: translation, then rotation, then scale, with
/// the scale innermost.
pub open spec fn local_of(n: Node) -> Seq<u32> {
    mat4_mul(mat4_mul(translation_seq(n.translate@), mat4_from_quat(n.rotate@)), scale_seq(n.scale@))
}

/// The global transform of node `i` when its chain of ancestors, `i` included,
/// has at most `fuel` nodes and stays inside the arena; `None` otherwise.
pub open spec fn global_within(nodes: Seq<Node>, i: int, fuel: nat) -> Option<Seq<u32>>
    decreases fuel,
{
    if fuel == 0 || !(0 <= i < nodes.len()) {
        None
    } else {
        match nodes[i].parent {
            None => Some(local_of(nodes[i])),
            Some(p) => match global_within(nodes, p as int, (fuel - 1) as nat) {
                Some(g) => Some(mat4_mul(g, local_of(nodes[i]))),
                None => None,
            },
        }
    }
}

/// The global transform of node `i`: its parent's global transform times its
/// local transform. `None` when `i` or an ancestor's parent index is out of
/// range, or when the chain of ancestors has a cycle (a chain without one
/// visits each node at most once).
pub open spec fn global_of(nodes: Seq<Node>, i: int) -> Option<Seq<u32>> {
    global_within(nodes, i, nodes.len())
}

/// What the importer knows of a node: its name, its decomposed local
/// transform, and the indices of its children.
pub struct NodeDesc {
    pub name: String,
    pub translate: Vec3,
    pub rotate: Quat,
    pub scale: Vec3,
    pub children: Vec<usize>,
}

/// The nodes that descriptions `descs` stand for, before any animation: each
/// node's parent is the last description whose child list names it.
pub open spec fn nodes_from(descs: Seq<NodeDesc>) -> Seq<Node> {
    Seq::new(
        descs.len(),
        |i: int|
            Node {
                parent: last_parent(descs, i, descs.len() as int),
                name: descs[i].name,
                translate: descs[i].translate,
                rotate: descs[i].rotate,
                scale: descs[i].scale,
            },
    )
}

/// Among the first `k` descriptions, the last one whose child list names `c`.
pub open spec fn last_parent(descs: Seq<NodeDesc>, c: int, k: int) -> Option<usize>
    decreases k,
{
    if k <= 0 {
        None
    } else if descs[k - 1].children@.contains(c as usize) {
        Some((k - 1) as usize)
    } else {
        last_parent(descs, c, k - 1)
    }
}

/// The number of ancestors of node `i` when its chain of ancestors, `i`
/// included, has at most `fuel` nodes and stays inside the arena; `None` otherwise.
pub open spec fn depth_within(nodes: Seq<Node>, i: int, fuel: nat) -> Option<nat>
    decreases fuel,
{
    if fuel == 0 || !(0 <= i < nodes.len()) {
        None
    } else {
        match nodes[i].parent {
            None => Some(0),
            Some(p) => match depth_within(nodes, p as int, (fuel - 1) as nat) {
                Some(d) => Some(d + 1),
                None => None,
            },
        }
    }
}

/// The number of ancestors of node `i`; `None` under the same conditions as [`global_of`].
pub open spec fn depth_of(nodes: Seq<Node>, i: int) -> Option<nat> {
    depth_within(nodes, i, nodes.len())
}

proof fn lemma_depth_more_fuel(nodes: Seq<Node>, i: int, fuel: nat)
    requires
        depth_within(nodes, i, fuel) is Some,
    ensures
        depth_within(nodes, i, fuel + 1) == depth_within(nodes, i, fuel),
    decreases fuel,
{
    if let Some(p) = nodes[i].parent {
        lemma_depth_more_fuel(nodes, p as int, (fuel - 1) as nat);
    }
}

proof fn lemma_depth_gives_global(nodes: Seq<Node>, i: int, fuel: nat)
    requires
        depth_within(nodes, i, fuel) is Some,
    ensures
        global_within(nodes, i, fuel) is Some,
    decreases fuel,
{
    if let Some(p) = nodes[i].parent {
        lemma_depth_gives_global(nodes, p as int, (fuel - 1) as nat);
    }
}

/// A node with a depth whose parent is `p` has a parent with a depth one less.
proof fn lemma_parent_depth(nodes: Seq<Node>, i: int)
    requires
        depth_of(nodes, i) is Some,
        nodes[i].parent is Some,
    ensures
        ({
            let p = nodes[i].parent->Some_0 as int;
            &&& 0 <= p < nodes.len()
            &&& depth_of(nodes, p) is Some
            &&& depth_of(nodes, p)->Some_0 + 1 == depth_of(nodes, i)->Some_0
        }),
{
    let p = nodes[i].parent->Some_0 as int;
    lemma_depth_more_fuel(nodes, p, (nodes.len() - 1) as nat);
}

/// Whether node `i` stands in a `(depth, node)` listing.
pub open spec fn listed(list: Seq<(usize, usize)>, i: int) -> bool {
    exists|k: int| 0 <= k < list.len() && list[k].1 == i
}

/// The packed form of a rigid transform `m`: its rotation quaternion `r`, and
/// the dual part `0.5 * t * r`, where `t` is the pure quaternion of the
/// translation column of `m`. Scale and shear in `m` are not represented.
pub open spec fn dual_quat_of(m: Seq<u32>) -> (Seq<u32>, Seq<u32>) {
    let r = quat_from_mat4(m);
    (r, quat_scale(quat_product(translation_quat_seq(m), r), Scalar { bits: HALF_BITS }))
}

impl NodeTree {
    /// One inverse bind matrix per joint slot.
    pub open spec fn wf(&self) -> bool {
        self.inverse_bind_matrices@.len() == self.joints_index@.len()
    }

    /// The skinning matrix of joint slot `j`: the global transform of the joint's
    /// node times the joint's inverse bind matrix.
    pub open spec fn joint_of(&self, j: int) -> Option<Seq<u32>> {
        match global_of(self.nodes@, self.joints_index@[j] as int) {
            Some(g) => Some(mat4_mul(g, self.inverse_bind_matrices@[j]@)),
            None => None,
        }
    }

    /// `r` is what [`NodeTree::get_joints_double_quat`] owes: every joint's
    /// skinning matrix packed by [`dual_quat_of`], in slot order, or
    /// `MalformedHierarchy` when a joint's global transform does not exist.
    pub open spec fn packs_joints(&self, r: Result<Vec<[Quat; 2]>, AnimError>) -> bool {
        &&& r is Ok <==> forall|j: int| 0 <= j < self.joints_index@.len() ==> self.joint_of(j) is Some
        &&& r is Ok ==> r->Ok_0@.len() == self.joints_index@.len() && forall|j: int|
            0 <= j < self.joints_index@.len() ==> {
                let (a, b) = dual_quat_of(self.joint_of(j)->Some_0);
                (#[trigger] r->Ok_0@[j])@[0]@ == a && r->Ok_0@[j]@[1]@ == b
            }
        &&& r is Err ==> r->Err_0 == AnimError::MalformedHierarchy
    }

    fn depth_within(&self, node_index: usize, fuel: usize) -> (r: Option<usize>)
        ensures
            match depth_within(self.nodes@, node_index as int, fuel as nat) {
                Some(d) => r == Some(d as usize) && d < fuel,
                None => r is None,
            },
        decreases fuel,
    {
        if fuel == 0 || node_index >= self.nodes.len() {
            return None;
        }
        match self.nodes[node_index].parent {
            None => Some(0),
            Some(p) => match self.depth_within(p, fuel - 1) {
                Some(d) => Some(d + 1),
                None => None,
            },
        }
    }

    /// Every node with its depth, as `(depth, node)` pairs, in the order of a
    /// listing that puts each node after its parent: nodes are taken by
    /// increasing index, each preceded by those of its ancestors not yet
    /// listed. Fails with `MalformedHierarchy` when a parent index is out of
    /// range or the ancestors of a node form a cycle.
    pub fn hierarchy(&self) -> (r: Result<Vec<(usize, usize)>, AnimError>)
        ensures
            r is Ok <==> forall|i: int| 0 <= i < self.nodes@.len() ==> depth_of(self.nodes@, i) is Some,
            r is Err ==> r->Err_0 == AnimError::MalformedHierarchy,
            r is Ok ==> {
                let list = r->Ok_0@;
                &&& forall|i: int| 0 <= i < self.nodes@.len() ==> #[trigger] listed(list, i)
                &&& forall|k: int|
                    0 <= k < list.len() ==> {
                        let (level, i) = #[trigger] list[k];
                        &&& i < self.nodes@.len()
                        &&& depth_of(self.nodes@, i as int) == Some(level as nat)
                        &&& self.nodes@[i as int].parent matches Some(p) ==> exists|j: int|
                            0 <= j < k && #[trigger] list[j].1 == p
                    }
                &&& forall|k: int, j: int|
                    0 <= k < j < list.len() ==> (#[trigger] list[k]).1 != (#[trigger] list[j]).1
            },
    {
        let n = self.nodes.len();
        let ghost nodes = self.nodes@;
        let mut depths: Vec<usize> = Vec::new();
        let mut i: usize = 0;
        while i < n
            invariant
                n == nodes.len(),
                nodes == self.nodes@,
                i <= n,
                depths@.len() == i,
                forall|k: int| 0 <= k < i ==> depth_of(nodes, k) == Some(#[trigger] depths@[k] as nat),
            decreases n - i,
        {
            match self.depth_within(i, n) {
                Some(d) => {
                    depths.push(d);
                },
                None => {
                    assert(!(depth_of(nodes, i as int) is Some));
                    return Err(AnimError::MalformedHierarchy);
                },
            }
            i += 1;
        }
        assert(forall|k: int| 0 <= k < n ==> depth_of(nodes, k) is Some) by {
            assert forall|k: int| 0 <= k < n implies depth_of(nodes, k) is Some by {
                assert(depth_of(nodes, k) == Some(depths@[k] as nat));
            }
        }
        assert forall|i: int| 0 <= i < n && (#[trigger] nodes[i]).parent is Some implies nodes[i].parent->Some_0
            < n by {
            lemma_parent_depth(nodes, i);
        }
        let mut visited: Vec<bool> = Vec::new();
        let mut k: usize = 0;
        while k < n
            invariant
                k <= n,
                visited@.len() == k,
                forall|j: int| 0 <= j < k ==> !#[trigger] visited@[j],
            decreases n - k,
        {
            visited.push(false);
            k += 1;
        }
        let mut list: Vec<(usize, usize)> = Vec::new();
        let ghost mut pos: Seq<int> = Seq::new(n as nat, |j: int| 0);
        let mut r: usize = 0;
        while r < n
            invariant
                n == nodes.len(),
                nodes == self.nodes@,
                depths@.len() == n,
                forall|k: int| 0 <= k < n ==> depth_of(nodes, k) == Some(#[trigger] depths@[k] as nat),
                forall|i: int| 0 <= i < n && (#[trigger] nodes[i]).parent is Some ==> nodes[i].parent->Some_0 < n,
                visited@.len() == n,
                pos.len() == n,
                r <= n,
                forall|j: int| 0 <= j < r ==> #[trigger] visited@[j],
                forall|j: int|
                    0 <= j < n && #[trigger] visited@[j] ==> 0 <= pos[j] < list@.len() && list@[pos[j]].1
                        == j,
                forall|k: int|
                    0 <= k < list@.len() ==> {
                        let (level, i) = #[trigger] list@[k];
                        &&& i < n
                        &&& visited@[i as int]
                        &&& pos[i as int] == k
                        &&& level == depths@[i as int]
                        &&& nodes[i as int].parent matches Some(p) ==> visited@[p as int] && pos[p as int]
                            < k
                    },
            decreases n - r,
        {
            if !visited[r] {
                let mut chain: Vec<usize> = Vec::new();
                chain.push(r);
                let mut cur: usize = r;
                loop
                    invariant
                        n == nodes.len(),
                        nodes == self.nodes@,
                        depths@.len() == n,
                        forall|k: int| 0 <= k < n ==> depth_of(nodes, k) == Some(#[trigger] depths@[k] as nat),
                        visited@.len() == n,
                        r < n,
                        chain@.len() >= 1,
                        chain@[0] == r,
                        cur == chain@.last(),
                        forall|j: int| 0 <= j < chain@.len() ==> #[trigger] chain@[j] < n,
                        forall|j: int| 0 <= j < chain@.len() ==> !visited@[#[trigger] chain@[j] as int],
                        forall|j: int|
                            0 <= j < chain@.len() ==> depths@[#[trigger] chain@[j] as int] + j == depths@[r as int],
                        forall|j: int|
                            0 <= j < chain@.len() - 1 ==> nodes[#[trigger] chain@[j] as int].parent == Some(
                                chain@[j + 1],
                            ),
                    ensures
                        nodes[chain@.last() as int].parent matches Some(p) ==> visited@[p as int],
                    decreases depths@[cur as int],
                {
                    match self.nodes[cur].parent {
                        Some(p) => {
                            proof {
                                assert(depth_of(nodes, cur as int) == Some(depths@[cur as int] as nat));
                                lemma_parent_depth(nodes, cur as int);
                                assert(depth_of(nodes, p as int) == Some(depths@[p as int] as nat));
                            }
                            if visited[p] {
                                break;
                            }
                            chain.push(p);
                            cur = p;
                        },
                        None => {
                            break;
                        },
                    }
                }
                proof {
                    assert forall|a: int, b: int| 0 <= a < b < chain@.len() implies chain@[a] != chain@[b] by {
                        assert(depths@[chain@[a] as int] + a == depths@[r as int]);
                        assert(depths@[chain@[b] as int] + b == depths@[r as int]);
                    }
                }
                let mut c: usize = chain.len();
                while c > 0
                    invariant
                        n == nodes.len(),
                        nodes == self.nodes@,
                        depths@.len() == n,
                        forall|k: int| 0 <= k < n ==> depth_of(nodes, k) == Some(#[trigger] depths@[k] as nat),
                        forall|i: int| 0 <= i < n && (#[trigger] nodes[i]).parent is Some ==> nodes[i].parent->Some_0 < n,
                        visited@.len() == n,
                        pos.len() == n,
                        r < n,
                        forall|j: int| 0 <= j < r ==> #[trigger] visited@[j],
                        c <= chain@.len(),
                        chain@.len() >= 1,
                        chain@[0] == r,
                        forall|j: int| 0 <= j < chain@.len() ==> #[trigger] chain@[j] < n,
                        forall|a: int, b: int| 0 <= a < b < chain@.len() ==> chain@[a] != chain@[b],
                        forall|j: int| 0 <= j < c ==> !visited@[#[trigger] chain@[j] as int],
                        forall|j: int| c <= j < chain@.len() ==> visited@[#[trigger] chain@[j] as int],
                        forall|j: int|
                            0 <= j < chain@.len() - 1 ==> nodes[#[trigger] chain@[j] as int].parent == Some(
                                chain@[j + 1],
                            ),
                        nodes[chain@.last() as int].parent matches Some(p) ==> (c == chain@.len() ==> visited@[p as int]),
                        forall|j: int|
                            0 <= j < n && #[trigger] visited@[j] ==> 0 <= pos[j] < list@.len() && list@[pos[j]].1
                                == j,
                        forall|k: int|
                            0 <= k < list@.len() ==> {
                                let (level, i) = #[trigger] list@[k];
                                &&& i < n
                                &&& visited@[i as int]
                                &&& pos[i as int] == k
                                &&& level == depths@[i as int]
                                &&& nodes[i as int].parent matches Some(p) ==> visited@[p as int] && pos[p as int]
                                    < k
                            },
                    decreases c,
                {
                    c -= 1;
                    let node = chain[c];
                    let ghost first = c + 1 == chain@.len();
                    let ghost old_list = list@;
                    let ghost old_visited = visited@;
                    list.push((depths[node], node));
                    visited.set(node, true);
                    proof {
                        pos = pos.update(node as int, list@.len() - 1);
                        assert forall|k: int| 0 <= k < old_list.len() implies list@[k] == old_list[k]
                            && list@[k].1 != node by {
                            assert(old_visited[old_list[k].1 as int]);
                        }
                        if let Some(p) = nodes[node as int].parent {
                            if first {
                                assert(old_visited[p as int]);
                            } else {
                                assert(nodes[chain@[c as int] as int].parent == Some(chain@[c + 1]));
                                assert(old_visited[chain@[c + 1] as int]);
                            }
                            assert(p != node);
                            assert(pos[p as int] < old_list.len());
                        }
                        assert(list@[old_list.len() as int] == (depths@[node as int], node));
                    }
                }
            }
            r += 1;
        }
        proof {
            assert forall|i: int| 0 <= i < n implies #[trigger] listed(list@, i) by {
                assert(visited@[i]);
                assert(list@[pos[i]].1 == i);
            }
            assert forall|k: int| 0 <= k < list@.len() implies {
                let (level, i) = #[trigger] list@[k];
                &&& i < n
                &&& depth_of(nodes, i as int) == Some(level as nat)
                &&& nodes[i as int].parent matches Some(p) ==> exists|j: int| 0 <= j < k && #[trigger] list@[j].1 == p
            } by {
                let i = list@[k].1;
                assert(depth_of(nodes, i as int) == Some(depths@[i as int] as nat));
                if let Some(p) = nodes[i as int].parent {
                    assert(list@[pos[p as int]].1 == p);
                }
            }
            assert forall|a: int, b: int| 0 <= a < b < list@.len() implies (#[trigger] list@[a]).1
                != (#[trigger] list@[b]).1 by {
                assert(pos[list@[a].1 as int] == a);
                assert(pos[list@[b].1 as int] == b);
            }
        }
        Ok(list)
    }

    pub fn len(&self) -> (r: usize)
        ensures
            r == self.nodes@.len(),
    {
        self.nodes.len()
    }

    pub fn get_local_transform(&self, node_index: usize) -> (r: Mat4)
        requires
            node_index < self.nodes@.len(),
        ensures
            r@ == local_of(self.nodes@[node_index as int]),
    {
        let node = &self.nodes[node_index];
        mul_mat4(
            mul_mat4(Mat4::from_translation(node.translate), rotation_matrix(node.rotate)),
            Mat4::from_scale(node.scale),
        )
    }

    fn global_within(&self, node_index: usize, fuel: usize) -> (r: Option<Mat4>)
        ensures
            match global_within(self.nodes@, node_index as int, fuel as nat) {
                Some(g) => r is Some && r->Some_0@ == g,
                None => r is None,
            },
        decreases fuel,
    {
        if fuel == 0 || node_index >= self.nodes.len() {
            return None;
        }
        match self.nodes[node_index].parent {
            None => Some(self.get_local_transform(node_index)),
            Some(p) => match self.global_within(p, fuel - 1) {
                Some(g) => Some(mul_mat4(g, self.get_local_transform(node_index))),
                None => None,
            },
        }
    }

    /// The global transform of a node, or `MalformedHierarchy` when the node or
    /// one of its ancestors' parents is out of range or the ancestors form a cycle.
    pub fn get_global_transform(&self, node_index: usize) -> (r: Result<Mat4, AnimError>)
        ensures
            match global_of(self.nodes@, node_index as int) {
                Some(g) => r is Ok && r->Ok_0@ == g,
                None => r == Err::<Mat4, AnimError>(AnimError::MalformedHierarchy),
            },
    {
        match self.global_within(node_index, self.nodes.len()) {
            Some(g) => Ok(g),
            None => Err(AnimError::MalformedHierarchy),
        }
    }

    /// The skinning matrix of every joint slot, in slot order.
    pub fn get_joints(&self) -> (r: Result<Vec<Mat4>, AnimError>)
        requires
            self.wf(),
        ensures
            r is Ok <==> forall|j: int| 0 <= j < self.joints_index@.len() ==> self.joint_of(j) is Some,
            r is Ok ==> r->Ok_0@.len() == self.joints_index@.len() && forall|j: int|
                0 <= j < self.joints_index@.len() ==> self.joint_of(j) == Some((#[trigger] r->Ok_0@[j])@),
            r is Err ==> r->Err_0 == AnimError::MalformedHierarchy,
    {
        let mut joints: Vec<Mat4> = Vec::new();
        let mut j: usize = 0;
        while j < self.joints_index.len()
            invariant
                self.wf(),
                j <= self.joints_index@.len(),
                joints@.len() == j,
                forall|k: int| 0 <= k < j ==> self.joint_of(k) == Some((#[trigger] joints@[k])@),
            decreases self.joints_index@.len() - j,
        {
            match self.get_global_transform(self.joints_index[j]) {
                Ok(g) => {
                    joints.push(mul_mat4(g, self.inverse_bind_matrices[j]));
                },
                Err(e) => {
                    assert(self.joint_of(j as int) is None);
                    return Err(e);
                },
            }
            j += 1;
        }
        assert forall|k: int| 0 <= k < self.joints_index@.len() implies self.joint_of(k) is Some by {
            assert(self.joint_of(k) == Some(joints@[k]@));
        }
        Ok(joints)
    }

    /// Each joint's skinning transform packed as a pair of quaternions (see
    /// [`dual_quat_of`]), in slot order. The packing assumes rigid joint
    /// transforms: scale and shear are dropped, not reported.
    pub fn get_joints_double_quat(&self) -> (r: Result<Vec<[Quat; 2]>, AnimError>)
        requires
            self.wf(),
        ensures
            self.packs_joints(r),
    {
        let mats = match self.get_joints() {
            Ok(m) => m,
            Err(e) => {
                return Err(e);
            },
        };
        let mut joints: Vec<[Quat; 2]> = Vec::new();
        let mut j: usize = 0;
        while j < mats.len()
            invariant
                mats@.len() == self.joints_index@.len(),
                forall|k: int| 0 <= k < mats@.len() ==> self.joint_of(k) == Some((#[trigger] mats@[k])@),
                j <= mats@.len(),
                joints@.len() == j,
                forall|k: int| 0 <= k < j ==> {
                    let (a, b) = dual_quat_of(mats@[k]@);
                    (#[trigger] joints@[k])@[0]@ == a && joints@[k]@[1]@ == b
                },
            decreases mats@.len() - j,
        {
            let rot = rotation_of(&mats[j]);
            let pure = Quat::from_translation_of(&mats[j]);
            let dual = scale_quat(pure.product(rot), Scalar::from_bits(HALF_BITS));
            let pair = [rot, dual];
            assert(pair@ == seq![rot, dual]);
            joints.push(pair);
            j += 1;
        }
        assert forall|k: int| 0 <= k < self.joints_index@.len() implies {
            let (a, b) = dual_quat_of(self.joint_of(k)->Some_0);
            (#[trigger] joints@[k])@[0]@ == a && joints@[k]@[1]@ == b
        } by {
            assert(self.joint_of(k) == Some(mats@[k]@));
        }
        Ok(joints)
    }
}

/// The global transform of a node without a parent is its local transform.
pub proof fn lemma_root_global_is_local(tree: &NodeTree, i: usize)
    requires
        i < tree.nodes@.len(),
        tree.nodes@[i as int].parent is None,
    ensures
        global_of(tree.nodes@, i as int) == Some(local_of(tree.nodes@[i as int])),
{
}

/// The skinning matrix of a joint slot is the global transform of the joint's
/// node times the slot's inverse bind matrix, whenever that global transform exists.
pub proof fn lemma_joint_is_global_times_inverse_bind(tree: &NodeTree, j: int)
    requires
        tree.wf(),
        0 <= j < tree.joints_index@.len(),
        global_of(tree.nodes@, tree.joints_index@[j] as int) is Some,
    ensures
        tree.joint_of(j) == Some(
            mat4_mul(
                global_of(tree.nodes@, tree.joints_index@[j] as int)->Some_0,
                tree.inverse_bind_matrices@[j]@,
            ),
        ),
{
}

/// Builds the tree from the importer's node list: each node's parent is the
/// last node whose child list names it. Fails with `MalformedHierarchy` when a
/// child or joint index is out of range, the skin's arrays differ in length,
/// or the parent links form a cycle; so every node of a built tree has a
/// global transform.
pub fn create_nodes_tree_from_joints(
    joints: Vec<usize>,
    nodes: Vec<NodeDesc>,
    inverse_bind_matrices: Vec<Mat4>,
) -> (r: Result<NodeTree, AnimError>)
    ensures
        r is Ok <==> {
            &&& forall|p: int, k: int|
                0 <= p < nodes@.len() && 0 <= k < nodes@[p].children@.len() ==> #[trigger] nodes@[p].children@[k]
                    < nodes@.len()
            &&& forall|j: int| 0 <= j < joints@.len() ==> #[trigger] joints@[j] < nodes@.len()
            &&& inverse_bind_matrices@.len() == joints@.len()
            &&& forall|i: int| 0 <= i < nodes@.len() ==> #[trigger] depth_of(nodes_from(nodes@), i) is Some
        },
        r is Ok ==> {
            let t = r->Ok_0;
            &&& t.wf()
            &&& t.joints_index@ == joints@
            &&& t.inverse_bind_matrices@ == inverse_bind_matrices@
            &&& t.nodes@ == nodes_from(nodes@)
            &&& forall|i: int| 0 <= i < nodes@.len() ==> #[trigger] global_of(t.nodes@, i) is Some
        },
        r is Err ==> r->Err_0 == AnimError::MalformedHierarchy,
{
    let n = nodes.len();
    let mut parents: Vec<Option<usize>> = Vec::new();
    let mut c: usize = 0;
    while c < n
        invariant
            c <= n,
            parents@.len() == c,
            forall|k: int| 0 <= k < c ==> #[trigger] parents@[k] is None,
        decreases n - c,
    {
        parents.push(None);
        c += 1;
    }
    let mut p: usize = 0;
    while p < n
        invariant
            n == nodes@.len(),
            p <= n,
            parents@.len() == n,
            forall|c: int| 0 <= c < n ==> #[trigger] parents@[c] == last_parent(nodes@, c, p as int),
            forall|q: int, k: int|
                0 <= q < p && 0 <= k < nodes@[q].children@.len() ==> #[trigger] nodes@[q].children@[k] < n,
        decreases n - p,
    {
        let children = &nodes[p].children;
        let mut k: usize = 0;
        while k < children.len()
            invariant
                n == nodes@.len(),
                p < n,
                children == nodes@[p as int].children,
                k <= children@.len(),
                parents@.len() == n,
                forall|c: int|
                    0 <= c < n ==> #[trigger] parents@[c] == if children@.subrange(0, k as int).contains(
                        c as usize,
                    ) {
                        Some(p)
                    } else {
                        last_parent(nodes@, c, p as int)
                    },
                forall|q: int, k: int|
                    0 <= q < p && 0 <= k < nodes@[q].children@.len() ==> #[trigger] nodes@[q].children@[k] < n,
                forall|i: int| 0 <= i < k ==> #[trigger] children@[i] < n,
            decreases children@.len() - k,
        {
            let child = children[k];
            if child >= n {
                return Err(AnimError::MalformedHierarchy);
            }
            let ghost before = parents@;
            parents.set(child, Some(p));
            proof {
                assert forall|c: int| 0 <= c < n implies #[trigger] parents@[c] == if children@.subrange(
                    0,
                    k + 1,
                ).contains(c as usize) {
                    Some(p)
                } else {
                    last_parent(nodes@, c, p as int)
                } by {
                    let prefix = children@.subrange(0, k as int);
                    assert(children@.subrange(0, k + 1) == prefix.push(child));
                    assert(prefix.push(child).contains(c as usize) == (prefix.contains(c as usize) || c
                        == child)) by {
                        if prefix.push(child).contains(c as usize) {
                            let w = choose|w: int| 0 <= w < prefix.len() + 1 && prefix.push(child)[w] == c as usize;
                            if w < prefix.len() {
                                assert(prefix[w] == c as usize);
                            }
                        }
                        if prefix.contains(c as usize) {
                            let w = choose|w: int| 0 <= w < prefix.len() && prefix[w] == c as usize;
                            assert(prefix.push(child)[w] == c as usize);
                        }
                        if c == child {
                            assert(prefix.push(child)[prefix.len() as int] == c as usize);
                        }
                    }
                    if c != child {
                        assert(parents@[c] == before[c]);
                    }
                }
            }
            k += 1;
        }
        proof {
            assert(children@.subrange(0, k as int) == children@);
        }
        p += 1;
    }
    let mut j: usize = 0;
    while j < joints.len()
        invariant
            n == nodes@.len(),
            j <= joints@.len(),
            forall|i: int| 0 <= i < j ==> #[trigger] joints@[i] < n,
        decreases joints@.len() - j,
    {
        if joints[j] >= n {
            return Err(AnimError::MalformedHierarchy);
        }
        j += 1;
    }
    if inverse_bind_matrices.len() != joints.len() {
        return Err(AnimError::MalformedHierarchy);
    }
    let mut tree: Vec<Node> = Vec::new();
    let mut i: usize = 0;
    while i < n
        invariant
            n == nodes@.len(),
            parents@.len() == n,
            forall|c: int| 0 <= c < n ==> #[trigger] parents@[c] == last_parent(nodes@, c, n as int),
            i <= n,
            tree@.len() == i,
            forall|q: int|
                0 <= q < i ==> {
                    let (t, d) = (#[trigger] tree@[q], nodes@[q]);
                    &&& t.parent == last_parent(nodes@, q, n as int)
                    &&& t.name == d.name
                    &&& t.translate == d.translate
                    &&& t.rotate == d.rotate
                    &&& t.scale == d.scale
                },
        decreases n - i,
    {
        let d = &nodes[i];
        tree.push(
            Node {
                parent: parents[i],
                name: d.name.clone(),
                translate: d.translate,
                rotate: d.rotate,
                scale: d.scale,
            },
        );
        i += 1;
    }
    assert(tree@ =~= nodes_from(nodes@));
    let t = NodeTree { nodes: tree, joints_index: joints, inverse_bind_matrices };
    let mut i: usize = 0;
    while i < n
        invariant
            n == t.nodes@.len(),
            t.nodes@ == nodes_from(nodes@),
            i <= n,
            forall|k: int| 0 <= k < i ==> #[trigger] depth_of(t.nodes@, k) is Some,
        decreases n - i,
    {
        if t.depth_within(i, n).is_none() {
            assert(!(depth_of(nodes_from(nodes@), i as int) is Some));
            return Err(AnimError::MalformedHierarchy);
        }
        i += 1;
    }
    proof {
        assert forall|k: int| 0 <= k < n implies #[trigger] global_of(t.nodes@, k) is Some by {
            assert(depth_of(t.nodes@, k) is Some);
            lemma_depth_gives_global(t.nodes@, k, n as nat);
        }
    }
    Ok(t)
}

/// The first index whose flag is not set, if any.
pub fn find_a_false(visited: &Vec<bool>) -> (r: Option<usize>)
    ensures
        match r {
            Some(i) => i < visited@.len() && !visited@[i as int] && forall|k: int|
                0 <= k < i ==> #[trigger] visited@[k],
            None => forall|k: int| 0 <= k < visited@.len() ==> #[trigger] visited@[k],
        },
{
    let mut i: usize = 0;
    while i < visited.len()
        invariant
            i <= visited@.len(),
            forall|k: int| 0 <= k < i ==> #[trigger] visited@[k],
        decreases visited@.len() - i,
    {
        if !visited[i] {
            return Some(i);
        }
        i += 1;
    }
    None
}

} // verus!
