use glam::{Mat4, Quat, Vec3};
use skeletal_animation::linalg;
use skeletal_animation::{
    create_nodes_tree_from_joints, find_a_false, rgb_to_rgba, AnimError, ImageData, Node, NodeDesc, NodeTree,
};

fn v3(v: Vec3) -> linalg::Vec3 {
    linalg::Vec3 { bits: bytemuck::cast(v) }
}

fn q4(q: Quat) -> linalg::Quat {
    linalg::Quat { bits: bytemuck::cast(q) }
}

fn m4(m: Mat4) -> linalg::Mat4 {
    linalg::Mat4 { bits: bytemuck::cast(m) }
}

fn gm(m: linalg::Mat4) -> Mat4 {
    bytemuck::cast(m.bits)
}

fn gq(q: linalg::Quat) -> Quat {
    bytemuck::cast(q.bits)
}

fn node(parent: Option<usize>, name: &str, translate: Vec3) -> Node {
    Node {
        parent,
        name: name.to_string(),
        translate: v3(translate),
        rotate: q4(Quat::IDENTITY),
        scale: v3(Vec3::new(1.0, 1.0, 1.0)),
    }
}

fn mat_close(a: Mat4, b: Mat4) -> bool {
    a.to_cols_array()
        .iter()
        .zip(b.to_cols_array().iter())
        .all(|(x, y)| (x - y).abs() < 1e-5)
}

#[test]
fn nodes_tree_test_hiearchical_matrix() {
    let parent = node(None, "parent", Vec3::new(1.0, 0.0, 0.0));
    let child = node(Some(0), "child", Vec3::new(1.0, 0.0, 0.0));
    let tree = vec![parent, child];
    let node_tree = NodeTree { nodes: tree, inverse_bind_matrices: Vec::new(), joints_index: Vec::new() };
    let child_transform = node_tree.get_global_transform(1).unwrap();
    assert_eq!(gm(child_transform), Mat4::from_translation(Vec3::new(2.0, 0.0, 0.0)));
}

#[test]
fn root_global_equals_local() {
    let root = Node {
        parent: None,
        name: "root".to_string(),
        translate: v3(Vec3::new(0.5, -2.0, 3.0)),
        rotate: q4(Quat::from_rotation_y(0.7)),
        scale: v3(Vec3::new(2.0, 1.0, 0.5)),
    };
    let tree = NodeTree { nodes: vec![root], joints_index: Vec::new(), inverse_bind_matrices: Vec::new() };
    assert_eq!(tree.get_global_transform(0).unwrap(), tree.get_local_transform(0));
}

#[test]
fn local_transform_is_translate_rotate_scale() {
    let n = Node {
        parent: None,
        name: String::new(),
        translate: v3(Vec3::new(1.0, 2.0, 3.0)),
        rotate: q4(Quat::from_rotation_z(0.3)),
        scale: v3(Vec3::new(2.0, 3.0, 4.0)),
    };
    let expected = Mat4::from_translation(Vec3::new(1.0, 2.0, 3.0))
        * Mat4::from_quat(Quat::from_rotation_z(0.3))
        * Mat4::from_scale(Vec3::new(2.0, 3.0, 4.0));
    let tree = NodeTree { nodes: vec![n], joints_index: Vec::new(), inverse_bind_matrices: Vec::new() };
    assert_eq!(gm(tree.get_local_transform(0)), expected);
    assert_eq!(tree.len(), 1);
}

#[test]
fn cycle_is_malformed_hierarchy() {
    let a = node(Some(1), "a", Vec3::ZERO);
    let b = node(Some(0), "b", Vec3::ZERO);
    let tree = NodeTree { nodes: vec![a, b], joints_index: Vec::new(), inverse_bind_matrices: Vec::new() };
    assert_eq!(tree.get_global_transform(0), Err(AnimError::MalformedHierarchy));
    assert_eq!(tree.get_global_transform(1), Err(AnimError::MalformedHierarchy));
}

#[test]
fn parent_out_of_range_is_malformed_hierarchy() {
    let a = node(Some(5), "a", Vec3::ZERO);
    let tree = NodeTree { nodes: vec![a], joints_index: Vec::new(), inverse_bind_matrices: Vec::new() };
    assert_eq!(tree.get_global_transform(0), Err(AnimError::MalformedHierarchy));
    assert_eq!(tree.get_global_transform(3), Err(AnimError::MalformedHierarchy));
}

#[test]
fn joints_combine_global_and_inverse_bind() {
    let root = node(None, "root", Vec3::new(1.0, 0.0, 0.0));
    let mut arm = node(Some(0), "arm", Vec3::new(0.0, 2.0, 0.0));
    arm.rotate = q4(Quat::from_rotation_x(0.4));
    let nodes = vec![root, arm];
    let probe = NodeTree { nodes, joints_index: Vec::new(), inverse_bind_matrices: Vec::new() };
    let bind_root = gm(probe.get_global_transform(0).unwrap());
    let bind_arm = gm(probe.get_global_transform(1).unwrap());
    let extra = Mat4::from_translation(Vec3::new(0.0, 0.0, 5.0));
    let tree = NodeTree {
        nodes: probe.nodes,
        joints_index: vec![1, 0],
        inverse_bind_matrices: vec![m4(bind_arm.inverse()), m4(extra)],
    };
    let joints: Vec<Mat4> = tree.get_joints().unwrap().into_iter().map(gm).collect();
    assert_eq!(joints.len(), 2);
    assert_eq!(joints[0], bind_arm * bind_arm.inverse());
    assert!(mat_close(joints[0], Mat4::IDENTITY));
    assert_eq!(joints[1], bind_root * extra);
}

#[test]
fn joints_fail_on_cycle() {
    let a = node(Some(1), "a", Vec3::ZERO);
    let b = node(Some(0), "b", Vec3::ZERO);
    let tree = NodeTree { nodes: vec![a, b], joints_index: vec![0], inverse_bind_matrices: vec![m4(Mat4::IDENTITY)] };
    assert_eq!(tree.get_joints(), Err(AnimError::MalformedHierarchy));
    assert_eq!(tree.get_joints_double_quat(), Err(AnimError::MalformedHierarchy));
}

#[test]
fn double_quat_packs_rotation_and_translation() {
    let mut n = node(None, "j", Vec3::new(1.0, 2.0, 3.0));
    n.rotate = q4(Quat::from_rotation_y(0.5));
    let tree = NodeTree { nodes: vec![n], joints_index: vec![0], inverse_bind_matrices: vec![m4(Mat4::IDENTITY)] };
    let packed = tree.get_joints_double_quat().unwrap();
    assert_eq!(packed.len(), 1);
    let m = gm(tree.get_joints().unwrap()[0]);
    let r = Quat::from_mat4(&m);
    let (rot, dual) = (gq(packed[0][0]), gq(packed[0][1]));
    assert_eq!(rot, r);
    assert!((dual - Quat::from_xyzw(1.0, 2.0, 3.0, 0.0) * r * 0.5).length() < 1e-6);
    assert!((rot.dot(Quat::from_rotation_y(0.5)).abs() - 1.0).abs() < 1e-5);
    assert!(dual.length() > 0.1);
}

fn desc(name: &str, x: f32, children: Vec<usize>) -> NodeDesc {
    NodeDesc {
        name: name.to_string(),
        translate: v3(Vec3::new(x, 0.0, 0.0)),
        rotate: q4(Quat::IDENTITY),
        scale: v3(Vec3::ONE),
        children,
    }
}

#[test]
fn tree_from_child_lists_sets_parents() {
    let descs = vec![desc("hip", 1.0, vec![1, 2]), desc("leg", 2.0, vec![3]), desc("spine", 3.0, vec![]), desc("foot", 4.0, vec![])];
    let tree = create_nodes_tree_from_joints(vec![1, 3], descs, vec![m4(Mat4::IDENTITY), m4(Mat4::IDENTITY)]).unwrap();
    assert_eq!(tree.nodes.len(), 4);
    assert_eq!(tree.nodes[0].parent, None);
    assert_eq!(tree.nodes[1].parent, Some(0));
    assert_eq!(tree.nodes[2].parent, Some(0));
    assert_eq!(tree.nodes[3].parent, Some(1));
    assert_eq!(tree.nodes[3].name, "foot");
    assert_eq!(tree.nodes[2].translate, v3(Vec3::new(3.0, 0.0, 0.0)));
    assert_eq!(tree.joints_index, vec![1, 3]);
    assert_eq!(
        gm(tree.get_global_transform(3).unwrap()),
        Mat4::from_translation(Vec3::new(7.0, 0.0, 0.0))
    );
}

#[test]
fn tree_child_listed_twice_takes_last_parent() {
    let descs = vec![desc("a", 0.0, vec![2]), desc("b", 0.0, vec![2]), desc("c", 0.0, vec![])];
    let tree = create_nodes_tree_from_joints(Vec::new(), descs, Vec::new()).unwrap();
    assert_eq!(tree.nodes[2].parent, Some(1));
}

#[test]
fn tree_rejects_bad_indices() {
    let descs = vec![desc("a", 0.0, vec![4])];
    assert!(matches!(create_nodes_tree_from_joints(Vec::new(), descs, Vec::new()), Err(AnimError::MalformedHierarchy)));
    let descs = vec![desc("a", 0.0, vec![])];
    assert!(matches!(create_nodes_tree_from_joints(vec![1], descs, vec![m4(Mat4::IDENTITY)]), Err(AnimError::MalformedHierarchy)));
    let descs = vec![desc("a", 0.0, vec![])];
    assert!(matches!(create_nodes_tree_from_joints(vec![0], descs, Vec::new()), Err(AnimError::MalformedHierarchy)));
    let descs = vec![desc("a", 0.0, vec![1]), desc("b", 0.0, vec![2]), desc("c", 0.0, vec![0])];
    assert!(matches!(create_nodes_tree_from_joints(Vec::new(), descs, Vec::new()), Err(AnimError::MalformedHierarchy)));
}

#[test]
fn find_a_false_finds_first_unset() {
    assert_eq!(find_a_false(&vec![true, false, false]), Some(1));
    assert_eq!(find_a_false(&vec![false]), Some(0));
    assert_eq!(find_a_false(&vec![true, true]), None);
    assert_eq!(find_a_false(&Vec::new()), None);
}

#[test]
fn image_data_keeps_its_fields() {
    let img = ImageData::new(vec![1, 2, 3, 4], 1, 1);
    assert_eq!(img.data_rgba, vec![1, 2, 3, 4]);
    assert_eq!((img.width, img.height), (1, 1));
    let empty = ImageData::default();
    assert!(empty.data_rgba.is_empty());
    assert_eq!((empty.width, empty.height), (0, 0));
}

#[test]
fn hierarchy_lists_ancestors_first_with_depths() {
    let nodes = vec![
        node(Some(2), "hand", Vec3::ZERO),
        node(None, "root", Vec3::ZERO),
        node(Some(1), "arm", Vec3::ZERO),
        node(Some(0), "finger", Vec3::ZERO),
        node(None, "prop", Vec3::ZERO),
    ];
    let tree = NodeTree { nodes, joints_index: Vec::new(), inverse_bind_matrices: Vec::new() };
    assert_eq!(tree.hierarchy().unwrap(), vec![(0, 1), (1, 2), (2, 0), (3, 3), (0, 4)]);
}

#[test]
fn hierarchy_rejects_cycles() {
    let nodes = vec![node(None, "root", Vec3::ZERO), node(Some(2), "a", Vec3::ZERO), node(Some(1), "b", Vec3::ZERO)];
    let tree = NodeTree { nodes, joints_index: Vec::new(), inverse_bind_matrices: Vec::new() };
    assert_eq!(tree.hierarchy(), Err(AnimError::MalformedHierarchy));
}

#[test]
fn rgb_pixels_gain_opaque_alpha() {
    assert_eq!(rgb_to_rgba(&vec![1, 2, 3, 4, 5, 6, 7]), vec![1, 2, 3, 255, 4, 5, 6, 255]);
    assert!(rgb_to_rgba(&Vec::new()).is_empty());
}
