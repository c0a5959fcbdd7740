use glam::{Mat4, Quat, Vec3};
use skeletal_animation::linalg;
use skeletal_animation::{
    group_channels, AnimError, Animation, Channel, ChannelType, ChannelValue, InterpolationType, Node,
    NodeChannels, NodeTree, Scalar, Skeleton,
};

fn v3(v: Vec3) -> linalg::Vec3 {
    linalg::Vec3 { bits: bytemuck::cast(v) }
}

fn q4(q: Quat) -> linalg::Quat {
    linalg::Quat { bits: bytemuck::cast(q) }
}

fn gv(v: linalg::Vec3) -> Vec3 {
    bytemuck::cast(v.bits)
}

fn gq(q: linalg::Quat) -> Quat {
    bytemuck::cast(q.bits)
}

fn vs(v: Vec<Vec3>) -> Vec<linalg::Vec3> {
    v.into_iter().map(v3).collect()
}

fn qs(v: Vec<Quat>) -> Vec<linalg::Quat> {
    v.into_iter().map(q4).collect()
}

fn s(x: f32) -> Scalar {
    Scalar::from_bits(x.to_bits())
}

fn f(x: Scalar) -> f32 {
    f32::from_bits(x.to_bits())
}

fn times(ts: &[f32]) -> Vec<Scalar> {
    ts.iter().map(|t| s(*t)).collect()
}

fn vec_close(a: Vec3, b: Vec3) -> bool {
    (a - b).abs().max_element() < 1e-5
}

fn translation_of(v: Result<ChannelValue, AnimError>) -> Vec3 {
    match v {
        Ok(ChannelValue::Translation(x)) => gv(x),
        other => panic!("expected a translation, got {:?}", other),
    }
}

fn rotation_of(v: Result<ChannelValue, AnimError>) -> Quat {
    match v {
        Ok(ChannelValue::Rotation(x)) => gq(x),
        other => panic!("expected a rotation, got {:?}", other),
    }
}

fn step_channel() -> Channel {
    Channel::new(
        InterpolationType::STEP,
        times(&[0.0, 1.0, 2.0]),
        ChannelType::Translation(vs(vec![Vec3::X, Vec3::Y, Vec3::Z])),
    )
    .unwrap()
}

#[test]
fn step_holds_keyframe_value() {
    let c = step_channel();
    assert_eq!(translation_of(c.sample(s(0.0))), Vec3::X);
    assert_eq!(translation_of(c.sample(s(0.5))), Vec3::X);
    assert_eq!(translation_of(c.sample(s(0.999))), Vec3::X);
    assert_eq!(translation_of(c.sample(s(1.25))), Vec3::Y);
    assert_eq!(translation_of(c.sample(s(1.999))), Vec3::Y);
    assert_eq!(translation_of(c.sample(s(2.0))), Vec3::Y);
}

#[test]
fn out_of_range_time_clamps_to_first_keyframe() {
    let c = step_channel();
    assert_eq!(translation_of(c.sample(s(-3.0))), Vec3::X);
    assert_eq!(translation_of(c.sample(s(7.0))), Vec3::X);
    assert_eq!(c.get_indexes(s(7.0)), (0, 0));
    assert_eq!(c.get_indexes(s(-1.0)), (0, 0));
    assert_eq!(c.get_indexes(s(1.5)), (1, 2));
    assert_eq!(c.get_indexes(s(1.0)), (0, 1));
}

#[test]
fn single_keyframe_returns_its_value() {
    for interpolation in [InterpolationType::STEP, InterpolationType::LINEAR] {
        let c = Channel::new(interpolation, times(&[0.5]), ChannelType::Scale(vs(vec![Vec3::splat(2.0)]))).unwrap();
        for t in [-1.0, 0.0, 0.5, 3.0] {
            match c.sample(s(t)) {
                Ok(ChannelValue::Scale(v)) => assert_eq!(gv(v), Vec3::splat(2.0)),
                other => panic!("unexpected {:?}", other),
            }
        }
    }
    let c = Channel::new(
        InterpolationType::CUBICSPLINE,
        times(&[0.5]),
        ChannelType::Translation(vs(vec![Vec3::X, Vec3::Y, Vec3::Z])),
    )
    .unwrap();
    assert_eq!(translation_of(c.sample(s(2.0))), Vec3::Y);
}

#[test]
fn linear_vector_midpoint() {
    let v0 = Vec3::new(1.0, 2.0, -4.0);
    let v1 = Vec3::new(3.0, -2.0, 8.0);
    let c = Channel::new(InterpolationType::LINEAR, times(&[0.0, 1.0]), ChannelType::Translation(vs(vec![v0, v1]))).unwrap();
    let mid = translation_of(c.sample(s(0.5)));
    assert!(vec_close(mid, (v0 + v1) / 2.0));
    assert!(vec_close(translation_of(c.sample(s(0.25))), v0 * 0.75 + v1 * 0.25));
    assert_eq!(translation_of(c.sample(s(1.0))), v1 * 0.0 + v1 * 1.0);
}

#[test]
fn linear_rotation_is_slerp() {
    let q0 = Quat::IDENTITY;
    let q1 = Quat::from_rotation_z(1.2);
    let c = Channel::new(InterpolationType::LINEAR, times(&[0.0, 2.0]), ChannelType::Rotation(qs(vec![q0, q1]))).unwrap();
    let q = rotation_of(c.sample(s(0.5)));
    assert_eq!(q, q0.slerp(q1, 0.25));
    assert!((q.length() - 1.0).abs() < 1e-5);
    let total = q0.angle_between(q1);
    assert!((q0.angle_between(q) + q.angle_between(q1) - total).abs() < 1e-4);
    assert!((q0.angle_between(q) - total * 0.25).abs() < 1e-4);
    let lerped = (Vec3::new(q0.x, q0.y, q0.z) * 0.75 + Vec3::new(q1.x, q1.y, q1.z) * 0.25).z;
    assert!((q.z - lerped).abs() > 1e-4);
}

#[test]
fn cubic_spline_vector_follows_hermite() {
    let values = vec![
        Vec3::ZERO,
        Vec3::new(0.0, 0.0, 0.0),
        Vec3::new(1.0, 0.0, 0.0),
        Vec3::new(0.0, 1.0, 0.0),
        Vec3::new(2.0, 2.0, 2.0),
        Vec3::ZERO,
    ];
    let c = Channel::new(InterpolationType::CUBICSPLINE, times(&[1.0, 3.0]), ChannelType::Translation(vs(values.clone()))).unwrap();
    let got = translation_of(c.sample(s(2.0)));
    let dt = 2.0f32;
    let t = (2.0f32 - 1.0) / dt;
    let (t2, t3) = (t * t, t * t * t);
    let h00 = 2.0 * t3 - 3.0 * t2 + 1.0;
    let h10 = t3 - 2.0 * t2 + t;
    let h01 = -2.0 * t3 + 3.0 * t2;
    let h11 = t3 - t2;
    let expected = values[1] * h00 + (values[2] * dt) * h10 + values[4] * h01 + (values[3] * dt) * h11;
    assert_eq!(got, expected);
    assert!(vec_close(got, Vec3::new(1.25, 0.75, 1.0)));
    assert!(vec_close(translation_of(c.sample(s(3.0))), Vec3::splat(2.0)));
}

#[test]
fn cubic_spline_degenerate_interval_fails() {
    let values = vec![Vec3::ZERO; 6];
    let c = Channel::new(InterpolationType::CUBICSPLINE, times(&[1.0, 1.0]), ChannelType::Translation(vs(values.clone()))).unwrap();
    assert!(matches!(c.sample(s(1.0)), Ok(_)));
    let c = Channel::new(InterpolationType::CUBICSPLINE, times(&[0.0, 1.0, 1.0]), ChannelType::Scale(vs(vec![Vec3::ONE; 9]))).unwrap();
    assert!(matches!(c.sample(s(2.0)), Ok(_)));
    let c = Channel {
        interpolation: InterpolationType::CUBICSPLINE,
        times: times(&[0.0, 2.0, 2.0]),
        values: ChannelType::Translation(vs(vec![Vec3::ONE; 9])),
    };
    assert_eq!(c.get_indexes(s(1.0)), (0, 1));
    let degenerate = InterpolationType::CUBICSPLINE.interpolate(&vs(vec![Vec3::ONE; 9]), &times(&[0.0, 2.0, 2.0]), (1, 2), s(2.0));
    assert_eq!(degenerate, Err(AnimError::DegenerateKeyframeInterval));
}

#[test]
fn cubic_spline_rotation_is_unsupported() {
    let c = Channel::new(
        InterpolationType::CUBICSPLINE,
        times(&[0.0, 1.0]),
        ChannelType::Rotation(qs(vec![Quat::IDENTITY; 6])),
    )
    .unwrap();
    for t in [-1.0, 0.0, 0.5, 1.0, 4.0] {
        assert!(matches!(c.sample(s(t)), Err(AnimError::UnsupportedInterpolation)));
    }
    let mut n = Node { parent: None, name: "n".to_string(), translate: v3(Vec3::ONE), rotate: q4(Quat::IDENTITY), scale: v3(Vec3::ONE) };
    assert_eq!(c.eval(s(0.5), &mut n), Err(AnimError::UnsupportedInterpolation));
    assert_eq!(gq(n.rotate), Quat::IDENTITY);
    let values = qs(vec![Quat::IDENTITY; 2]);
    assert_eq!(
        InterpolationType::CUBICSPLINE.s_interpolate(&values, &Vec::new(), (7, 9), s(1.0)),
        Err(AnimError::UnsupportedInterpolation)
    );
}

#[test]
fn channel_shape_is_checked() {
    let bad = Channel::new(InterpolationType::LINEAR, times(&[0.0, 1.0]), ChannelType::Translation(vs(vec![Vec3::X])));
    assert!(matches!(bad, Err(AnimError::ChannelShapeMismatch)));
    let bad = Channel::new(InterpolationType::CUBICSPLINE, times(&[0.0, 1.0]), ChannelType::Scale(vs(vec![Vec3::X; 5])));
    assert!(matches!(bad, Err(AnimError::ChannelShapeMismatch)));
    let bad = Channel::new(InterpolationType::STEP, Vec::new(), ChannelType::Scale(Vec::new()));
    assert!(matches!(bad, Err(AnimError::ChannelShapeMismatch)));
    assert!(Channel::new(InterpolationType::CUBICSPLINE, times(&[0.0, 1.0]), ChannelType::Scale(vs(vec![Vec3::X; 6]))).is_ok());
}

#[test]
fn node_channels_write_only_present_properties() {
    let nc = NodeChannels {
        translation: Some(step_channel()),
        rotation: None,
        scale: Some(Channel::new(InterpolationType::STEP, times(&[0.0]), ChannelType::Scale(vs(vec![Vec3::splat(3.0)]))).unwrap()),
    };
    let mut n = Node { parent: Some(4), name: "n".to_string(), translate: v3(Vec3::ZERO), rotate: q4(Quat::from_rotation_x(0.1)), scale: v3(Vec3::ONE) };
    assert_eq!(nc.eval(s(1.5), &mut n), Ok(()));
    assert_eq!(gv(n.translate), Vec3::Y);
    assert_eq!(gq(n.rotate), Quat::from_rotation_x(0.1));
    assert_eq!(gv(n.scale), Vec3::splat(3.0));
    assert_eq!(n.parent, Some(4));
    let empty = NodeChannels::default();
    assert!(empty.translation.is_none() && empty.rotation.is_none() && empty.scale.is_none());
}

fn with_end(kind: usize, end_times: &[f32]) -> Channel {
    let n = end_times.len();
    let values = match kind {
        0 => ChannelType::Translation(vs(vec![Vec3::ZERO; n])),
        1 => ChannelType::Rotation(qs(vec![Quat::IDENTITY; n])),
        _ => ChannelType::Scale(vs(vec![Vec3::ONE; n])),
    };
    Channel::new(InterpolationType::LINEAR, times(end_times), values).unwrap()
}

#[test]
fn duration_is_latest_last_keyframe() {
    let channels = vec![
        Some(NodeChannels { translation: Some(with_end(0, &[0.0, 1.5])), rotation: None, scale: None }),
        None,
        Some(NodeChannels {
            translation: None,
            rotation: Some(with_end(1, &[0.0, 0.5, 1.0, 4.25])),
            scale: Some(with_end(2, &[2.0])),
        }),
    ];
    let anim = Animation::new("walk".to_string(), channels);
    assert_eq!(f(anim.duration()), 4.25);
    assert_eq!(anim.name, "walk");
    let none = Animation::new("idle".to_string(), vec![None, None]);
    assert_eq!(none.duration().to_bits(), 0);
    let negative = Animation::new("neg".to_string(), vec![Some(NodeChannels { translation: Some(with_end(0, &[-3.0, -1.0])), rotation: None, scale: None })]);
    assert_eq!(f(negative.duration()), -1.0);
    let mixed = Animation::new(
        "mixed".to_string(),
        vec![
            Some(NodeChannels { translation: Some(with_end(0, &[-5.0, -4.0])), rotation: None, scale: None }),
            Some(NodeChannels { translation: None, rotation: Some(with_end(1, &[-3.0, -2.5])), scale: None }),
        ],
    );
    assert_eq!(f(mixed.duration()), -2.5);
    let with_nan = Animation::new(
        "nan".to_string(),
        vec![Some(NodeChannels { translation: Some(with_end(0, &[f32::NAN])), rotation: None, scale: Some(with_end(2, &[0.5])) })],
    );
    assert_eq!(f(with_nan.duration()), 0.5);
}

#[test]
fn grouping_keeps_last_channel_per_property() {
    let targets = vec![
        (2, with_end(0, &[1.0])),
        (0, with_end(1, &[2.0])),
        (2, with_end(0, &[3.0])),
        (2, with_end(2, &[4.0])),
    ];
    let grouped = group_channels(3, targets).unwrap();
    assert_eq!(grouped.len(), 3);
    assert!(grouped[1].is_none());
    let n0 = grouped[0].as_ref().unwrap();
    assert!(n0.translation.is_none() && n0.scale.is_none());
    assert_eq!(f(n0.rotation.as_ref().unwrap().times[0]), 2.0);
    let n2 = grouped[2].as_ref().unwrap();
    assert_eq!(f(n2.translation.as_ref().unwrap().times[0]), 3.0);
    assert_eq!(f(n2.scale.as_ref().unwrap().times[0]), 4.0);
    assert!(n2.rotation.is_none());
    assert!(matches!(group_channels(2, vec![(2, with_end(0, &[1.0]))]), Err(AnimError::MalformedHierarchy)));
}

#[test]
fn scalar_comparisons_follow_ieee() {
    let nan = Scalar::from_bits(f32::NAN.to_bits());
    assert!(s(-0.0).num_eq(s(0.0)));
    assert!(s(-1.0).lt(s(-0.5)));
    assert!(s(-1.0).lt(s(0.0)));
    assert!(s(2.0).gt(s(1.0)));
    assert!(s(2.0).ge(s(2.0)));
    assert!(s(f32::INFINITY).gt(s(1e30)));
    assert!(!nan.le(nan) && !nan.lt(s(1.0)) && !s(1.0).ge(nan) && !nan.num_eq(nan));
    assert!(nan.is_nan_exec() && !s(1.0).is_nan_exec());
    assert_eq!(Scalar::zero().to_bits(), 0);
}

fn skeleton() -> Skeleton {
    let root = Node { parent: None, name: "root".to_string(), translate: v3(Vec3::ZERO), rotate: q4(Quat::IDENTITY), scale: v3(Vec3::ONE) };
    let bone = Node { parent: Some(0), name: "bone".to_string(), translate: v3(Vec3::new(0.0, 1.0, 0.0)), rotate: q4(Quat::IDENTITY), scale: v3(Vec3::ONE) };
    let identity = linalg::Mat4 { bits: bytemuck::cast(Mat4::IDENTITY) };
    let tree = NodeTree { nodes: vec![root, bone], joints_index: vec![1], inverse_bind_matrices: vec![identity] };
    let move_root = Channel::new(
        InterpolationType::STEP,
        times(&[0.0, 1.0, 2.0]),
        ChannelType::Translation(vs(vec![Vec3::new(1.0, 0.0, 0.0), Vec3::new(2.0, 0.0, 0.0), Vec3::new(3.0, 0.0, 0.0)])),
    )
    .unwrap();
    let spin = Channel::new(
        InterpolationType::CUBICSPLINE,
        times(&[0.0, 1.0]),
        ChannelType::Rotation(qs(vec![Quat::IDENTITY; 6])),
    )
    .unwrap();
    let walk = Animation::new(
        "walk".to_string(),
        vec![Some(NodeChannels { translation: Some(move_root), rotation: None, scale: None }), None],
    );
    let broken = Animation::new(
        "broken".to_string(),
        vec![None, Some(NodeChannels { translation: None, rotation: Some(spin), scale: None })],
    );
    Skeleton { nodes_tree: tree, animations: vec![walk, broken] }
}

#[test]
fn render_animation_poses_and_packs_joints() {
    let mut sk = skeleton();
    let packed = sk.render_animation(s(0.5), None).unwrap();
    assert_eq!(gv(sk.nodes_tree.nodes[0].translate), Vec3::new(1.0, 0.0, 0.0));
    assert_eq!(packed.len(), 1);
    assert_eq!(gq(packed[0][0]), Quat::IDENTITY);
    assert_eq!(gq(packed[0][1]), Quat::from_xyzw(1.0, 1.0, 0.0, 0.0) * Quat::IDENTITY * 0.5);
    let packed = sk.render_animation(s(1.5), Some(0)).unwrap();
    assert_eq!(gv(sk.nodes_tree.nodes[0].translate), Vec3::new(2.0, 0.0, 0.0));
    assert_eq!(gq(packed[0][1]), Quat::from_xyzw(1.0, 0.5, 0.0, 0.0));
}

#[test]
fn render_animation_reports_errors_and_keeps_pose() {
    let mut sk = skeleton();
    assert_eq!(sk.render_animation(s(0.0), Some(2)), Err(AnimError::AnimationIndexOutOfRange));
    assert_eq!(sk.render_animation(s(0.5), Some(1)), Err(AnimError::UnsupportedInterpolation));
    assert_eq!(gv(sk.nodes_tree.nodes[0].translate), Vec3::ZERO);
    assert_eq!(gq(sk.nodes_tree.nodes[1].rotate), Quat::IDENTITY);
}
