use yhwh::animation::animation::{AnimationClip, Animations, PlayState, PlaybackMode};
use yhwh::animation::keyframes::{Channel, Keyframes};
use yhwh::animation::node::{Node, Nodes, ParentTransform, Transform};
use yhwh::animation::skin::{JointNode, JointProduct, Skin, SkinError, MAX_JOINTS_PER_MESH};
use yhwh::model::{FramePhase, FrameWork, Model};

type Mat = [[f32; 4]; 4];

const IDENTITY: Mat =
    [[1.0, 0.0, 0.0, 0.0], [0.0, 1.0, 0.0, 0.0], [0.0, 0.0, 1.0, 0.0], [0.0, 0.0, 0.0, 1.0]];

fn to_bits(m: Mat) -> [[u32; 4]; 4] {
    m.map(|c| c.map(|x| x.to_bits()))
}

fn from_bits(m: [[u32; 4]; 4]) -> Mat {
    m.map(|c| c.map(f32::from_bits))
}

fn mul(a: Mat, b: Mat) -> Mat {
    let mut out = [[0.0f32; 4]; 4];
    for c in 0..4 {
        for r in 0..4 {
            for k in 0..4 {
                out[c][r] += a[k][r] * b[c][k];
            }
        }
    }
    out
}

fn translation(x: f32, y: f32, z: f32) -> Mat {
    let mut m = IDENTITY;
    m[3] = [x, y, z, 1.0];
    m
}

/// Inverse of a pure translation.
fn undo(m: Mat) -> Mat {
    translation(-m[3][0], -m[3][1], -m[3][2])
}

fn moved(x: f32, y: f32, z: f32) -> Transform {
    Transform::Decomposed {
        translation: [x.to_bits(), y.to_bits(), z.to_bits()],
        rotation: [0.0f32.to_bits(), 0.0f32.to_bits(), 0.0f32.to_bits(), 1.0f32.to_bits()],
        scale: [1.0f32.to_bits(); 3],
    }
}

fn local(t: Transform) -> Mat {
    match t {
        Transform::Matrix { matrix } => from_bits(matrix),
        Transform::Decomposed { translation: tr, .. } => {
            translation(f32::from_bits(tr[0]), f32::from_bits(tr[1]), f32::from_bits(tr[2]))
        }
    }
}

fn propagate(nodes: &mut Nodes, root: Mat) {
    for step in nodes.transform(Some(to_bits(root))) {
        let parent = match step.parent {
            ParentTransform::Node(p) => from_bits(nodes.nodes()[p].transform()),
            ParentTransform::Given(m) => from_bits(m),
            ParentTransform::Identity => IDENTITY,
        };
        let m = mul(parent, local(nodes.nodes()[step.node].local_transform()));
        assert!(nodes.set_global_transform(step.node, to_bits(m)));
    }
}

fn joint_matrix(p: &JointProduct) -> Mat {
    let node = match p.node {
        JointNode::Placed(m) => from_bits(m),
        JointNode::Missing => IDENTITY,
    };
    mul(mul(undo(from_bits(p.root)), node), from_bits(p.inverse_bind_matrix))
}

fn arm() -> Nodes {
    let nodes = vec![
        Node::new(moved(0.0, 1.0, 0.0), to_bits(IDENTITY), None, Some(0), vec![1]),
        Node::new(moved(0.0, 2.0, 0.0), to_bits(IDENTITY), None, None, vec![2]),
        Node::new(moved(0.0, 0.5, 1.0), to_bits(IDENTITY), None, None, vec![]),
    ];
    Nodes::new(nodes, vec![0]).unwrap()
}

#[test]
fn skin_keeps_its_joints_in_order() {
    let ibm = vec![to_bits(translation(1.0, 0.0, 0.0)), to_bits(translation(2.0, 0.0, 0.0))];
    let skin = Skin::new(vec![5, 3], ibm.clone(), to_bits(IDENTITY)).unwrap();
    let joints = skin.joints();
    assert_eq!(joints.len(), 2);
    assert_eq!(joints[0].node_id, 5);
    assert_eq!(joints[1].node_id, 3);
    assert_eq!(joints[0].inverse_bind_matrix, ibm[0]);
    assert_eq!(joints[1].inverse_bind_matrix, ibm[1]);
    assert_eq!(joints[0].matrix, to_bits(IDENTITY));
}

#[test]
fn skin_needs_one_inverse_bind_matrix_per_joint() {
    let r = Skin::new(vec![0, 1], vec![to_bits(IDENTITY)], to_bits(IDENTITY));
    assert_eq!(r.err(), Some(SkinError::LengthMismatch));
    let r = Skin::new(vec![], vec![to_bits(IDENTITY)], to_bits(IDENTITY));
    assert_eq!(r.err(), Some(SkinError::LengthMismatch));
    assert!(Skin::new(vec![], vec![], to_bits(IDENTITY)).is_ok());
}

#[test]
fn joints_beyond_the_cap_are_dropped() {
    let n = MAX_JOINTS_PER_MESH + 7;
    let joint_nodes: Vec<usize> = (0..n).map(|i| 1000 + i).collect();
    let ibm: Vec<[[u32; 4]; 4]> = (0..n).map(|i| to_bits(translation(i as f32, 0.0, 0.0))).collect();
    let mut skin = Skin::new(joint_nodes, ibm.clone(), to_bits(IDENTITY)).unwrap();
    assert_eq!(skin.joints().len(), MAX_JOINTS_PER_MESH);
    for (i, joint) in skin.joints().iter().enumerate() {
        assert_eq!(joint.node_id, 1000 + i);
        assert_eq!(joint.inverse_bind_matrix, ibm[i]);
    }
    let products = skin.compute_joints_matrices(to_bits(IDENTITY), &Nodes::empty());
    assert_eq!(products.len(), MAX_JOINTS_PER_MESH);
    assert!(!skin.set_joint_matrices(&vec![to_bits(IDENTITY); n]));
    assert!(skin.set_joint_matrices(&vec![to_bits(IDENTITY); MAX_JOINTS_PER_MESH]));
}

#[test]
fn cap_is_not_reached_by_exactly_as_many_joints() {
    let n = MAX_JOINTS_PER_MESH;
    assert_eq!(n, 128);
    let skin = Skin::new((0..n).collect(), vec![to_bits(IDENTITY); n], to_bits(IDENTITY)).unwrap();
    assert_eq!(skin.joints().len(), n);
    assert_eq!(skin.joints()[n - 1].node_id, n - 1);
}

#[test]
fn joint_factors_name_root_node_and_inverse_bind_matrix() {
    let mut nodes = arm();
    let root = translation(7.0, 0.0, 0.0);
    propagate(&mut nodes, root);
    let ibm = vec![to_bits(translation(0.0, -1.0, 0.0)), to_bits(translation(0.0, -3.0, 0.0))];
    let skin = Skin::new(vec![0, 9], ibm.clone(), to_bits(IDENTITY)).unwrap();
    let products = skin.compute_joints_matrices(to_bits(root), &nodes);
    assert_eq!(products.len(), 2);
    assert_eq!(products[0].root, to_bits(root));
    assert!(matches!(products[0].node, JointNode::Placed(m) if m == nodes.nodes()[0].transform()));
    assert_eq!(products[0].inverse_bind_matrix, ibm[0]);
    assert!(matches!(products[1].node, JointNode::Missing));
    assert_eq!(products[1].inverse_bind_matrix, ibm[1]);
}

#[test]
fn joint_matrices_are_identity_at_bind_pose() {
    let mut nodes = arm();
    let root = translation(3.0, -2.0, 5.0);
    propagate(&mut nodes, IDENTITY);
    let bind: Vec<[[u32; 4]; 4]> =
        (0..3).map(|i| to_bits(undo(from_bits(nodes.nodes()[i].transform())))).collect();
    let mut skin = Skin::new(vec![0, 1, 2], bind, to_bits(IDENTITY)).unwrap();

    propagate(&mut nodes, root);
    let products = skin.compute_joints_matrices(to_bits(root), &nodes);
    let matrices: Vec<[[u32; 4]; 4]> = products.iter().map(|p| to_bits(joint_matrix(p))).collect();
    assert!(skin.set_joint_matrices(&matrices));
    for joint in skin.joints() {
        assert_eq!(from_bits(joint.matrix), IDENTITY);
    }
}

#[test]
fn joint_matrices_follow_the_pose() {
    let mut nodes = arm();
    propagate(&mut nodes, IDENTITY);
    let bind: Vec<[[u32; 4]; 4]> =
        (0..3).map(|i| to_bits(undo(from_bits(nodes.nodes()[i].transform())))).collect();
    let mut skin = Skin::new(vec![0, 1, 2], bind, to_bits(IDENTITY)).unwrap();

    nodes.nodes_mut()[1].set_translation([1.0f32.to_bits(), 2.0f32.to_bits(), 0.0f32.to_bits()]);
    propagate(&mut nodes, IDENTITY);
    let products = skin.compute_joints_matrices(to_bits(IDENTITY), &nodes);
    let matrices: Vec<[[u32; 4]; 4]> = products.iter().map(|p| to_bits(joint_matrix(p))).collect();
    assert!(skin.set_joint_matrices(&matrices));
    assert_eq!(from_bits(skin.joints()[0].matrix), IDENTITY);
    assert_eq!(from_bits(skin.joints()[1].matrix), translation(1.0, 0.0, 0.0));
    assert_eq!(from_bits(skin.joints()[2].matrix), translation(1.0, 0.0, 0.0));
}

#[test]
fn stored_matrices_keep_node_and_inverse_bind_matrix() {
    let ibm = vec![to_bits(translation(1.0, 0.0, 0.0)), to_bits(translation(2.0, 0.0, 0.0))];
    let mut skin = Skin::new(vec![4, 6], ibm.clone(), to_bits(IDENTITY)).unwrap();
    let a = to_bits(translation(0.0, 9.0, 0.0));
    let b = to_bits(translation(0.0, 0.0, 9.0));
    assert!(!skin.set_joint_matrices(&vec![a]));
    assert_eq!(skin.joints()[0].matrix, to_bits(IDENTITY));
    assert!(skin.set_joint_matrices(&vec![a, b]));
    assert_eq!(skin.joints()[0].matrix, a);
    assert_eq!(skin.joints()[1].matrix, b);
    assert_eq!(skin.joints()[0].node_id, 4);
    assert_eq!(skin.joints()[1].inverse_bind_matrix, ibm[1]);
}

fn walking_model() -> Model {
    let channel = Channel::new(
        1,
        vec![0, 100],
        Keyframes::Translation(vec![[0; 3], [1.0f32.to_bits(), 0, 0]]),
    )
    .unwrap();
    let clips = vec![AnimationClip::new("walk", vec![channel]), AnimationClip::new("idle", vec![])];
    Model {
        name: String::from("walker"),
        animations: Some(Animations::new(clips)),
        nodes: arm(),
        global_transform: to_bits(translation(7.0, 0.0, 0.0)),
        skins: vec![Skin::new(vec![0, 1], vec![to_bits(IDENTITY); 2], to_bits(IDENTITY)).unwrap()],
    }
}

#[test]
fn model_without_animations_never_changes() {
    let mut model = walking_model();
    model.animations = None;
    assert!(!model.update(10));
    assert!(model.get_animation_playback_state().is_none());
    assert!(model.sample_animation().is_empty());
    model.set_current_animation(1);
    model.toggle_animation();
    model.stop_animation();
    model.reset_animation();
    model.set_animation_playback_mode(PlaybackMode::Once);
    assert!(model.animations.is_none());
}

#[test]
fn model_update_reports_a_running_clock() {
    let mut model = walking_model();
    assert!(!model.update(10));
    model.toggle_animation();
    assert!(model.update(10));
    let state = model.get_animation_playback_state().unwrap();
    assert_eq!((state.current, state.time, state.state), (0, 10, PlayState::Playing));
    let sample = model.sample_animation();
    assert_eq!(sample.len(), 1);
    assert_eq!(sample[0].0, 1);
    let blend = sample[0].1.translation.unwrap();
    assert_eq!((blend.offset, blend.span), (10, 100));

    model.toggle_animation();
    assert!(!model.update(10));
    assert_eq!(model.get_animation_playback_state().unwrap().time, 10);
}

#[test]
fn model_controls_reach_the_controller() {
    let mut model = walking_model();
    model.toggle_animation();
    model.update(30);
    model.set_current_animation(1);
    let state = model.get_animation_playback_state().unwrap();
    assert_eq!((state.current, state.time), (1, 0));
    model.set_current_animation(5);
    assert_eq!(model.get_animation_playback_state().unwrap().current, 1);
    model.update(30);
    model.reset_animation();
    let state = model.get_animation_playback_state().unwrap();
    assert_eq!((state.time, state.state), (0, PlayState::Playing));
    model.update(30);
    model.stop_animation();
    let state = model.get_animation_playback_state().unwrap();
    assert_eq!((state.time, state.state), (0, PlayState::Stopped));
    model.set_animation_playback_mode(PlaybackMode::PingPong);
    assert_eq!(
        model.get_animation_playback_state().unwrap().playback_mode,
        PlaybackMode::PingPong
    );
    assert_eq!(model.name, "walker");
}

#[test]
fn skin_updates_skip_skins_that_the_model_lacks() {
    let mut model = walking_model();
    let nodes = vec![
        Node::new(moved(0.0, 1.0, 0.0), to_bits(IDENTITY), None, Some(0), vec![1]),
        Node::new(moved(0.0, 2.0, 0.0), to_bits(IDENTITY), None, Some(4), vec![2]),
        Node::new(moved(0.0, 0.5, 1.0), to_bits(IDENTITY), None, Some(0), vec![]),
    ];
    model.nodes = Nodes::new(nodes, vec![0]).unwrap();
    let updates = model.skin_updates();
    assert_eq!(updates.len(), 2);
    for update in &updates {
        assert_eq!(update.skin_index, 0);
        assert_eq!(update.products.len(), 2);
        assert_eq!(update.products[0].root, model.global_transform);
        assert!(matches!(update.products[0].node, JointNode::Placed(_)));
    }
}

#[test]
fn one_frame_from_clock_to_joint_matrices() {
    let mut model = walking_model();
    let root = from_bits(model.global_transform);
    propagate(&mut model.nodes, root);
    let bind: Vec<[[u32; 4]; 4]> = (0..2)
        .map(|i| to_bits(mul(undo(from_bits(model.nodes.nodes()[i].transform())), root)))
        .collect();
    model.skins = vec![Skin::new(vec![0, 1], bind, to_bits(IDENTITY)).unwrap()];

    model.toggle_animation();
    assert!(model.update(50));
    for (node, partial) in model.sample_animation() {
        if let Some(b) = partial.translation {
            let f = if b.span == 0 { 0.0 } else { b.offset as f32 / b.span as f32 };
            let mut v = [0u32; 3];
            for i in 0..3 {
                let s = f32::from_bits(b.start[i]);
                let e = f32::from_bits(b.end[i]);
                v[i] = (s + (e - s) * f).to_bits();
            }
            model.nodes.nodes_mut()[node].set_translation(v);
        }
    }
    propagate(&mut model.nodes, root);
    for update in model.skin_updates() {
        let matrices: Vec<[[u32; 4]; 4]> =
            update.products.iter().map(|p| to_bits(joint_matrix(p))).collect();
        assert!(model.skins[update.skin_index].set_joint_matrices(&matrices));
    }
    // Node 1 moved from (0, 2, 0) to (0.5, 0, 0) relative to node 0.
    assert_eq!(from_bits(model.skins[0].joints()[0].matrix), IDENTITY);
    assert_eq!(from_bits(model.skins[0].joints()[1].matrix), translation(0.5, -2.0, 0.0));
}

#[test]
fn a_tick_that_moved_the_clock_has_three_phases_in_order() {
    assert_eq!(
        Model::frame_phases(true),
        vec![FramePhase::WriteSample, FramePhase::Propagate, FramePhase::RecomputeSkins]
    );
    assert!(Model::frame_phases(false).is_empty());
}

#[test]
fn frame_work_plans_each_phase() {
    let mut model = walking_model();
    model.toggle_animation();
    assert!(model.update(25));

    match model.frame_work(FramePhase::WriteSample) {
        FrameWork::WriteSample(entries) => {
            assert_eq!(entries, model.sample_animation());
            assert_eq!(entries.len(), 1);
            assert_eq!(entries[0].1.translation.unwrap().offset, 25);
        }
        other => panic!("sample expected, got {other:?}"),
    }
    match model.frame_work(FramePhase::Propagate) {
        FrameWork::Propagate(steps) => {
            assert_eq!(steps, model.propagation_plan());
            assert_eq!(steps, model.nodes.transform(Some(model.global_transform)));
            assert_eq!(steps.len(), 3);
            assert_eq!(steps[0].parent, ParentTransform::Given(model.global_transform));
            assert_eq!(steps[1].parent, ParentTransform::Node(0));
            assert_eq!(steps[2].parent, ParentTransform::Node(1));
        }
        other => panic!("propagation expected, got {other:?}"),
    }
    match model.frame_work(FramePhase::RecomputeSkins) {
        FrameWork::RecomputeSkins(updates) => {
            assert_eq!(updates.len(), 1);
            assert_eq!(updates[0].skin_index, 0);
            assert_eq!(updates[0].products.len(), 2);
            assert_eq!(updates[0].products[0].root, model.global_transform);
        }
        other => panic!("skins expected, got {other:?}"),
    }
}

#[test]
fn a_frame_carried_out_by_its_phases() {
    let mut model = walking_model();
    let root = from_bits(model.global_transform);
    propagate(&mut model.nodes, root);
    let bind: Vec<[[u32; 4]; 4]> = (0..2)
        .map(|i| to_bits(mul(undo(from_bits(model.nodes.nodes()[i].transform())), root)))
        .collect();
    model.skins = vec![Skin::new(vec![0, 1], bind, to_bits(IDENTITY)).unwrap()];
    let before: Vec<[[u32; 4]; 4]> = model.nodes.nodes().iter().map(|n| n.transform()).collect();

    // A tick on a stopped clock has no phase, and nothing moves.
    let updated = model.update(50);
    assert!(!updated);
    assert!(Model::frame_phases(updated).is_empty());
    let after: Vec<[[u32; 4]; 4]> = model.nodes.nodes().iter().map(|n| n.transform()).collect();
    assert_eq!(before, after);

    model.toggle_animation();
    let updated = model.update(50);
    assert!(updated);
    for phase in Model::frame_phases(updated) {
        match model.frame_work(phase) {
            FrameWork::WriteSample(entries) => {
                for (node, partial) in entries {
                    if let Some(b) = partial.translation {
                        let f = b.offset as f32 / b.span as f32;
                        let mut v = [0u32; 3];
                        for i in 0..3 {
                            let s = f32::from_bits(b.start[i]);
                            let e = f32::from_bits(b.end[i]);
                            v[i] = (s + (e - s) * f).to_bits();
                        }
                        model.nodes.nodes_mut()[node].set_translation(v);
                    }
                }
            }
            FrameWork::Propagate(steps) => {
                for step in steps {
                    let parent = match step.parent {
                        ParentTransform::Node(p) => from_bits(model.nodes.nodes()[p].transform()),
                        ParentTransform::Given(m) => from_bits(m),
                        ParentTransform::Identity => IDENTITY,
                    };
                    let m = mul(parent, local(model.nodes.nodes()[step.node].local_transform()));
                    assert!(model.nodes.set_global_transform(step.node, to_bits(m)));
                }
            }
            FrameWork::RecomputeSkins(updates) => {
                for update in updates {
                    let matrices: Vec<[[u32; 4]; 4]> =
                        update.products.iter().map(|p| to_bits(joint_matrix(p))).collect();
                    assert!(model.skins[update.skin_index].set_joint_matrices(&matrices));
                }
            }
        }
    }
    // Every global is the parent's global after the pass times the local.
    for &(index, parent) in model.nodes.depth_first_order() {
        let parent_global = match parent {
            Some(p) => from_bits(model.nodes.nodes()[p].transform()),
            None => root,
        };
        let want = mul(parent_global, local(model.nodes.nodes()[index].local_transform()));
        assert_eq!(from_bits(model.nodes.nodes()[index].transform()), want);
    }
    assert_eq!(from_bits(model.skins[0].joints()[0].matrix), IDENTITY);
    assert_eq!(from_bits(model.skins[0].joints()[1].matrix), translation(0.5, -2.0, 0.0));
}
