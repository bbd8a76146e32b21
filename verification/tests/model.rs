use b3d2glb::b3d::{collect_anims, collect_joints, collect_mesh, normals_missing, BoneWeight, DEFAULT_FPS};
use b3d2glb::b3d_parser::B3D;
use b3d2glb::writer::{
    apply_skin, build_brush_map, extract_model, build_node_hierarchy, has_skin, plan_animations, plan_materials,
    sorted_brush_ids, ChannelPath, ChannelValues, NodeRotation, SampleTimes,
};

fn f(x: f32) -> u32 {
    x.to_bits()
}

fn u32s(vs: &[u32]) -> Vec<u8> {
    let mut out = Vec::new();
    for v in vs {
        out.extend_from_slice(&v.to_le_bytes());
    }
    out
}

fn floats(vs: &[f32]) -> Vec<u8> {
    let mut out = Vec::new();
    for v in vs {
        out.extend_from_slice(&v.to_le_bytes());
    }
    out
}

fn chunk(tag: &[u8; 4], body: &[u8]) -> Vec<u8> {
    let mut out = Vec::new();
    out.extend_from_slice(tag);
    out.extend_from_slice(&(body.len() as u32).to_le_bytes());
    out.extend_from_slice(body);
    out
}

fn node_header(name: &str) -> Vec<u8> {
    let mut out = Vec::new();
    out.extend_from_slice(name.as_bytes());
    out.push(0);
    out.extend(floats(&[0.0, 1.0, 2.0, 1.0, 1.0, 1.0, 1.0, 0.0, 0.0, 0.0]));
    out
}

/// A root mesh with three vertices and one triangle, a joint `hip` with two bones and
/// position keys, a child joint `knee` with one bone, and 20 frames at 25 fps.
fn sample_model() -> Vec<u8> {
    let mut vrts = u32s(&[0, 1, 2]);
    vrts.extend(floats(&[1.0, 2.0, 3.0, 0.0, 0.0]));
    vrts.extend(floats(&[4.0, 5.0, 6.0, 1.0, 0.0]));
    vrts.extend(floats(&[7.0, 8.0, 9.0, 0.0, 1.0]));
    let mut tris = u32s(&[0]);
    tris.extend(u32s(&[0, 1, 2]));
    let mut mesh = u32s(&[0xFFFF_FFFF]);
    mesh.extend(chunk(b"VRTS", &vrts));
    mesh.extend(chunk(b"TRIS", &tris));

    let mut knee = node_header("knee");
    let mut bone = u32s(&[2]);
    bone.extend(floats(&[1.0]));
    knee.extend(chunk(b"BONE", &bone));

    let mut hip = node_header("hip");
    let mut bones = u32s(&[0]);
    bones.extend(floats(&[1.0]));
    bones.extend(u32s(&[1]));
    bones.extend(floats(&[0.5]));
    bones.extend(u32s(&[7]));
    bones.extend(floats(&[1.0]));
    hip.extend(chunk(b"BONE", &bones));
    let mut keys = u32s(&[1, 0]);
    keys.extend(floats(&[1.0, 0.0, 0.0]));
    keys.extend(u32s(&[10]));
    keys.extend(floats(&[2.0, 0.0, 0.0]));
    hip.extend(chunk(b"KEYS", &keys));
    hip.extend(chunk(b"NODE", &knee));

    let mut root = node_header("ROOT");
    root.extend(chunk(b"MESH", &mesh));
    let mut anim = u32s(&[0, 20]);
    anim.extend(floats(&[25.0]));
    root.extend(chunk(b"ANIM", &anim));
    root.extend(chunk(b"NODE", &hip));

    let mut body = u32s(&[1]);
    body.extend(chunk(b"NODE", &root));
    chunk(b"BB3D", &body)
}

#[test]
fn joints_follow_the_tree() {
    let b3d = B3D::read(&sample_model()).unwrap();
    let mut joints = Vec::new();
    let mut vertex_joint = vec![None; 3];
    collect_joints(&b3d.node, None, &mut joints, &mut vertex_joint, 3, true);
    assert_eq!(joints.len(), 2);
    assert_eq!(joints[0].name, "hip");
    assert_eq!(joints[0].parent, None);
    assert_eq!(joints[0].keys.len(), 2);
    assert_eq!(joints[0].keys[1].0, 10);
    assert_eq!(joints[1].name, "knee");
    assert_eq!(joints[1].parent, Some(0));
    assert_eq!(vertex_joint, vec![Some((0, f(1.0))), Some((0, f(0.5))), Some((1, f(1.0)))]);
}

#[test]
fn anims_default_clip() {
    let b3d = B3D::read(&sample_model()).unwrap();
    let clips = collect_anims(&b3d.node);
    assert_eq!(clips.len(), 1);
    assert_eq!(clips[0].name, "default");
    assert_eq!(clips[0].fps, f(25.0));
    assert_eq!(clips[0].first_frame, 0);
    assert_eq!(clips[0].last_frame, 19);
}

#[test]
fn anims_none_without_frames() {
    let b3d = B3D::read(b"BB3D\x04\x00\x00\x00\x01\x00\x00\x00").unwrap();
    assert!(collect_anims(&b3d.node).is_empty());
    assert_eq!(DEFAULT_FPS, f(30.0));
}

#[test]
fn mesh_in_gltf_space() {
    let b3d = B3D::read(&sample_model()).unwrap();
    let mesh = collect_mesh(&b3d);
    assert_eq!(mesh.positions, vec![
        [f(1.0), f(2.0), f(-3.0)],
        [f(4.0), f(5.0), f(-6.0)],
        [f(7.0), f(8.0), f(-9.0)],
    ]);
    assert_eq!(mesh.uvs, vec![[f(0.0), f(0.0)], [f(1.0), f(0.0)], [f(0.0), f(1.0)]]);
    assert_eq!(mesh.tri_groups.len(), 1);
    assert_eq!(mesh.tri_groups[0].brush_id, 0);
    assert_eq!(mesh.tri_groups[0].indices, vec![0, 2, 1]);
    assert_eq!(mesh.skin, vec![None, None, None]);
    assert!(normals_missing(&b3d));
}

#[test]
fn skin_and_hierarchy() {
    let b3d = B3D::read(&sample_model()).unwrap();
    let mut joints = Vec::new();
    let mut vertex_joint = vec![None; 3];
    collect_joints(&b3d.node, None, &mut joints, &mut vertex_joint, 3, true);
    let mut mesh = collect_mesh(&b3d);
    assert!(!has_skin(&mesh, &joints));
    apply_skin(&mut mesh, &vertex_joint);
    assert!(has_skin(&mesh, &joints));
    assert_eq!(mesh.skin[1], Some(BoneWeight { joint_idx: 0, weight: f(0.5) }));

    let (nodes, scene) = build_node_hierarchy(&joints, true);
    assert_eq!(nodes.len(), 4);
    assert_eq!(nodes[0].name, "hip");
    assert_eq!(nodes[0].children, vec![1]);
    assert_eq!(nodes[0].translation, Some([f(0.0), f(1.0), f(-2.0)]));
    assert_eq!(nodes[0].rotation, Some(NodeRotation::RootOf([f(1.0), f(0.0), f(0.0), f(0.0)])));
    assert_eq!(nodes[1].name, "knee");
    assert_eq!(nodes[1].translation, Some([f(0.0), f(2.0), f(1.0)]));
    assert_eq!(nodes[1].rotation, Some(NodeRotation::Gltf([f(0.0), f(0.0), f(0.0), f(1.0)])));
    assert!(nodes[1].children.is_empty());
    assert_eq!(nodes[2].name, "armature");
    assert_eq!(nodes[2].children, vec![0]);
    assert_eq!(nodes[3].name, "ROOT");
    assert_eq!(nodes[3].skin, Some(0));
    assert_eq!(scene, vec![3]);
}

#[test]
fn animation_channels() {
    let b3d = B3D::read(&sample_model()).unwrap();
    let mut joints = Vec::new();
    let mut vertex_joint = vec![None; 3];
    collect_joints(&b3d.node, None, &mut joints, &mut vertex_joint, 3, true);
    let clips = collect_anims(&b3d.node);
    let plans = plan_animations(&clips, &joints);
    assert_eq!(plans.len(), 1);
    assert_eq!(plans[0].name, "default");
    assert_eq!(plans[0].fps, f(25.0));
    // only `hip` has keys: translation, scale, rotation
    assert_eq!(plans[0].channels.len(), 3);
    let t = &plans[0].channels[0];
    assert_eq!(t.node, 0);
    assert_eq!(t.path, ChannelPath::Translation);
    match &t.times {
        SampleTimes::Frames(fr) => assert_eq!(fr, &vec![0, 10]),
        other => panic!("unexpected times {:?}", other),
    }
    match &t.values {
        ChannelValues::Vec3s(v) => assert_eq!(v, &vec![[f(1.0), f(0.0), f(-0.0)], [f(2.0), f(0.0), f(-0.0)]]),
        other => panic!("unexpected values {:?}", other),
    }
    let s = &plans[0].channels[1];
    assert_eq!(s.path, ChannelPath::Scale);
    match &s.times {
        SampleTimes::Endpoints(a, b) => assert_eq!((*a, *b), (0, 10)),
        other => panic!("unexpected times {:?}", other),
    }
    let r = &plans[0].channels[2];
    assert_eq!(r.path, ChannelPath::Rotation);
    match &r.values {
        ChannelValues::RootQuats(v) => assert_eq!(v.len(), 2),
        other => panic!("unexpected values {:?}", other),
    }
}

#[test]
fn clip_outside_key_range_has_no_animation() {
    let b3d = B3D::read(&sample_model()).unwrap();
    let mut joints = Vec::new();
    let mut vertex_joint = vec![None; 3];
    collect_joints(&b3d.node, None, &mut joints, &mut vertex_joint, 3, true);
    let clips = vec![b2g_clip("late", 100, 200)];
    assert!(plan_animations(&clips, &joints).is_empty());
}

fn b2g_clip(name: &str, first: u32, last: u32) -> b3d2glb::b3d::AnimClip {
    b3d2glb::b3d::AnimClip { name: name.to_string(), fps: 0, first_frame: first, last_frame: last }
}

#[test]
fn materials_follow_sorted_brush_ids() {
    let b3d = B3D::read(&sample_model()).unwrap();
    let mesh = collect_mesh(&b3d);
    let ids = sorted_brush_ids(&mesh);
    assert_eq!(ids, vec![0]);
    let map = build_brush_map(&mesh);
    assert_eq!(map.get(&0), Some(&0));
    // the file has no brushes: no material plan
    assert!(plan_materials(&ids, &b3d.textures, &b3d.brushes).is_empty());
}

#[test]
fn model_parts_of_a_file() {
    let b3d = B3D::read(&sample_model()).unwrap();
    let parts = extract_model(&b3d).unwrap();
    assert_eq!(parts.joints.len(), 2);
    assert_eq!(parts.joints[1].parent, Some(0));
    assert_eq!(parts.mesh.skin, vec![
        Some(BoneWeight { joint_idx: 0, weight: f(1.0) }),
        Some(BoneWeight { joint_idx: 0, weight: f(0.5) }),
        Some(BoneWeight { joint_idx: 1, weight: f(1.0) }),
    ]);
    assert_eq!(parts.mesh.tri_groups[0].indices, vec![0, 2, 1]);
    assert_eq!(parts.clips.len(), 1);
    let empty = B3D::read(b"BB3D\x04\x00\x00\x00\x01\x00\x00\x00").unwrap();
    assert!(extract_model(&empty).is_none());
}
