use b3d2glb::b3d::{AnimClip, BoneWeight, JointInfo, MeshData, TriGroup};
use b3d2glb::b3d_parser::{Brush, Texture};
use b3d2glb::writer::{
    assemble_glb, build_brush_map, build_node_hierarchy, build_vertex_buffer, calc_bounds,
    embed_images, f32_less, index_accessors, material_for, pad_to_4, pad_to_4_in_place,
    decide_materials, plan_animation_layout, plan_animations, plan_materials, plan_mesh_views, plan_primitives, plan_skin, push_indices, push_joints, push_positions,
    push_weights, texture_alpha_mode, AccessorType, AlphaMode, BufferView, ImageInfo, MaterialPlan,
    ChannelPath, MaterialModel, Primitive, SampleTimes, COMPONENT_FLOAT, F32_GREY, COMPONENT_UINT, COMPONENT_USHORT, TARGET_ARRAY, TARGET_ELEMENTS,
};

fn f(x: f32) -> u32 {
    x.to_bits()
}

fn v3(a: f32, b: f32, c: f32) -> [u32; 3] {
    [f(a), f(b), f(c)]
}

fn empty_mesh() -> MeshData {
    MeshData { positions: vec![], normals: vec![], uvs: vec![], tri_groups: vec![], skin: vec![] }
}

#[test]
fn test_calc_bounds_basic() {
    let positions = vec![v3(1.0, 2.0, 3.0), v3(4.0, -5.0, 6.0), v3(-7.0, 8.0, -9.0)];
    let (min, max) = calc_bounds(&positions);
    assert_eq!(min, v3(-7.0, -5.0, -9.0));
    assert_eq!(max, v3(4.0, 8.0, 6.0));
}

#[test]
fn test_calc_bounds_single() {
    let positions = vec![v3(10.0, 20.0, 30.0)];
    let (min, max) = calc_bounds(&positions);
    assert_eq!(min, max);
    assert_eq!(min, v3(10.0, 20.0, 30.0));
}

#[test]
fn test_build_brush_map_empty() {
    let md = empty_mesh();
    let map = build_brush_map(&md);
    assert_eq!(map.len(), 0);
}

#[test]
fn test_build_brush_map_sorted() {
    let mut md = empty_mesh();
    md.tri_groups = vec![
        TriGroup { brush_id: 5, indices: vec![0, 1, 2] },
        TriGroup { brush_id: 2, indices: vec![3, 4, 5] },
        TriGroup { brush_id: 5, indices: vec![6, 7, 8] },
    ];
    let map = build_brush_map(&md);
    assert_eq!(map.len(), 2);
    assert_eq!(map.get(&2), Some(&0));
    assert_eq!(map.get(&5), Some(&1));
}

#[test]
fn test_build_node_hierarchy_no_joints() {
    let (nodes, scene) = build_node_hierarchy(&[], false);
    assert_eq!(nodes.len(), 2);
    assert_eq!(nodes[0].name, "armature");
    assert_eq!(nodes[1].name, "ROOT");
    assert_eq!(nodes[1].mesh, Some(0));
    assert!(nodes[1].skin.is_none());
    assert_eq!(scene, vec![1u32]);
}

#[test]
fn test_build_node_hierarchy_single_joint() {
    let joints = vec![JointInfo {
        name: "hip".into(),
        position: v3(0.0, 10.0, -5.0),
        scale: v3(1.0, 1.0, 1.0),
        rotation: [f(1.0), f(0.0), f(0.0), f(0.0)],
        parent: None,
        keys: vec![],
    }];
    let (nodes, scene) = build_node_hierarchy(&joints, true);
    assert_eq!(nodes.len(), 3);
    assert_eq!(nodes[0].name, "hip");
    assert_eq!(nodes[1].name, "armature");
    assert_eq!(nodes[1].children[0], 0);
    assert_eq!(nodes[2].name, "ROOT");
    assert_eq!(nodes[2].children[0], 1);
    assert_eq!(nodes[2].mesh, Some(0));
    assert_eq!(nodes[2].skin, Some(0));
    assert_eq!(scene.len(), 1);
    assert_eq!(scene[0], 2);
}

// ---------------------------------------------------------------------------
// Further cases
// ---------------------------------------------------------------------------

#[test]
fn pad_json_with_spaces() {
    assert_eq!(pad_to_4(b"{}"), b"{}  ".to_vec());
    assert_eq!(pad_to_4(b"abcd"), b"abcd".to_vec());
    assert_eq!(pad_to_4(b""), Vec::<u8>::new());
    assert_eq!(pad_to_4(b"abcde"), b"abcde   ".to_vec());
}

#[test]
fn pad_buffer_with_zeros() {
    let mut v = vec![1u8, 2, 3, 4, 5];
    pad_to_4_in_place(&mut v);
    assert_eq!(v, vec![1, 2, 3, 4, 5, 0, 0, 0]);
    pad_to_4_in_place(&mut v);
    assert_eq!(v.len(), 8);
}

#[test]
fn glb_layout() {
    let glb = assemble_glb(b"{}", &[1, 2, 3, 4]);
    assert_eq!(&glb[0..4], b"glTF");
    assert_eq!(u32::from_le_bytes([glb[4], glb[5], glb[6], glb[7]]), 2);
    assert_eq!(u32::from_le_bytes([glb[8], glb[9], glb[10], glb[11]]) as usize, glb.len());
    assert_eq!(glb.len(), 12 + 8 + 4 + 8 + 4);
    assert_eq!(u32::from_le_bytes([glb[12], glb[13], glb[14], glb[15]]), 4);
    assert_eq!(&glb[16..20], b"JSON");
    assert_eq!(&glb[20..24], b"{}  ");
    assert_eq!(u32::from_le_bytes([glb[24], glb[25], glb[26], glb[27]]), 4);
    assert_eq!(&glb[28..32], b"BIN\0");
    assert_eq!(&glb[32..36], &[1, 2, 3, 4]);
}

#[test]
fn positions_are_little_endian_floats() {
    let mut bin = vec![9u8];
    let off = push_positions(&mut bin, &[v3(1.0, 2.0, 3.0)]);
    assert_eq!(off, 1);
    let mut expect = vec![9u8];
    for x in [1.0f32, 2.0, 3.0] {
        expect.extend_from_slice(&x.to_le_bytes());
    }
    assert_eq!(bin, expect);
}

#[test]
fn joints_and_weights_layout() {
    let skin = vec![Some(BoneWeight { joint_idx: 3, weight: f(0.5) }), None];
    let mut bin = Vec::new();
    let jo = push_joints(&mut bin, &skin);
    assert_eq!(jo, 0);
    assert_eq!(bin, vec![3, 0, 0, 0, 0, 0, 0, 0, 0, 0, 0, 0, 0, 0, 0, 0]);
    let wo = push_weights(&mut bin, &skin);
    assert_eq!(wo, 16);
    assert_eq!(&bin[16..20], &0.5f32.to_le_bytes());
    assert_eq!(&bin[20..48], &[0u8; 28]);
}

#[test]
fn indices_and_accessors() {
    let groups = vec![
        TriGroup { brush_id: 0, indices: vec![0, 1, 2] },
        TriGroup { brush_id: 1, indices: vec![2, 1, 3, 3, 1, 4] },
    ];
    let mut bin = Vec::new();
    let off = push_indices(&mut bin, &groups);
    assert_eq!(off, 0);
    assert_eq!(bin.len(), 36);
    assert_eq!(&bin[12..16], &2u32.to_le_bytes());
    let (acc, total) = index_accessors(&groups);
    assert_eq!(acc, vec![(0, 3), (12, 6)]);
    assert_eq!(total, 9);
}

#[test]
fn vertex_buffer_offsets() {
    let mesh = MeshData {
        positions: vec![v3(0.0, 0.0, 0.0)],
        normals: vec![v3(0.0, 1.0, 0.0)],
        uvs: vec![[f(0.5), f(0.5)]],
        tri_groups: vec![TriGroup { brush_id: 0, indices: vec![0, 0, 0] }],
        skin: vec![Some(BoneWeight { joint_idx: 0, weight: f(1.0) })],
    };
    let (bin, layout) = build_vertex_buffer(&mesh, true);
    assert_eq!(layout.positions, 0);
    assert_eq!(layout.normals, 12);
    assert_eq!(layout.uvs, 24);
    assert_eq!(layout.joints, Some(32));
    assert_eq!(layout.weights, Some(40));
    assert_eq!(layout.indices, 56);
    assert_eq!(bin.len(), 68);
    let (bin2, layout2) = build_vertex_buffer(&mesh, false);
    assert_eq!(layout2.joints, None);
    assert_eq!(layout2.weights, None);
    assert_eq!(layout2.indices, 32);
    assert_eq!(bin2.len(), 44);
}

#[test]
fn float_order_on_bits() {
    assert!(f32_less(f(-1.0), f(0.5)));
    assert!(f32_less(f(-2.0), f(-1.0)));
    assert!(!f32_less(f(-0.0), f(0.0)));
    assert!(!f32_less(f(0.0), f(-0.0)));
    assert!(!f32_less(f(3.0), f(3.0)));
    assert!(!f32_less(f32::NAN.to_bits(), f(1.0)));
    assert!(!f32_less(f(1.0), f32::NAN.to_bits()));
    assert!(f32_less(f32::MIN.to_bits(), f32::MAX.to_bits()));
}

#[test]
fn bounds_of_nothing_are_the_extremes() {
    let (min, max) = calc_bounds(&[]);
    assert_eq!(min, [f32::MAX.to_bits(); 3]);
    assert_eq!(max, [f32::MIN.to_bits(); 3]);
}

#[test]
fn alpha_modes_from_hints() {
    assert_eq!(texture_alpha_mode(2, 0), Some(AlphaMode::Blend));
    assert_eq!(texture_alpha_mode(0, 1), Some(AlphaMode::Blend));
    assert_eq!(texture_alpha_mode(4, 2), Some(AlphaMode::Mask));
    assert_eq!(texture_alpha_mode(6, 2), Some(AlphaMode::Blend));
    assert_eq!(texture_alpha_mode(1, 2), None);
}

fn texture(flags: u32, blend: u32) -> Texture {
    Texture { file: "skin.bmp".into(), flags, blend, position: [0, 0], scale: [0, 0], rotation: 0 }
}

fn brush(texture_id: Vec<u32>) -> Brush {
    Brush {
        name: "b".into(),
        color: [f(0.1), f(0.2), f(0.3), f(1.0)],
        shininess: 0,
        blend: 1,
        fx: 0,
        texture_id,
    }
}

#[test]
fn material_plans() {
    let textures = vec![texture(4, 2)];
    let brushes = vec![brush(vec![0]), brush(vec![]), brush(vec![7])];
    let plans = plan_materials(&[0, 1, 2, 9], &textures, &brushes);
    assert_eq!(plans, vec![
        MaterialPlan { brush_id: 0, texture: Some(0), color: brushes[0].color, alpha_mode: Some(AlphaMode::Mask) },
        MaterialPlan { brush_id: 1, texture: None, color: brushes[1].color, alpha_mode: None },
        MaterialPlan { brush_id: 2, texture: None, color: brushes[2].color, alpha_mode: None },
    ]);
}

#[test]
fn material_lookup_falls_back_to_zero() {
    let mut md = empty_mesh();
    md.tri_groups = vec![
        TriGroup { brush_id: 7, indices: vec![] },
        TriGroup { brush_id: 3, indices: vec![] },
    ];
    let map = build_brush_map(&md);
    assert_eq!(material_for(&map, 3), 0);
    assert_eq!(material_for(&map, 7), 1);
    assert_eq!(material_for(&map, 4), 0);
}

#[test]
fn images_are_aligned() {
    let images = vec![
        ImageInfo { mime: "image/png".into(), data: vec![1, 2, 3] },
        ImageInfo { mime: "image/png".into(), data: vec![4, 5, 6, 7, 8] },
    ];
    let mut bin = vec![0xAAu8; 6];
    let views = embed_images(&mut bin, &images);
    assert_eq!(views, vec![(8, 3), (12, 5)]);
    assert_eq!(bin.len(), 20);
    assert_eq!(&bin[6..8], &[0, 0]);
    assert_eq!(&bin[8..12], &[1, 2, 3, 0]);
    assert_eq!(&bin[12..20], &[4, 5, 6, 7, 8, 0, 0, 0]);
}

fn two_group_mesh(skinned: bool) -> MeshData {
    MeshData {
        positions: vec![v3(0.0, 0.0, 0.0), v3(1.0, -1.0, 2.0)],
        normals: vec![v3(0.0, 1.0, 0.0), v3(0.0, 1.0, 0.0)],
        uvs: vec![[f(0.0), f(0.0)], [f(1.0), f(1.0)]],
        tri_groups: vec![
            TriGroup { brush_id: 4, indices: vec![0, 1, 0] },
            TriGroup { brush_id: 1, indices: vec![1, 0, 1, 0, 0, 1] },
        ],
        skin: if skinned { vec![Some(BoneWeight { joint_idx: 0, weight: f(1.0) }), None] } else { vec![None, None] },
    }
}

#[test]
fn mesh_views_unskinned() {
    let mesh = two_group_mesh(false);
    let (_, layout) = build_vertex_buffer(&mesh, false);
    let mv = plan_mesh_views(&mesh, layout);
    assert_eq!(mv.views, vec![
        BufferView { offset: 0, length: 24, stride: 12, target: TARGET_ARRAY },
        BufferView { offset: 24, length: 24, stride: 12, target: TARGET_ARRAY },
        BufferView { offset: 48, length: 16, stride: 8, target: TARGET_ARRAY },
        BufferView { offset: 64, length: 36, stride: 0, target: TARGET_ELEMENTS },
    ]);
    assert_eq!(mv.accessors.len(), 5);
    assert_eq!(mv.accessors[0].bounds, Some((v3(0.0, -1.0, 0.0), v3(1.0, 0.0, 2.0))));
    assert_eq!(mv.accessors[2].kind, AccessorType::Vec2);
    assert_eq!(mv.accessors[3].buffer_view, 3);
    assert_eq!(mv.accessors[3].byte_offset, Some(0));
    assert_eq!(mv.accessors[3].count, 3);
    assert_eq!(mv.accessors[4].byte_offset, Some(12));
    assert_eq!(mv.accessors[4].count, 6);
    assert_eq!(mv.accessors[4].component_type, COMPONENT_UINT);
    assert_eq!(mv.joints_accessor, None);
    assert_eq!(mv.first_index_accessor, 3);
}

#[test]
fn mesh_views_skinned() {
    let mesh = two_group_mesh(true);
    let (_, layout) = build_vertex_buffer(&mesh, true);
    let mv = plan_mesh_views(&mesh, layout);
    assert_eq!(mv.views.len(), 6);
    assert_eq!(mv.views[3], BufferView { offset: 64, length: 16, stride: 0, target: TARGET_ARRAY });
    assert_eq!(mv.views[4], BufferView { offset: 80, length: 32, stride: 0, target: TARGET_ARRAY });
    assert_eq!(mv.views[5].offset, 112);
    assert_eq!(mv.accessors[3].component_type, COMPONENT_USHORT);
    assert_eq!(mv.accessors[4].component_type, COMPONENT_FLOAT);
    assert_eq!(mv.accessors[5].buffer_view, 5);
    assert_eq!(mv.joints_accessor, Some(3));
    assert_eq!(mv.weights_accessor, Some(4));
    assert_eq!(mv.first_index_accessor, 5);

    let map = build_brush_map(&mesh);
    let prims = plan_primitives(&mesh, &map, mv.first_index_accessor, mv.joints_accessor, mv.weights_accessor);
    assert_eq!(prims, vec![
        Primitive { indices: 5, material: 1, joints: Some(3), weights: Some(4) },
        Primitive { indices: 6, material: 0, joints: Some(3), weights: Some(4) },
    ]);
    let plain = plan_primitives(&mesh, &map, 3, Some(3), None);
    assert_eq!(plain[0].joints, None);
    assert_eq!(plain[0].weights, None);
}

#[test]
fn animation_layout_is_contiguous() {
    let joints = vec![JointInfo {
        name: "j".into(),
        position: v3(0.0, 0.0, 0.0),
        scale: v3(1.0, 1.0, 1.0),
        rotation: [f(1.0), f(0.0), f(0.0), f(0.0)],
        parent: Some(0),
        keys: vec![
            (0, v3(1.0, 0.0, 0.0), v3(0.0, 0.0, 0.0), [0; 4]),
            (5, v3(2.0, 0.0, 0.0), v3(0.0, 0.0, 0.0), [0; 4]),
            (9, v3(3.0, 0.0, 0.0), v3(0.0, 0.0, 0.0), [0; 4]),
        ],
    }];
    let clips = vec![AnimClip { name: "walk".into(), fps: f(10.0), first_frame: 0, last_frame: 9 }];
    let plans = plan_animations(&clips, &joints);
    assert_eq!(plans.len(), 1);
    let layout = plan_animation_layout(&plans, 100, 7, 11);
    assert_eq!(layout.len(), 3);
    // translation: 3 samples
    assert_eq!(layout[0].path, ChannelPath::Translation);
    assert_eq!(layout[0].time_view, BufferView { offset: 100, length: 12, stride: 0, target: TARGET_ARRAY });
    assert_eq!(layout[0].value_view, BufferView { offset: 112, length: 36, stride: 12, target: TARGET_ARRAY });
    assert_eq!(layout[0].time_accessor.buffer_view, 7);
    assert_eq!(layout[0].value_accessor.buffer_view, 8);
    assert_eq!(layout[0].value_accessor.kind, AccessorType::Vec3);
    assert_eq!((layout[0].input, layout[0].output), (11, 12));
    // scale: endpoints only
    assert_eq!(layout[1].time_view.offset, 148);
    assert_eq!(layout[1].time_view.length, 8);
    assert_eq!(layout[1].value_view, BufferView { offset: 156, length: 24, stride: 12, target: TARGET_ARRAY });
    assert_eq!((layout[1].input, layout[1].output), (13, 14));
    // rotation: endpoints, four floats each
    assert_eq!(layout[2].time_view.offset, 180);
    assert_eq!(layout[2].value_view, BufferView { offset: 188, length: 32, stride: 16, target: TARGET_ARRAY });
    assert_eq!(layout[2].value_accessor.kind, AccessorType::Vec4);
    assert_eq!(layout[2].time_accessor.buffer_view, 11);
}

#[test]
fn skin_layout() {
    let skin = plan_skin(96, 3, 9);
    assert_eq!(skin.view, BufferView { offset: 96, length: 192, stride: 0, target: TARGET_ARRAY });
    assert_eq!(skin.accessor.buffer_view, 9);
    assert_eq!(skin.accessor.count, 3);
    assert_eq!(skin.accessor.kind, AccessorType::Mat4);
    assert_eq!(skin.joints, vec![0, 1, 2]);
}

fn plan(brush_id: u32, texture: Option<usize>, alpha_mode: Option<AlphaMode>) -> MaterialPlan {
    MaterialPlan { brush_id, texture, color: [f(0.1), f(0.2), f(0.3), f(1.0)], alpha_mode }
}

const WHITE: [u32; 4] = [0x3F80_0000; 4];

#[test]
fn materials_from_loads() {
    let plans = vec![
        plan(0, None, None),
        plan(1, Some(0), Some(AlphaMode::Mask)),
        plan(2, Some(1), None),
        plan(3, Some(2), Some(AlphaMode::Blend)),
    ];
    let loaded = vec![None, None, Some(Some(AlphaMode::Blend)), Some(None)];
    let (mats, images) = decide_materials(&plans, &loaded, None, None, None);
    assert_eq!(images, 2);
    assert_eq!(mats, vec![
        MaterialModel { base_color: plans[0].color, texture: None, metallic: 0, roughness: f(1.0), alpha: None },
        MaterialModel { base_color: WHITE, texture: None, metallic: 0, roughness: f(1.0), alpha: Some(AlphaMode::Mask) },
        MaterialModel { base_color: WHITE, texture: Some(0), metallic: 0, roughness: f(1.0), alpha: Some(AlphaMode::Blend) },
        MaterialModel { base_color: WHITE, texture: Some(1), metallic: 0, roughness: f(1.0), alpha: None },
    ]);
}

#[test]
fn materials_with_params_and_override() {
    let plans = vec![plan(0, None, None)];
    let red = [f(1.0), 0, 0, f(1.0)];
    let (mats, images) = decide_materials(&plans, &[None], None, Some((f(0.5), f(0.25))), Some(red));
    assert_eq!(images, 0);
    assert_eq!(mats, vec![MaterialModel { base_color: red, texture: None, metallic: f(0.5), roughness: f(0.25), alpha: None }]);
}

#[test]
fn materials_take_the_model_texture() {
    let plans = vec![plan(0, None, None), plan(1, Some(0), Some(AlphaMode::Blend))];
    let (mats, images) = decide_materials(&plans, &[None, None], Some(true), None, None);
    assert_eq!(images, 1);
    assert!(mats.iter().all(|m| m.base_color == WHITE && m.texture == Some(0) && m.alpha == Some(AlphaMode::Mask)));
    let (mats, _) = decide_materials(&plans, &[None, None], Some(false), None, None);
    assert_eq!(mats[0].alpha, None);
    assert_eq!(mats[1].alpha, Some(AlphaMode::Blend));
}

#[test]
fn no_plans_give_one_fallback_material() {
    let (mats, images) = decide_materials(&[], &[], Some(true), None, None);
    assert_eq!(images, 0);
    assert_eq!(mats, vec![MaterialModel {
        base_color: [F32_GREY, F32_GREY, F32_GREY, f(1.0)],
        texture: None,
        metallic: 0,
        roughness: f(1.0),
        alpha: None,
    }]);
    assert_eq!(F32_GREY, f(0.8));
}

#[test]
fn keyless_channels_start_at_zero() {
    let joints = vec![JointInfo {
        name: "j".into(),
        position: v3(0.0, 0.0, 0.0),
        scale: v3(1.0, 1.0, 1.0),
        rotation: [f(1.0), f(0.0), f(0.0), f(0.0)],
        parent: Some(0),
        keys: vec![
            (5, v3(1.0, 0.0, 0.0), v3(0.0, 0.0, 0.0), [0; 4]),
            (9, v3(3.0, 0.0, 0.0), v3(0.0, 0.0, 0.0), [0; 4]),
        ],
    }];
    let clips = vec![AnimClip { name: "c".into(), fps: f(10.0), first_frame: 0, last_frame: 20 }];
    let plans = plan_animations(&clips, &joints);
    match &plans[0].channels[0].times {
        SampleTimes::Frames(fr) => assert_eq!(fr, &vec![0, 4]),
        other => panic!("unexpected times {:?}", other),
    }
    for k in 1..3 {
        match &plans[0].channels[k].times {
            SampleTimes::Endpoints(a, b) => assert_eq!((*a, *b), (0, 4)),
            other => panic!("unexpected times {:?}", other),
        }
    }
}
