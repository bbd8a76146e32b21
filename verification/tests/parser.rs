use b3d2glb::b3d_parser::{eof, read_null_term_string, Animation, Bone, Chunk, Error, Key, Node, Reader, Texture, B3D};

fn f(x: f32) -> u32 {
    x.to_bits()
}

fn push_u32(data: &mut Vec<u8>, v: u32) {
    data.extend_from_slice(&v.to_le_bytes());
}

fn push_f32s(data: &mut Vec<u8>, vs: &[f32]) {
    for v in vs {
        data.extend_from_slice(&v.to_le_bytes());
    }
}

fn write_chunk(data: &mut Vec<u8>, tag: &[u8; 4], size: u32) {
    data.extend_from_slice(tag);
    push_u32(data, size);
}

fn close(a: u32, b: f32) -> bool {
    (f32::from_bits(a) - b).abs() < 0.001
}

#[test]
fn test_invalid_magic() {
    let bad = b"BBXD\x00\x00\x00\x00\x01\x00\x00\x00";
    let result = B3D::read(bad);
    assert!(result.is_err(), "should reject invalid magic");
}

#[test]
fn test_empty_data() {
    let result = B3D::read(b"");
    assert!(result.is_err(), "should reject empty data");
}

#[test]
fn test_truncated_data() {
    let bad = b"BB3D\x14\x00\x00\x00\x01\x00\x00\x00";
    let result = B3D::read(bad);
    assert!(result.is_err(), "should reject truncated data");
}

#[test]
fn test_too_short_header() {
    let result = B3D::read(b"BB3");
    assert!(result.is_err(), "should reject too-short header");
}

#[test]
fn test_unknown_chunk_type() {
    let data = b"BB3D\x1c\x00\x00\x00\x01\x00\x00\x00XXXX\x08\x00\x00\x00\x00\x00\x00\x00";
    let result = B3D::read(data);
    assert!(result.is_err(), "should reject unknown chunk");
}

#[test]
fn test_keys_merge_multiple_chunks() {
    let mut data = Vec::new();
    write_chunk(&mut data, b"BB3D", 0);
    push_u32(&mut data, 1);

    write_chunk(&mut data, b"NODE", 0);
    let node_start = data.len();
    data.extend_from_slice(b"test_joint\x00");
    push_f32s(&mut data, &[1.0, 2.0, 3.0]);
    push_f32s(&mut data, &[1.0, 1.0, 1.0]);
    push_f32s(&mut data, &[1.0, 0.0, 0.0, 0.0]);

    let keys1_start = data.len();
    write_chunk(&mut data, b"KEYS", 0);
    let keys1_data_start = data.len();
    push_u32(&mut data, 1);
    push_u32(&mut data, 0);
    push_f32s(&mut data, &[10.0, 20.0, 30.0]);
    push_u32(&mut data, 1);
    push_f32s(&mut data, &[11.0, 21.0, 31.0]);
    let keys1_size = (data.len() - keys1_data_start) as u32;
    data[keys1_start + 4..keys1_start + 8].copy_from_slice(&keys1_size.to_le_bytes());

    let keys2_start = data.len();
    write_chunk(&mut data, b"KEYS", 0);
    let keys2_data_start = data.len();
    push_u32(&mut data, 4);
    push_u32(&mut data, 0);
    push_f32s(&mut data, &[0.7071, 0.7071, 0.0, 0.0]);
    push_u32(&mut data, 1);
    push_f32s(&mut data, &[0.0, 1.0, 0.0, 0.0]);
    let keys2_size = (data.len() - keys2_data_start) as u32;
    data[keys2_start + 4..keys2_start + 8].copy_from_slice(&keys2_size.to_le_bytes());

    let node_size = (data.len() - node_start) as u32;
    data[node_start - 4..node_start].copy_from_slice(&node_size.to_le_bytes());
    let bb3d_size = (data.len() - 8) as u32;
    data[4..8].copy_from_slice(&bb3d_size.to_le_bytes());

    let b3d = B3D::read(&data).unwrap();
    assert_eq!(b3d.version, 1);
    assert_eq!(b3d.node.name, "test_joint");
    assert_eq!(b3d.node.key_flags, 5,
        "key_flags should be 1|4=5 after merging two KEYS chunks, got {}", b3d.node.key_flags);
    assert_eq!(b3d.node.keys.len(), 4,
        "should have 4 keys (2 pos + 2 rot), got {}", b3d.node.keys.len());

    assert_eq!(b3d.node.keys[0].frame, 0);
    assert!(close(b3d.node.keys[0].position[0], 10.0));
    assert!(close(b3d.node.keys[0].position[1], 20.0));
    assert!(close(b3d.node.keys[0].position[2], 30.0));
    assert_eq!(b3d.node.keys[0].rotation, [f(0.0), f(0.0), f(0.0), f(0.0)],
        "position KEYS chunk should not have rotation data");
    assert_eq!(b3d.node.keys[1].frame, 1);
    assert!(close(b3d.node.keys[1].position[0], 11.0));

    assert_eq!(b3d.node.keys[2].frame, 0);
    assert!(close(b3d.node.keys[2].rotation[0], 0.7071));
    assert!(close(b3d.node.keys[2].rotation[1], 0.7071));
    assert_eq!(b3d.node.keys[2].position, [f(0.0), f(0.0), f(0.0)],
        "rotation KEYS chunk should not have position data");
    assert_eq!(b3d.node.keys[3].frame, 1);
    assert!(close(b3d.node.keys[3].rotation[1], 1.0));
}

#[test]
fn test_chunk_read_valid() {
    let bytes = b"TEXS\x10\x00\x00\x00\x00\x00\x00\x00\x00\x00\x00\x00\x00\x00\x00\x00\x00\x00\x00\x00";
    let mut buf = Reader::new(bytes);
    let chunk = Chunk::read(&mut buf).unwrap();
    assert_eq!(chunk.tag, "TEXS");
    assert_eq!(chunk.size, 16);
}

#[test]
fn test_chunk_display() {
    let bytes = b"TEXS\x10\x00\x00\x00\x00\x00\x00\x00\x00\x00\x00\x00\x00\x00\x00\x00\x00\x00\x00\x00";
    let mut buf = Reader::new(bytes);
    let chunk = Chunk::read(&mut buf).unwrap();
    let s = chunk.describe();
    assert!(s.contains("TEXS"));
    assert!(s.contains("Size: 16"));
}

#[test]
fn test_read_null_term_string() {
    let bytes = b"hello\x00world";
    let mut buf = Reader::new(bytes);
    let s = read_null_term_string(&mut buf);
    assert_eq!(s, "hello");
    let rest: Vec<u8> = buf.remaining().to_vec();
    assert_eq!(rest, b"world");
}

#[test]
fn test_eof_before_end() {
    let bytes = b"\x00\x00\x00\x00\x00\x00\x00\x00\x00\x00";
    let buf = Reader::new(bytes);
    let result = eof(&buf, 100);
    assert!(result, "stream_pos < next, should be true");
}

#[test]
fn test_eof_at_end() {
    let bytes = b"\x00\x00\x00\x00";
    let mut buf = Reader::new(bytes);
    buf.seek_to_end();
    let result = eof(&buf, 4);
    assert!(!result, "stream_pos == next, should be false");
}

#[test]
fn test_read_bone() {
    let bytes = b"\x2a\x00\x00\x00\x00\x00\x80\x3f";
    let mut buf = Reader::new(bytes);
    let bone = Bone::read(&mut buf).unwrap();
    assert_eq!(bone.vertex_id, 42);
    assert!(close(bone.weight, 1.0));
}

#[test]
fn test_read_key_position_only() {
    let bytes = b"\x05\x00\x00\x00\x00\x00\x00\x40\x00\x00\x40\x40\x00\x00\x80\x40";
    let mut buf = Reader::new(bytes);
    let key = Key::read(&mut buf, 1).unwrap();
    assert_eq!(key.frame, 5);
    assert!(close(key.position[0], 2.0));
    assert!(close(key.position[1], 3.0));
    assert!(close(key.position[2], 4.0));
    assert_eq!(key.scale, [f(0.0), f(0.0), f(0.0)]);
    assert_eq!(key.rotation, [f(0.0), f(0.0), f(0.0), f(0.0)]);
}

#[test]
fn test_read_key_rotation_only() {
    let bytes = b"\x00\x00\x00\x00\x00\x00\x00\x00\x00\x00\x00\x00\x00\x00\x00\x00\x00\x00\x80\x3f";
    let mut buf = Reader::new(bytes);
    let key = Key::read(&mut buf, 4).unwrap();
    assert_eq!(key.frame, 0);
    assert_eq!(key.position, [f(0.0), f(0.0), f(0.0)]);
    assert_eq!(key.scale, [f(0.0), f(0.0), f(0.0)]);
    assert!(close(key.rotation[3], 1.0));
}

#[test]
fn test_read_texture() {
    let mut bytes = Vec::new();
    bytes.extend_from_slice(b"test.tex\x00");
    push_u32(&mut bytes, 1);
    push_u32(&mut bytes, 2);
    push_f32s(&mut bytes, &[0.5, 1.5]);
    push_f32s(&mut bytes, &[2.0, 3.0]);
    push_f32s(&mut bytes, &[45.0_f32.to_radians()]);
    let tex = Texture::read(&mut Reader::new(&bytes)).unwrap();
    assert_eq!(tex.file, "test.tex");
    assert_eq!(tex.flags, 1);
    assert_eq!(tex.blend, 2);
    assert!(close(tex.position[0], 0.5));
    assert!(close(tex.scale[0], 2.0));
}

#[test]
fn test_read_animation() {
    let bytes = b"\x01\x00\x00\x00\x64\x00\x00\x00\x00\x00\x00\x00";
    let mut buf = Reader::new(bytes);
    let anim = Animation::read(&mut buf, 0).unwrap();
    assert_eq!(anim.flags, 1);
    assert_eq!(anim.frames, 100);
}

#[test]
fn test_read_keys_with_position_flags() {
    let data = b"\x00\x00\x00\x00\x00\x00\x00\x40\x00\x00\x00\x40\x00\x00\x00\x40\x01\x00\x00\x00\x00\x00\x80\x40\x00\x00\x40\x40\x00\x00\x00\x40";
    let keys = Node::read_keys(&mut Reader::new(data), data.len() as u64, 1).unwrap();
    assert_eq!(keys.len(), 2);
    assert_eq!(keys[0].frame, 0);
    assert!(close(keys[0].position[0], 2.0));
    assert_eq!(keys[1].frame, 1);
    assert!(close(keys[1].position[0], 4.0));
}

#[test]
fn test_minimal_node() {
    let mut data = Vec::new();
    data.extend_from_slice(b"test\x00");
    push_f32s(&mut data, &[0.0, 0.0, 0.0]);
    push_f32s(&mut data, &[1.0, 1.0, 1.0]);
    push_f32s(&mut data, &[1.0, 0.0, 0.0, 0.0]);
    let mut cursor = Reader::new(&data);
    let node = Node::read(&mut cursor, data.len() as u64).unwrap();
    assert_eq!(node.name, "test");
    assert_eq!(node.children.len(), 0);
    assert_eq!(node.bones.len(), 0);
    assert_eq!(node.keys.len(), 0);
}

// ---------------------------------------------------------------------------
// Further cases
// ---------------------------------------------------------------------------

#[test]
fn error_variants() {
    assert!(matches!(B3D::read(b"BB3"), Err(Error::UnexpectedEof)));
    assert!(matches!(B3D::read(b"\xff\xfe\xfd\xfc\x00\x00\x00\x00"), Err(Error::Utf8)));
    match B3D::read(b"BBXD\x00\x00\x00\x00\x01\x00\x00\x00") {
        Err(Error::InvalidChunk(c)) => {
            assert_eq!(c.tag, "BBXD");
            assert_eq!(c.size, 0);
        }
        other => panic!("expected InvalidChunk, got {:?}", other),
    }
}

#[test]
fn unknown_chunk_is_reported_with_its_header() {
    let data = b"BB3D\x1c\x00\x00\x00\x01\x00\x00\x00XXXX\x08\x00\x00\x00\x00\x00\x00\x00";
    match B3D::read(data) {
        Err(Error::InvalidChunk(c)) => {
            assert_eq!(c.tag, "XXXX");
            assert_eq!(c.size, 8);
            assert_eq!(c.describe(), "Tag: XXXX, Size: 8");
        }
        other => panic!("expected InvalidChunk, got {:?}", other),
    }
}

#[test]
fn header_only_file_has_empty_root() {
    let data = b"BB3D\x04\x00\x00\x00\x01\x00\x00\x00";
    let b3d = B3D::read(data).unwrap();
    assert_eq!(b3d.version, 1);
    assert!(b3d.textures.is_empty());
    assert!(b3d.brushes.is_empty());
    assert_eq!(b3d.node.name, "");
    assert!(b3d.node.children.is_empty());
}

#[test]
fn name_without_terminator_runs_to_end() {
    let bytes = b"abc";
    let mut buf = Reader::new(bytes);
    let s = read_null_term_string(&mut buf);
    assert_eq!(s, "abc");
    assert_eq!(buf.position(), 3);
    assert!(buf.remaining().is_empty());
}

#[test]
fn name_with_invalid_utf8_is_replaced() {
    let bytes = b"a\xffb\x00";
    let mut buf = Reader::new(bytes);
    let s = read_null_term_string(&mut buf);
    assert_eq!(s, "a\u{fffd}b");
    assert_eq!(buf.position(), 4);
}

#[test]
fn read_u32_past_end_fails() {
    let bytes = b"\x01\x02\x03";
    let mut buf = Reader::new(bytes);
    assert!(matches!(buf.read_u32(), Err(Error::UnexpectedEof)));
}

#[test]
fn key_with_all_parts() {
    let mut bytes = Vec::new();
    push_u32(&mut bytes, 7);
    push_f32s(&mut bytes, &[1.0, 2.0, 3.0, 4.0, 5.0, 6.0, 0.5, 0.5, 0.5, 0.5]);
    let mut buf = Reader::new(&bytes);
    let key = Key::read(&mut buf, 7).unwrap();
    assert_eq!(key.frame, 7);
    assert_eq!(key.position, [f(1.0), f(2.0), f(3.0)]);
    assert_eq!(key.scale, [f(4.0), f(5.0), f(6.0)]);
    assert_eq!(key.rotation, [f(0.5), f(0.5), f(0.5), f(0.5)]);
    assert_eq!(buf.position(), 44);
}
