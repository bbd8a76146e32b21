//! The B3D file format as spec functions over the file's bytes.
//!
//! A B3D file is a tree of chunks. Each chunk starts with a four-byte tag and a
//! little-endian byte count; its content runs up to `next`, the position just past
//! that count. Scalars are little-endian words; single-precision floats are kept as
//! their IEEE-754 bit patterns, so a parsed model holds exactly the bits of the file.
//!
//! Every `spec_*` parser takes the bytes `s` and a start position `p` and gives
//! either the value read with the position after it, or the error the reader reports.
use vstd::prelude::*;
use vstd::utf8::*;
use crate::bytes::{utf8_lossy, word_at};
use crate::b3d_parser::{Animation, Bone, Key, Vertice};

verus! {

/// A chunk header: the decoded tag, the byte count, and where the content ends.
pub ghost struct ChunkModel {
    pub tag: Seq<char>,
    pub size: u32,
    pub next: int,
}

/// The errors a parse can end in.
pub ghost enum ErrorModel {
    UnexpectedEof,
    Utf8,
    InvalidChunk(ChunkModel),
}

/// A value and the position after it, or an error.
pub type PResult<T> = Result<(T, int), ErrorModel>;

pub ghost struct TextureModel {
    pub file: Seq<char>,
    pub flags: u32,
    pub blend: u32,
    pub position: [u32; 2],
    pub scale: [u32; 2],
    pub rotation: u32,
}

pub ghost struct BrushModel {
    pub name: Seq<char>,
    pub color: [u32; 4],
    pub shininess: u32,
    pub blend: u32,
    pub fx: u32,
    pub texture_id: Seq<u32>,
}

pub ghost struct VertsModel {
    pub flags: u32,
    pub tex_coord_sets: u32,
    pub tex_coord_set_size: u32,
    pub vertices: Seq<Vertice>,
}

pub ghost struct TrisModel {
    pub brush_id: u32,
    pub indices: Seq<[u32; 3]>,
}

pub ghost struct MeshModel {
    pub brush_id: u32,
    pub vertices: VertsModel,
    pub triangles: Seq<TrisModel>,
}

pub ghost struct SequenceModel {
    pub name: Seq<char>,
    pub first_frame: u32,
    pub last_frame: u32,
    pub unused: u32,
}

pub ghost struct NodeModel {
    pub name: Seq<char>,
    pub position: [u32; 3],
    pub scale: [u32; 3],
    pub rotation: [u32; 4],
    pub mesh: MeshModel,
    pub bones: Seq<Bone>,
    pub key_flags: u32,
    pub keys: Seq<Key>,
    pub children: Seq<NodeModel>,
    pub animation: Animation,
    pub sequences: Seq<SequenceModel>,
}

pub ghost struct B3DModel {
    pub version: u32,
    pub textures: Seq<TextureModel>,
    pub brushes: Seq<BrushModel>,
    pub node: NodeModel,
}

/// The tag words (the four tag bytes read as one little-endian word).
pub const TAG_BB3D: u32 = 0x4433_4242;
pub const TAG_TEXS: u32 = 0x5358_4554;
pub const TAG_BRUS: u32 = 0x5355_5242;
pub const TAG_NODE: u32 = 0x4544_4F4E;
pub const TAG_MESH: u32 = 0x4853_454D;
pub const TAG_VRTS: u32 = 0x5354_5256;
pub const TAG_TRIS: u32 = 0x5349_5254;
pub const TAG_BONE: u32 = 0x454E_4F42;
pub const TAG_KEYS: u32 = 0x5359_454B;
pub const TAG_ANIM: u32 = 0x4D49_4E41;
pub const TAG_SEQS: u32 = 0x5351_4553;
pub const TAG_PIVO: u32 = 0x4F56_4950;

/// `n` bytes are available at `p`.
pub open spec fn fits(s: Seq<u8>, p: int, n: int) -> bool {
    0 <= p && p + n <= s.len()
}

/// A sub-record that began at `p` and ended at `e` moved forward and stayed in the data.
/// Every sub-record read inside a chunk loop begins after an eight-byte header, so this
/// holds whenever it parsed; stating it makes the loops' progress evident.
pub open spec fn advanced(s: Seq<u8>, p: int, e: int) -> bool {
    p < e <= s.len()
}

pub open spec fn vec2_at(s: Seq<u8>, p: int) -> [u32; 2] {
    [word_at(s, p), word_at(s, p + 4)]
}

pub open spec fn vec3_at(s: Seq<u8>, p: int) -> [u32; 3] {
    [word_at(s, p), word_at(s, p + 4), word_at(s, p + 8)]
}

pub open spec fn vec4_at(s: Seq<u8>, p: int) -> [u32; 4] {
    [word_at(s, p), word_at(s, p + 4), word_at(s, p + 8), word_at(s, p + 12)]
}

/// The `n` words starting at `p`.
pub open spec fn words_at(s: Seq<u8>, p: int, n: nat) -> Seq<u32> {
    Seq::new(n, |i: int| word_at(s, p + 4 * i))
}

/// The first position at or after `p` that holds a zero byte; `s.len()` when there is none,
/// and `p` itself when `p` is already at or past the end.
pub open spec fn nul_index(s: Seq<u8>, p: int) -> int
    decreases s.len() - p,
{
    if p >= s.len() {
        p
    } else if s[p] == 0 {
        p
    } else {
        nul_index(s, p + 1)
    }
}

pub proof fn lemma_nul_index(s: Seq<u8>, p: int)
    requires
        0 <= p,
    ensures
        p <= nul_index(s, p),
        p <= s.len() ==> nul_index(s, p) <= s.len(),
        nul_index(s, p) < s.len() ==> s[nul_index(s, p)] == 0,
        forall|j: int| p <= j < nul_index(s, p) ==> s[j] != 0,
    decreases s.len() - p,
{
    if p < s.len() && s[p] != 0 {
        lemma_nul_index(s, p + 1);
    }
}

/// The text of a name's bytes: their UTF-8 decoding when they are valid UTF-8, else the
/// lossy decoding (which puts U+FFFD in place of each invalid sequence).
pub open spec fn name_text(b: Seq<u8>) -> Seq<char> {
    if valid_utf8(b) { decode_utf8(b) } else { utf8_lossy(b) }
}

/// A zero-terminated name: the bytes up to the first zero (or the end of the data),
/// decoded (see `name_text`); the terminator is consumed when present. Reading a name
/// never fails.
pub open spec fn spec_name(s: Seq<u8>, p: int) -> (Seq<char>, int) {
    let k = nul_index(s, p);
    (name_text(s.subrange(p, k)), if k < s.len() { k + 1 } else { k })
}

pub proof fn lemma_name_advances(s: Seq<u8>, p: int)
    requires
        0 <= p <= s.len(),
    ensures
        p <= spec_name(s, p).1 <= s.len(),
{
    lemma_nul_index(s, p);
}

/// One little-endian word.
pub open spec fn spec_u32(s: Seq<u8>, p: int) -> PResult<u32> {
    if fits(s, p, 4) {
        Ok((word_at(s, p), p + 4))
    } else {
        Err(ErrorModel::UnexpectedEof)
    }
}

/// A chunk header: four tag bytes, which must be UTF-8, then the byte count.
pub open spec fn spec_chunk(s: Seq<u8>, p: int) -> PResult<ChunkModel> {
    if !fits(s, p, 4) {
        Err(ErrorModel::UnexpectedEof)
    } else if !valid_utf8(s.subrange(p, p + 4)) {
        Err(ErrorModel::Utf8)
    } else if !fits(s, p, 8) {
        Err(ErrorModel::UnexpectedEof)
    } else {
        Ok((
            ChunkModel {
                tag: decode_utf8(s.subrange(p, p + 4)),
                size: word_at(s, p + 4),
                next: p + 8 + word_at(s, p + 4),
            },
            p + 8,
        ))
    }
}

/// A texture: its file name, then flags, blend, position (2), scale (2), rotation.
pub open spec fn spec_texture(s: Seq<u8>, p: int) -> PResult<TextureModel> {
    let (file, q) = spec_name(s, p);
    if fits(s, q, 28) {
        Ok((
            TextureModel {
                file,
                flags: word_at(s, q),
                blend: word_at(s, q + 4),
                position: vec2_at(s, q + 8),
                scale: vec2_at(s, q + 16),
                rotation: word_at(s, q + 24),
            },
            q + 28,
        ))
    } else {
        Err(ErrorModel::UnexpectedEof)
    }
}

/// A brush: its name, colour (4), shininess, blend, fx, then `n_texs` texture ids.
pub open spec fn spec_brush(s: Seq<u8>, p: int, n_texs: nat) -> PResult<BrushModel> {
    let (name, q) = spec_name(s, p);
    if fits(s, q, 28 + 4 * (n_texs as int)) {
        Ok((
            BrushModel {
                name,
                color: vec4_at(s, q),
                shininess: word_at(s, q + 16),
                blend: word_at(s, q + 20),
                fx: word_at(s, q + 24),
                texture_id: words_at(s, q + 28, n_texs),
            },
            q + 28 + 4 * n_texs,
        ))
    } else {
        Err(ErrorModel::UnexpectedEof)
    }
}

/// Vertex records hold a position, a normal when `flags & 1`, a colour when `flags & 2`,
/// and one pair of texture coordinates.
pub open spec fn has_normal(flags: u32) -> bool {
    flags & 1 != 0
}

pub open spec fn has_color(flags: u32) -> bool {
    flags & 2 != 0
}

pub open spec fn vertex_size(flags: u32) -> int {
    20 + (if has_normal(flags) { 12int } else { 0int }) + (if has_color(flags) { 16int } else { 0int })
}

/// The vertex record at `p`; the fields the flags leave out are zero.
pub open spec fn vertex_at(s: Seq<u8>, p: int, flags: u32) -> Vertice {
    let c = p + 12 + (if has_normal(flags) { 12int } else { 0int });
    let t = c + (if has_color(flags) { 16int } else { 0int });
    Vertice {
        position: vec3_at(s, p),
        normal: if has_normal(flags) { vec3_at(s, p + 12) } else { [0u32, 0u32, 0u32] },
        color: if has_color(flags) { vec4_at(s, c) } else { [0u32, 0u32, 0u32, 0u32] },
        tex_coords: vec2_at(s, t),
    }
}

/// Vertex records from `p` while the position is before `next`, appended to `acc`.
pub open spec fn spec_vertex_list(s: Seq<u8>, p: int, next: int, flags: u32, acc: Seq<Vertice>) -> PResult<Seq<Vertice>>
    decreases s.len() - p,
{
    if p >= next {
        Ok((acc, p))
    } else if fits(s, p, vertex_size(flags)) {
        spec_vertex_list(s, p + vertex_size(flags), next, flags, acc.push(vertex_at(s, p, flags)))
    } else {
        Err(ErrorModel::UnexpectedEof)
    }
}

/// A vertex block: flags, texture-coordinate set count and size, then vertices up to `next`.
pub open spec fn spec_verts(s: Seq<u8>, p: int, next: int) -> PResult<VertsModel> {
    if !fits(s, p, 12) {
        Err(ErrorModel::UnexpectedEof)
    } else {
        let flags = word_at(s, p);
        match spec_vertex_list(s, p + 12, next, flags, Seq::empty()) {
            Ok((vertices, e)) => Ok((
                VertsModel {
                    flags,
                    tex_coord_sets: word_at(s, p + 4),
                    tex_coord_set_size: word_at(s, p + 8),
                    vertices,
                },
                e,
            )),
            Err(err) => Err(err),
        }
    }
}

/// Triangles (three index words each) from `p` while before `next`, appended to `acc`.
pub open spec fn spec_face_list(s: Seq<u8>, p: int, next: int, acc: Seq<[u32; 3]>) -> PResult<Seq<[u32; 3]>>
    decreases s.len() - p,
{
    if p >= next {
        Ok((acc, p))
    } else if fits(s, p, 12) {
        spec_face_list(s, p + 12, next, acc.push(vec3_at(s, p)))
    } else {
        Err(ErrorModel::UnexpectedEof)
    }
}

/// A triangle block: the brush id, then triangles up to `next`.
pub open spec fn spec_tris(s: Seq<u8>, p: int, next: int) -> PResult<TrisModel> {
    if !fits(s, p, 4) {
        Err(ErrorModel::UnexpectedEof)
    } else {
        match spec_face_list(s, p + 4, next, Seq::empty()) {
            Ok((indices, e)) => Ok((TrisModel { brush_id: word_at(s, p), indices }, e)),
            Err(err) => Err(err),
        }
    }
}

/// Triangle chunks from `p` while before `next` (their tags are not looked at).
pub open spec fn spec_tris_chunks(s: Seq<u8>, p: int, next: int, acc: Seq<TrisModel>) -> PResult<Seq<TrisModel>>
    decreases s.len() - p,
{
    if p >= next {
        Ok((acc, p))
    } else {
        match spec_chunk(s, p) {
            Err(err) => Err(err),
            Ok((c, q)) => match spec_tris(s, q, c.next) {
                Err(err) => Err(err),
                Ok((t, e)) => if advanced(s, p, e) {
                    spec_tris_chunks(s, e, next, acc.push(t))
                } else {
                    Err(ErrorModel::UnexpectedEof)
                },
            },
        }
    }
}

/// A mesh: brush id, one vertex chunk (its tag is not looked at), then triangle chunks up to `next`.
pub open spec fn spec_mesh(s: Seq<u8>, p: int, next: int) -> PResult<MeshModel> {
    if !fits(s, p, 4) {
        Err(ErrorModel::UnexpectedEof)
    } else {
        match spec_chunk(s, p + 4) {
            Err(err) => Err(err),
            Ok((c, q)) => match spec_verts(s, q, c.next) {
                Err(err) => Err(err),
                Ok((vertices, e)) => match spec_tris_chunks(s, e, next, Seq::empty()) {
                    Err(err) => Err(err),
                    Ok((triangles, e2)) => Ok((MeshModel { brush_id: word_at(s, p), vertices, triangles }, e2)),
                },
            },
        }
    }
}

/// The mesh of a node that has none.
pub open spec fn empty_mesh() -> MeshModel {
    MeshModel {
        brush_id: 0,
        vertices: VertsModel { flags: 0, tex_coord_sets: 0, tex_coord_set_size: 0, vertices: Seq::empty() },
        triangles: Seq::empty(),
    }
}

/// Bone weights (vertex id, weight) from `p` while before `next`, appended to `acc`.
pub open spec fn spec_bones(s: Seq<u8>, p: int, next: int, acc: Seq<Bone>) -> PResult<Seq<Bone>>
    decreases s.len() - p,
{
    if p >= next {
        Ok((acc, p))
    } else if fits(s, p, 8) {
        spec_bones(s, p + 8, next, acc.push(Bone { vertex_id: word_at(s, p), weight: word_at(s, p + 4) }))
    } else {
        Err(ErrorModel::UnexpectedEof)
    }
}

/// Key records hold a frame, then a position when `flags & 1`, a scale when `flags & 2`,
/// a rotation when `flags & 4`.
pub open spec fn key_size(flags: u32) -> int {
    4 + (if flags & 1 != 0 { 12int } else { 0int }) + (if flags & 2 != 0 { 12int } else { 0int }) + (
    if flags & 4 != 0 { 16int } else { 0int })
}

/// The key record at `p`; the parts the flags leave out are zero.
pub open spec fn key_at(s: Seq<u8>, p: int, flags: u32) -> Key {
    let o_scale = p + 4 + (if flags & 1 != 0 { 12int } else { 0int });
    let o_rot = o_scale + (if flags & 2 != 0 { 12int } else { 0int });
    Key {
        frame: word_at(s, p),
        position: if flags & 1 != 0 { vec3_at(s, p + 4) } else { [0u32, 0u32, 0u32] },
        scale: if flags & 2 != 0 { vec3_at(s, o_scale) } else { [0u32, 0u32, 0u32] },
        rotation: if flags & 4 != 0 { vec4_at(s, o_rot) } else { [0u32, 0u32, 0u32, 0u32] },
    }
}

/// Key records from `p` while before `next`, appended to `acc`.
pub open spec fn spec_keys(s: Seq<u8>, p: int, next: int, flags: u32, acc: Seq<Key>) -> PResult<Seq<Key>>
    decreases s.len() - p,
{
    if p >= next {
        Ok((acc, p))
    } else if fits(s, p, key_size(flags)) {
        spec_keys(s, p + key_size(flags), next, flags, acc.push(key_at(s, p, flags)))
    } else {
        Err(ErrorModel::UnexpectedEof)
    }
}

/// Animation settings: flags, frame count, frame rate.
pub open spec fn spec_animation(s: Seq<u8>, p: int) -> PResult<Animation> {
    if fits(s, p, 12) {
        Ok((Animation { flags: word_at(s, p), frames: word_at(s, p + 4), fps: word_at(s, p + 8) }, p + 12))
    } else {
        Err(ErrorModel::UnexpectedEof)
    }
}

/// A named frame range: name, first frame, last frame, one unused word.
pub open spec fn spec_sequence(s: Seq<u8>, p: int) -> PResult<SequenceModel> {
    let (name, q) = spec_name(s, p);
    if fits(s, q, 12) {
        Ok((
            SequenceModel {
                name,
                first_frame: word_at(s, q),
                last_frame: word_at(s, q + 4),
                unused: word_at(s, q + 8),
            },
            q + 12,
        ))
    } else {
        Err(ErrorModel::UnexpectedEof)
    }
}

/// A node: name, position (3), scale (3), rotation (4), then its chunks up to `next`.
pub open spec fn spec_node(s: Seq<u8>, p: int, next: int) -> PResult<NodeModel>
    decreases s.len() - p, 1int,
{
    if 0 <= p <= s.len() {
        let (name, q) = spec_name(s, p);
        proof {
            lemma_name_advances(s, p);
        }
        if fits(s, q, 40) {
            spec_node_chunks(
                s,
                q + 40,
                next,
                NodeModel {
                    name,
                    position: vec3_at(s, q),
                    scale: vec3_at(s, q + 12),
                    rotation: vec4_at(s, q + 24),
                    mesh: empty_mesh(),
                    bones: Seq::empty(),
                    key_flags: 0,
                    keys: Seq::empty(),
                    children: Seq::empty(),
                    animation: Animation { flags: 0, frames: 0, fps: 0 },
                    sequences: Seq::empty(),
                },
            )
        } else {
            Err(ErrorModel::UnexpectedEof)
        }
    } else {
        Err(ErrorModel::UnexpectedEof)
    }
}

/// The chunks of a node from `p` while before `next`, applied to `acc`: a MESH chunk
/// replaces the mesh, BONE the bone weights, ANIM the animation settings; KEYS adds its
/// flags and appends its keys; NODE appends a child, SEQS a sequence; PIVO is skipped;
/// any other tag is an error.
pub open spec fn spec_node_chunks(s: Seq<u8>, p: int, next: int, acc: NodeModel) -> PResult<NodeModel>
    decreases s.len() - p, 0int,
{
    if p >= next {
        Ok((acc, p))
    } else {
        match spec_chunk(s, p) {
            Err(err) => Err(err),
            Ok((c, q)) => {
                let tag = word_at(s, p);
                let sub: PResult<NodeModel> = if tag == TAG_MESH {
                    match spec_mesh(s, q, c.next) {
                        Ok((m, e)) => Ok((NodeModel { mesh: m, ..acc }, e)),
                        Err(err) => Err(err),
                    }
                } else if tag == TAG_BONE {
                    match spec_bones(s, q, c.next, Seq::empty()) {
                        Ok((b, e)) => Ok((NodeModel { bones: b, ..acc }, e)),
                        Err(err) => Err(err),
                    }
                } else if tag == TAG_KEYS {
                    match spec_u32(s, q) {
                        Err(err) => Err(err),
                        Ok((kf, q2)) => match spec_keys(s, q2, c.next, kf, Seq::empty()) {
                            Ok((ks, e)) => Ok((NodeModel { key_flags: acc.key_flags | kf, keys: acc.keys + ks, ..acc }, e)),
                            Err(err) => Err(err),
                        },
                    }
                } else if tag == TAG_NODE {
                    match spec_node(s, q, c.next) {
                        Ok((child, e)) => Ok((NodeModel { children: acc.children.push(child), ..acc }, e)),
                        Err(err) => Err(err),
                    }
                } else if tag == TAG_ANIM {
                    match spec_animation(s, q) {
                        Ok((a, e)) => Ok((NodeModel { animation: a, ..acc }, e)),
                        Err(err) => Err(err),
                    }
                } else if tag == TAG_SEQS {
                    match spec_sequence(s, q) {
                        Ok((sq, e)) => Ok((NodeModel { sequences: acc.sequences.push(sq), ..acc }, e)),
                        Err(err) => Err(err),
                    }
                } else if tag == TAG_PIVO {
                    if fits(s, q, c.size as int) {
                        Ok((acc, q + c.size))
                    } else {
                        Err(ErrorModel::UnexpectedEof)
                    }
                } else {
                    Err(ErrorModel::InvalidChunk(c))
                };
                match sub {
                    Err(err) => Err(err),
                    Ok((acc2, e)) => if advanced(s, p, e) {
                        spec_node_chunks(s, e, next, acc2)
                    } else {
                        Err(ErrorModel::UnexpectedEof)
                    },
                }
            },
        }
    }
}

/// Textures from `p` while before `next`, appended to `acc`.
pub open spec fn spec_texture_list(s: Seq<u8>, p: int, next: int, acc: Seq<TextureModel>) -> PResult<Seq<TextureModel>>
    decreases s.len() - p,
{
    if p >= next {
        Ok((acc, p))
    } else {
        match spec_texture(s, p) {
            Err(err) => Err(err),
            Ok((t, e)) => if advanced(s, p, e) {
                spec_texture_list(s, e, next, acc.push(t))
            } else {
                Err(ErrorModel::UnexpectedEof)
            },
        }
    }
}

/// Brushes with `n_texs` texture ids each, from `p` while before `next`, appended to `acc`.
pub open spec fn spec_brush_list(s: Seq<u8>, p: int, next: int, n_texs: nat, acc: Seq<BrushModel>) -> PResult<Seq<BrushModel>>
    decreases s.len() - p,
{
    if p >= next {
        Ok((acc, p))
    } else {
        match spec_brush(s, p, n_texs) {
            Err(err) => Err(err),
            Ok((b, e)) => if advanced(s, p, e) {
                spec_brush_list(s, e, next, n_texs, acc.push(b))
            } else {
                Err(ErrorModel::UnexpectedEof)
            },
        }
    }
}

/// A brush block: the number of texture ids per brush, then brushes up to `next`.
pub open spec fn spec_brushes(s: Seq<u8>, p: int, next: int) -> PResult<Seq<BrushModel>> {
    match spec_u32(s, p) {
        Err(err) => Err(err),
        Ok((n, q)) => spec_brush_list(s, q, next, n as nat, Seq::empty()),
    }
}

/// The top-level chunks from `p` while before `next`, applied to `acc`: TEXS replaces the
/// textures, BRUS the brushes, NODE the root node; PIVO is skipped; any other tag is an error.
pub open spec fn spec_top_chunks(s: Seq<u8>, p: int, next: int, acc: B3DModel) -> PResult<B3DModel>
    decreases s.len() - p,
{
    if p >= next {
        Ok((acc, p))
    } else {
        match spec_chunk(s, p) {
            Err(err) => Err(err),
            Ok((c, q)) => {
                let tag = word_at(s, p);
                let sub: PResult<B3DModel> = if tag == TAG_TEXS {
                    match spec_texture_list(s, q, c.next, Seq::empty()) {
                        Ok((t, e)) => Ok((B3DModel { textures: t, ..acc }, e)),
                        Err(err) => Err(err),
                    }
                } else if tag == TAG_BRUS {
                    match spec_brushes(s, q, c.next) {
                        Ok((b, e)) => Ok((B3DModel { brushes: b, ..acc }, e)),
                        Err(err) => Err(err),
                    }
                } else if tag == TAG_NODE {
                    match spec_node(s, q, c.next) {
                        Ok((n, e)) => Ok((B3DModel { node: n, ..acc }, e)),
                        Err(err) => Err(err),
                    }
                } else if tag == TAG_PIVO {
                    if fits(s, q, c.size as int) {
                        Ok((acc, q + c.size))
                    } else {
                        Err(ErrorModel::UnexpectedEof)
                    }
                } else {
                    Err(ErrorModel::InvalidChunk(c))
                };
                match sub {
                    Err(err) => Err(err),
                    Ok((acc2, e)) => if advanced(s, p, e) {
                        spec_top_chunks(s, e, next, acc2)
                    } else {
                        Err(ErrorModel::UnexpectedEof)
                    },
                }
            },
        }
    }
}

/// The root node of a file that has none.
pub open spec fn empty_node() -> NodeModel {
    NodeModel {
        name: Seq::empty(),
        position: [0u32, 0u32, 0u32],
        scale: [0u32, 0u32, 0u32],
        rotation: [0u32, 0u32, 0u32, 0u32],
        mesh: empty_mesh(),
        bones: Seq::empty(),
        key_flags: 0,
        keys: Seq::empty(),
        children: Seq::empty(),
        animation: Animation { flags: 0, frames: 0, fps: 0 },
        sequences: Seq::empty(),
    }
}

/// A whole file: a BB3D chunk holding the version, then top-level chunks up to its end.
pub open spec fn spec_b3d(s: Seq<u8>) -> Result<B3DModel, ErrorModel> {
    match spec_chunk(s, 0) {
        Err(err) => Err(err),
        Ok((c, q)) => if word_at(s, 0) != TAG_BB3D {
            Err(ErrorModel::InvalidChunk(c))
        } else {
            match spec_u32(s, q) {
                Err(err) => Err(err),
                Ok((version, q2)) => match spec_top_chunks(
                    s,
                    q2,
                    c.next,
                    B3DModel { version, textures: Seq::empty(), brushes: Seq::empty(), node: empty_node() },
                ) {
                    Err(err) => Err(err),
                    Ok((b, _)) => Ok(b),
                },
            }
        },
    }
}

} // verus!
