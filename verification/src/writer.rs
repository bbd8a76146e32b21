//! The binary side of a glTF file: the GLB container and the little-endian buffer
//! that holds vertex data, indices and animation samples, plus the decisions about
//! materials, nodes and animation channels that the JSON document records.
//! Floats are IEEE-754 bit patterns.
use vstd::prelude::*;
use std::collections::HashMap;
use crate::bytes::{le_bytes, le_words, lemma_le_bytes_roundtrip, lemma_le_words_len, lemma_le_words_push, push_u32_le, word_at};
use vstd::string::StringExecFns;
use crate::b3d::{AnimClip, AnimClipModel, BoneWeight, DEFAULT_FPS, JointInfo, JointModel, KeyTuple, MeshData, MeshDataModel, TriGroup, joint_models, walk, spec_mesh_data, spec_anims, collect_joints, collect_mesh, collect_anims};
use crate::b3d_format::{BrushModel, TextureModel};
use crate::b3d_parser::{Brush, Texture, B3D};
use crate::texture::{png_has_alpha, png_has_semi_transparent, spec_has_alpha, spec_has_semi_transparent};
use crate::math::{is_nonzero, is_nonzero_bits, is_positive, is_positive_bits, neg_bits, quat_to_gltf, root_pos, swap_yz_pos, swap_yz_quat};

verus! {

/// The number of bytes that bring a length `n` up to a multiple of four.
pub open spec fn pad_len(n: nat) -> nat {
    ((4 - (n % 4)) % 4) as nat
}

/// Padding brings the length to a multiple of four with fewer than four bytes.
pub proof fn lemma_pad_len(n: nat)
    ensures
        (n + pad_len(n)) % 4 == 0,
        pad_len(n) < 4,
{
    assert((n + ((4 - (n % 4)) % 4)) % 4 == 0) by (nonlinear_arith);
}

/// `n` copies of `b`.
pub open spec fn fill(b: u8, n: nat) -> Seq<u8> {
    Seq::new(n, |i: int| b)
}

/// Copies `data` and pads it with spaces (0x20) to a multiple of four bytes, as the GLB
/// JSON chunk requires.
#[verifier::spinoff_prover]
pub fn pad_to_4(data: &[u8]) -> (v: Vec<u8>)
    ensures
        v@ == data@ + fill(0x20, pad_len(data@.len())),
        v@.len() % 4 == 0,
{
    let mut v: Vec<u8> = Vec::new();
    let mut i: usize = 0;
    while i < data.len()
        invariant
            i <= data@.len(),
            v@ =~= data@.subrange(0, i as int),
        decreases data@.len() - i,
    {
        v.push(data[i]);
        i = i + 1;
    }
    let ghost n = data@.len();
    proof {
        lemma_pad_len(n);
    }
    while v.len() % 4 != 0
        invariant
            n == data@.len(),
            n <= v@.len() <= n + pad_len(n as nat),
            v@ =~= data@ + fill(0x20, (v@.len() - n) as nat),
        decreases n + pad_len(n as nat) - v@.len(),
    {
        v.push(0x20);
    }
    v
}

/// Pads `data` with zero bytes to a multiple of four bytes.
#[verifier::spinoff_prover]
pub fn pad_to_4_in_place(data: &mut Vec<u8>)
    ensures
        final(data)@ == old(data)@ + fill(0, pad_len(old(data)@.len())),
        final(data)@.len() % 4 == 0,
{
    let ghost n = data@.len();
    proof {
        lemma_pad_len(n);
    }
    while data.len() % 4 != 0
        invariant
            n == old(data)@.len(),
            n <= data@.len() <= n + pad_len(n as nat),
            data@ =~= old(data)@ + fill(0, (data@.len() - n) as nat),
        decreases n + pad_len(n as nat) - data@.len(),
    {
        data.push(0);
    }
}

/// Three-word vectors, word after word, little-endian.
pub open spec fn vec3_bytes(vs: Seq<[u32; 3]>) -> Seq<u8>
    decreases vs.len(),
{
    if vs.len() == 0 {
        Seq::empty()
    } else {
        vec3_bytes(vs.drop_last()) + le_bytes(vs.last()[0]) + le_bytes(vs.last()[1]) + le_bytes(vs.last()[2])
    }
}

/// Two-word vectors, word after word, little-endian.
pub open spec fn vec2_bytes(vs: Seq<[u32; 2]>) -> Seq<u8>
    decreases vs.len(),
{
    if vs.len() == 0 {
        Seq::empty()
    } else {
        vec2_bytes(vs.drop_last()) + le_bytes(vs.last()[0]) + le_bytes(vs.last()[1])
    }
}

/// The little-endian bytes of a 16-bit value.
pub open spec fn le_u16_bytes(v: u16) -> Seq<u8> {
    seq![(v % 256) as u8, (v / 256) as u8]
}

/// The joint index of a vertex (0 when it has none).
pub open spec fn joint_of_skin(s: Option<BoneWeight>) -> u16 {
    match s {
        Some(b) => b.joint_idx as u16,
        None => 0,
    }
}

/// The weight of a vertex (+0.0 when it has none).
pub open spec fn weight_of_skin(s: Option<BoneWeight>) -> u32 {
    match s {
        Some(b) => b.weight,
        None => 0,
    }
}

/// JOINTS_0 data: per vertex four 16-bit joint indices, the vertex's joint then three zeros.
pub open spec fn joints_bytes(skin: Seq<Option<BoneWeight>>) -> Seq<u8>
    decreases skin.len(),
{
    if skin.len() == 0 {
        Seq::empty()
    } else {
        joints_bytes(skin.drop_last()) + le_u16_bytes(joint_of_skin(skin.last())) + fill(0, 6)
    }
}

/// WEIGHTS_0 data: per vertex four float weights, the vertex's weight then three zeros.
pub open spec fn weights_bytes(skin: Seq<Option<BoneWeight>>) -> Seq<u8>
    decreases skin.len(),
{
    if skin.len() == 0 {
        Seq::empty()
    } else {
        weights_bytes(skin.drop_last()) + le_bytes(weight_of_skin(skin.last())) + fill(0, 12)
    }
}

/// The indices of all triangle groups in order, as little-endian words.
pub open spec fn indices_bytes(groups: Seq<Seq<u32>>) -> Seq<u8>
    decreases groups.len(),
{
    if groups.len() == 0 {
        Seq::empty()
    } else {
        indices_bytes(groups.drop_last()) + le_words(groups.last())
    }
}

/// The index lists of triangle groups.
pub open spec fn group_indices(tgs: Seq<TriGroup>) -> Seq<Seq<u32>> {
    tgs.map_values(|t: TriGroup| t.indices@)
}

/// Appends positions (three float words each) and returns the offset they start at.
pub fn push_positions(bin: &mut Vec<u8>, positions: &[[u32; 3]]) -> (off: usize)
    ensures
        off == old(bin)@.len(),
        final(bin)@ == old(bin)@ + vec3_bytes(positions@),
{
    push_vec3s(bin, positions)
}

/// Appends normals (three float words each) and returns the offset they start at.
pub fn push_normals(bin: &mut Vec<u8>, normals: &[[u32; 3]]) -> (off: usize)
    ensures
        off == old(bin)@.len(),
        final(bin)@ == old(bin)@ + vec3_bytes(normals@),
{
    push_vec3s(bin, normals)
}

fn push_vec3s(bin: &mut Vec<u8>, vs: &[[u32; 3]]) -> (off: usize)
    ensures
        off == old(bin)@.len(),
        final(bin)@ == old(bin)@ + vec3_bytes(vs@),
{
    let off = bin.len();
    let mut i: usize = 0;
    while i < vs.len()
        invariant
            i <= vs@.len(),
            bin@ == old(bin)@ + vec3_bytes(vs@.subrange(0, i as int)),
        decreases vs@.len() - i,
    {
        let p = vs[i];
        push_u32_le(bin, p[0]);
        push_u32_le(bin, p[1]);
        push_u32_le(bin, p[2]);
        proof {
            let t = vs@.subrange(0, i + 1);
            assert(t.drop_last() =~= vs@.subrange(0, i as int));
            assert(bin@ =~= old(bin)@ + vec3_bytes(t));
        }
        i = i + 1;
    }
    assert(vs@.subrange(0, vs@.len() as int) =~= vs@);
    off
}

/// Appends texture coordinates (two float words each) and returns the offset they start at.
pub fn push_uvs(bin: &mut Vec<u8>, uvs: &[[u32; 2]]) -> (off: usize)
    ensures
        off == old(bin)@.len(),
        final(bin)@ == old(bin)@ + vec2_bytes(uvs@),
{
    let off = bin.len();
    let mut i: usize = 0;
    while i < uvs.len()
        invariant
            i <= uvs@.len(),
            bin@ == old(bin)@ + vec2_bytes(uvs@.subrange(0, i as int)),
        decreases uvs@.len() - i,
    {
        let p = uvs[i];
        push_u32_le(bin, p[0]);
        push_u32_le(bin, p[1]);
        proof {
            let t = uvs@.subrange(0, i + 1);
            assert(t.drop_last() =~= uvs@.subrange(0, i as int));
            assert(bin@ =~= old(bin)@ + vec2_bytes(t));
        }
        i = i + 1;
    }
    assert(uvs@.subrange(0, uvs@.len() as int) =~= uvs@);
    off
}

/// Every vertex's joint index fits in 16 bits, as JOINTS_0 stores it.
pub open spec fn joints_fit_u16(skin: Seq<Option<BoneWeight>>) -> bool {
    forall|i: int| 0 <= i < skin.len() ==> (#[trigger] skin[i] matches Some(b) ==> b.joint_idx <= 0xFFFF)
}

/// Appends the JOINTS_0 data and returns the offset it starts at.
pub fn push_joints(bin: &mut Vec<u8>, skin: &[Option<BoneWeight>]) -> (off: usize)
    requires
        joints_fit_u16(skin@),
    ensures
        off == old(bin)@.len(),
        final(bin)@ == old(bin)@ + joints_bytes(skin@),
{
    let off = bin.len();
    let mut i: usize = 0;
    while i < skin.len()
        invariant
            i <= skin@.len(),
            bin@ == old(bin)@ + joints_bytes(skin@.subrange(0, i as int)),
        decreases skin@.len() - i,
    {
        let j: u16 = match skin[i] {
            Some(b) => b.joint_idx as u16,
            None => 0,
        };
        bin.push((j % 256) as u8);
        bin.push((j / 256) as u8);
        bin.push(0);
        bin.push(0);
        bin.push(0);
        bin.push(0);
        bin.push(0);
        bin.push(0);
        proof {
            let t = skin@.subrange(0, i + 1);
            assert(t.drop_last() =~= skin@.subrange(0, i as int));
            assert(j == joint_of_skin(t.last()));
            assert(bin@ =~= old(bin)@ + joints_bytes(t));
        }
        i = i + 1;
    }
    assert(skin@.subrange(0, skin@.len() as int) =~= skin@);
    off
}

/// Appends the WEIGHTS_0 data and returns the offset it starts at.
pub fn push_weights(bin: &mut Vec<u8>, skin: &[Option<BoneWeight>]) -> (off: usize)
    ensures
        off == old(bin)@.len(),
        final(bin)@ == old(bin)@ + weights_bytes(skin@),
{
    let off = bin.len();
    let mut i: usize = 0;
    while i < skin.len()
        invariant
            i <= skin@.len(),
            bin@ == old(bin)@ + weights_bytes(skin@.subrange(0, i as int)),
        decreases skin@.len() - i,
    {
        let w: u32 = match skin[i] {
            Some(b) => b.weight,
            None => 0,
        };
        push_u32_le(bin, w);
        push_u32_le(bin, 0);
        push_u32_le(bin, 0);
        push_u32_le(bin, 0);
        proof {
            let t = skin@.subrange(0, i + 1);
            assert(t.drop_last() =~= skin@.subrange(0, i as int));
            reveal(le_bytes);
            assert(le_bytes(0) =~= fill(0, 4));
            assert(bin@ =~= old(bin)@ + weights_bytes(t));
        }
        i = i + 1;
    }
    assert(skin@.subrange(0, skin@.len() as int) =~= skin@);
    off
}

/// Appends the indices of all triangle groups and returns the offset they start at.
pub fn push_indices(bin: &mut Vec<u8>, tri_groups: &[TriGroup]) -> (off: usize)
    ensures
        off == old(bin)@.len(),
        final(bin)@ == old(bin)@ + indices_bytes(group_indices(tri_groups@)),
{
    let off = bin.len();
    let ghost gs = group_indices(tri_groups@);
    let mut g: usize = 0;
    while g < tri_groups.len()
        invariant
            g <= tri_groups@.len(),
            gs == group_indices(tri_groups@),
            bin@ == old(bin)@ + indices_bytes(gs.subrange(0, g as int)),
        decreases tri_groups@.len() - g,
    {
        let idx = &tri_groups[g].indices;
        let ghost base = bin@;
        let mut i: usize = 0;
        while i < idx.len()
            invariant
                i <= idx@.len(),
                bin@ == base + le_words(idx@.subrange(0, i as int)),
            decreases idx@.len() - i,
        {
            push_u32_le(bin, idx[i]);
            proof {
                lemma_le_words_push(idx@.subrange(0, i as int), idx@[i as int]);
                assert(idx@.subrange(0, i + 1) =~= idx@.subrange(0, i as int).push(idx@[i as int]));
            }
            i = i + 1;
        }
        proof {
            assert(idx@.subrange(0, idx@.len() as int) =~= idx@);
            let t = gs.subrange(0, g + 1);
            assert(t.drop_last() =~= gs.subrange(0, g as int));
            assert(t.last() == idx@);
            assert(bin@ =~= old(bin)@ + indices_bytes(t));
        }
        g = g + 1;
    }
    assert(gs.subrange(0, gs.len() as int) =~= gs);
    off
}

/// The GLB magic `glTF`, as a little-endian word.
pub const GLB_MAGIC: u32 = 0x4654_6C67;
/// The JSON chunk type `JSON`, as a little-endian word.
pub const CHUNK_JSON: u32 = 0x4E4F_534A;
/// The binary chunk type `BIN\0`, as a little-endian word.
pub const CHUNK_BIN: u32 = 0x004E_4942;

/// A GLB file: the 12-byte header (magic, version 2, total length), the JSON chunk
/// (length, type, the JSON padded with spaces to four bytes) and the BIN chunk
/// (length, type, the binary buffer).
pub open spec fn glb_bytes(json: Seq<u8>, bin: Seq<u8>) -> Seq<u8> {
    let jp = json + fill(0x20, pad_len(json.len()));
    le_bytes(GLB_MAGIC) + le_bytes(2) + le_bytes((28 + jp.len() + bin.len()) as u32) + le_bytes(jp.len() as u32)
        + le_bytes(CHUNK_JSON) + jp + le_bytes(bin.len() as u32) + le_bytes(CHUNK_BIN) + bin
}

/// Packs a serialized glTF JSON document and its binary buffer into a GLB file.
pub fn assemble_glb(json: &[u8], bin: &[u8]) -> (glb: Vec<u8>)
    requires
        28 + json@.len() + pad_len(json@.len()) + bin@.len() <= u32::MAX,
    ensures
        glb@ == glb_bytes(json@, bin@),
{
    let json_padded = pad_to_4(json);
    let total: u32 = (12 + 8 + json_padded.len() + 8 + bin.len()) as u32;
    let mut glb: Vec<u8> = Vec::new();
    push_u32_le(&mut glb, GLB_MAGIC);
    push_u32_le(&mut glb, 2);
    push_u32_le(&mut glb, total);
    push_u32_le(&mut glb, json_padded.len() as u32);
    push_u32_le(&mut glb, CHUNK_JSON);
    let ghost head = glb@;
    let mut i: usize = 0;
    while i < json_padded.len()
        invariant
            i <= json_padded@.len(),
            glb@ =~= head + json_padded@.subrange(0, i as int),
        decreases json_padded@.len() - i,
    {
        glb.push(json_padded[i]);
        i = i + 1;
    }
    push_u32_le(&mut glb, bin.len() as u32);
    push_u32_le(&mut glb, CHUNK_BIN);
    let ghost mid = glb@;
    let mut k: usize = 0;
    while k < bin.len()
        invariant
            k <= bin@.len(),
            glb@ =~= mid + bin@.subrange(0, k as int),
        decreases bin@.len() - k,
    {
        glb.push(bin[k]);
        k = k + 1;
    }
    proof {
        assert(json_padded@.subrange(0, json_padded@.len() as int) =~= json_padded@);
        assert(bin@.subrange(0, bin@.len() as int) =~= bin@);
        assert(glb@ =~= glb_bytes(json@, bin@));
    }
    glb
}

/// A word read inside a concatenation is read from the part that holds it.
proof fn lemma_word_in(pre: Seq<u8>, w: Seq<u8>, post: Seq<u8>)
    requires
        w.len() == 4,
    ensures
        word_at(pre + w + post, pre.len() as int) == word_at(w, 0),
{
    let g = pre + w + post;
    let k = pre.len() as int;
    assert(g[k] == w[0] && g[k + 1] == w[1] && g[k + 2] == w[2] && g[k + 3] == w[3]);
}

/// Law: a GLB file reads back as written. The header holds the magic, version 2 and the
/// file's own length; the JSON chunk's length is a multiple of four and its content starts
/// with the JSON; the BIN chunk follows it and holds exactly the binary buffer.
pub proof fn lemma_glb_reads_back(json: Seq<u8>, bin: Seq<u8>)
    requires
        28 + json.len() + pad_len(json.len()) + bin.len() <= u32::MAX,
    ensures
        ({
            let g = glb_bytes(json, bin);
            let jl: int = (json.len() + pad_len(json.len())) as int;
            &&& word_at(g, 0) == GLB_MAGIC
            &&& word_at(g, 4) == 2
            &&& word_at(g, 8) == g.len()
            &&& word_at(g, 12) == jl
            &&& jl % 4 == 0
            &&& word_at(g, 16) == CHUNK_JSON
            &&& g.subrange(20, 20 + json.len() as int) == json
            &&& word_at(g, 20 + jl) == bin.len()
            &&& word_at(g, 24 + jl) == CHUNK_BIN
            &&& g.subrange(28 + jl, g.len() as int) == bin
        }),
{
    let jp = json + fill(0x20, pad_len(json.len()));
    let jl: int = jp.len() as int;
    let total = (28 + jl + bin.len()) as u32;
    let h0 = le_bytes(GLB_MAGIC);
    let h1 = le_bytes(2);
    let h2 = le_bytes(total);
    let h3 = le_bytes(jl as u32);
    let h4 = le_bytes(CHUNK_JSON);
    let h5 = le_bytes(bin.len() as u32);
    let h6 = le_bytes(CHUNK_BIN);
    lemma_le_bytes_roundtrip(GLB_MAGIC);
    lemma_le_bytes_roundtrip(2);
    lemma_le_bytes_roundtrip(total);
    lemma_le_bytes_roundtrip(jl as u32);
    lemma_le_bytes_roundtrip(CHUNK_JSON);
    lemma_le_bytes_roundtrip(bin.len() as u32);
    lemma_le_bytes_roundtrip(CHUNK_BIN);
    lemma_pad_len(json.len());
    let g = glb_bytes(json, bin);
    let a1 = h0;
    let a2 = a1 + h1;
    let a3 = a2 + h2;
    let a4 = a3 + h3;
    let a5 = a4 + h4;
    let a6 = a5 + jp;
    let a7 = a6 + h5;
    let a8 = a7 + h6;
    assert(g == a8 + bin);
    assert(a5.len() == 20);
    assert(a6.len() == 20 + jl);
    assert(g.len() == 28 + jl + bin.len());
    assert(word_at(g, 0) == word_at(h0, 0)) by {
        assert(g =~= Seq::<u8>::empty() + h0 + g.subrange(4, g.len() as int));
        lemma_word_in(Seq::<u8>::empty(), h0, g.subrange(4, g.len() as int));
    }
    assert(word_at(g, 4) == word_at(h1, 0)) by {
        assert(g =~= a1 + h1 + g.subrange(8, g.len() as int));
        lemma_word_in(a1, h1, g.subrange(8, g.len() as int));
    }
    assert(word_at(g, 8) == word_at(h2, 0)) by {
        assert(g =~= a2 + h2 + g.subrange(12, g.len() as int));
        lemma_word_in(a2, h2, g.subrange(12, g.len() as int));
    }
    assert(word_at(g, 12) == word_at(h3, 0)) by {
        assert(g =~= a3 + h3 + g.subrange(16, g.len() as int));
        lemma_word_in(a3, h3, g.subrange(16, g.len() as int));
    }
    assert(word_at(g, 16) == word_at(h4, 0)) by {
        assert(g =~= a4 + h4 + g.subrange(20, g.len() as int));
        lemma_word_in(a4, h4, g.subrange(20, g.len() as int));
    }
    assert(word_at(g, 20 + jl) == word_at(h5, 0)) by {
        assert(g =~= a6 + h5 + g.subrange(24 + jl, g.len() as int));
        lemma_word_in(a6, h5, g.subrange(24 + jl, g.len() as int));
    }
    assert(word_at(g, 24 + jl) == word_at(h6, 0)) by {
        assert(g =~= a7 + h6 + bin);
        lemma_word_in(a7, h6, bin);
    }
    assert(g.subrange(20, 20 + json.len() as int) =~= json);
    assert(g.subrange(28 + jl, g.len() as int) =~= bin);
}

/// The brush ids of the triangle groups.
pub open spec fn brush_ids(tgs: Seq<TriGroup>) -> Seq<u32> {
    tgs.map_values(|t: TriGroup| t.brush_id)
}

/// A strictly increasing sequence.
pub open spec fn strictly_increasing(v: Seq<u32>) -> bool {
    forall|i: int, j: int| 0 <= i < j < v.len() ==> v[i] < v[j]
}

/// `sorted` lists exactly the elements of `ids`, ascending, each once.
pub open spec fn sorts(sorted: Seq<u32>, ids: Seq<u32>) -> bool {
    &&& strictly_increasing(sorted)
    &&& forall|x: u32| sorted.contains(x) <==> ids.contains(x)
}

/// The material map: the brush ids that the triangle groups use, and nothing else, each
/// mapped to its rank among them (the smallest id to 0, the next to 1, and so on).
pub open spec fn is_brush_map(m: Map<u32, usize>, ids: Seq<u32>) -> bool {
    &&& forall|b: u32| m.contains_key(b) <==> ids.contains(b)
    &&& exists|sorted: Seq<u32>| #[trigger] sorts(sorted, ids) && forall|k: int| 0 <= k < sorted.len() ==> m[#[trigger] sorted[k]] == k
}

/// Two ascending lists of distinct elements with the same elements are equal.
pub proof fn lemma_sorted_unique(a: Seq<u32>, b: Seq<u32>)
    requires
        strictly_increasing(a),
        strictly_increasing(b),
        forall|x: u32| a.contains(x) <==> b.contains(x),
    ensures
        a == b,
    decreases a.len(),
{
    if a.len() == 0 {
        if b.len() > 0 {
            assert(b.contains(b[0]));
        }
        assert(a =~= b);
    } else if b.len() == 0 {
        assert(a.contains(a[0]));
    } else {
        let la = a.last();
        let lb = b.last();
        assert(a.contains(la));
        assert(b.contains(lb));
        let ia = choose|i: int| 0 <= i < a.len() && a[i] == lb;
        let ib = choose|i: int| 0 <= i < b.len() && b[i] == la;
        assert(lb <= la);
        assert(la <= lb);
        let a2 = a.drop_last();
        let b2 = b.drop_last();
        assert forall|x: u32| a2.contains(x) <==> b2.contains(x) by {
            if a2.contains(x) {
                let i = choose|i: int| 0 <= i < a2.len() && a2[i] == x;
                assert(a[i] == x && x < la);
                assert(b.contains(x));
                let j = choose|j: int| 0 <= j < b.len() && b[j] == x;
                assert(j < b.len() - 1);
                assert(b2[j] == x);
            }
            if b2.contains(x) {
                let i = choose|i: int| 0 <= i < b2.len() && b2[i] == x;
                assert(b[i] == x && x < lb);
                assert(a.contains(x));
                let j = choose|j: int| 0 <= j < a.len() && a[j] == x;
                assert(j < a.len() - 1);
                assert(a2[j] == x);
            }
        }
        lemma_sorted_unique(a2, b2);
        assert(a =~= a2.push(la));
        assert(b =~= b2.push(lb));
    }
}

/// Inserts `b` into a strictly increasing vector unless it is already there.
fn insert_sorted(v: &mut Vec<u32>, b: u32)
    requires
        strictly_increasing(old(v)@),
    ensures
        strictly_increasing(final(v)@),
        forall|x: u32| final(v)@.contains(x) <==> (old(v)@.contains(x) || x == b),
{
    let mut i: usize = 0;
    while i < v.len() && v[i] < b
        invariant
            v@ == old(v)@,
            i <= v@.len(),
            forall|j: int| 0 <= j < i ==> v@[j] < b,
        decreases v@.len() - i,
    {
        i = i + 1;
    }
    if i < v.len() && v[i] == b {
        return;
    }
    let ghost before = v@;
    assert(before == old(v)@);
    v.insert(i, b);
    proof {
        assert(v@ =~= before.subrange(0, i as int).push(b) + before.subrange(i as int, before.len() as int));
        assert forall|x: u32| v@.contains(x) <==> (before.contains(x) || x == b) by {
            if v@.contains(x) {
                let k = choose|k: int| 0 <= k < v@.len() && v@[k] == x;
                if k < i {
                    assert(before[k] == x);
                } else if k > i {
                    assert(before[k - 1] == x);
                }
            }
            if before.contains(x) {
                let k = choose|k: int| 0 <= k < before.len() && before[k] == x;
                if k < i {
                    assert(v@[k] == x);
                } else {
                    assert(v@[k + 1] == x);
                }
            }
            if x == b {
                assert(v@[i as int] == x);
            }
        }
        assert(forall|x: u32| final(v)@.contains(x) <==> (old(v)@.contains(x) || x == b));
    }
}

/// The distinct brush ids of the triangle groups, ascending.
pub fn sorted_brush_ids(mesh: &MeshData) -> (sorted: Vec<u32>)
    ensures
        strictly_increasing(sorted@),
        forall|x: u32| sorted@.contains(x) <==> brush_ids(mesh.tri_groups@).contains(x),
{
    let ghost ids = brush_ids(mesh.tri_groups@);
    let mut sorted: Vec<u32> = Vec::new();
    let mut g: usize = 0;
    while g < mesh.tri_groups.len()
        invariant
            g <= mesh.tri_groups@.len(),
            ids == brush_ids(mesh.tri_groups@),
            strictly_increasing(sorted@),
            forall|x: u32| sorted@.contains(x) <==> exists|j: int| 0 <= j < g && #[trigger] ids[j] == x,
        decreases mesh.tri_groups@.len() - g,
    {
        insert_sorted(&mut sorted, mesh.tri_groups[g].brush_id);
        proof {
            assert forall|x: u32| sorted@.contains(x) <==> exists|j: int| 0 <= j < g + 1 && #[trigger] ids[j] == x by {
                if x == ids[g as int] {
                    assert(exists|j: int| 0 <= j < g + 1 && #[trigger] ids[j] == x);
                }
                if exists|j: int| 0 <= j < g + 1 && #[trigger] ids[j] == x {
                    let j = choose|j: int| 0 <= j < g + 1 && #[trigger] ids[j] == x;
                    if j < g {
                        assert(exists|j: int| 0 <= j < g && #[trigger] ids[j] == x);
                    }
                }
            }
        }
        g = g + 1;
    }
    proof {
        assert forall|x: u32| sorted@.contains(x) <==> ids.contains(x) by {
            if ids.contains(x) {
                let j = choose|j: int| 0 <= j < ids.len() && ids[j] == x;
                assert(exists|j: int| 0 <= j < g && #[trigger] ids[j] == x);
            }
        }
    }
    sorted
}

/// Maps each brush id used by the mesh to a material index: the distinct ids sorted
/// ascending, numbered from 0.
pub fn build_brush_map(mesh: &MeshData) -> (map: HashMap<u32, usize>)
    ensures
        is_brush_map(map@, brush_ids(mesh.tri_groups@)),
{
    broadcast use vstd::std_specs::hash::group_hash_axioms;
    let sorted = sorted_brush_ids(mesh);
    let mut map: HashMap<u32, usize> = HashMap::new();
    let mut k: usize = 0;
    while k < sorted.len()
        invariant
            k <= sorted@.len(),
            strictly_increasing(sorted@),
            map@.len() == k,
            forall|b: u32| map@.contains_key(b) <==> exists|j: int| 0 <= j < k && #[trigger] sorted@[j] == b,
            forall|j: int| 0 <= j < k ==> #[trigger] map@[sorted@[j]] == j,
        decreases sorted@.len() - k,
    {
        let b = sorted[k];
        proof {
            if map@.contains_key(b) {
                let j = choose|j: int| 0 <= j < k && #[trigger] sorted@[j] == b;
                assert(sorted@[j] < sorted@[k as int]);
            }
        }
        map.insert(b, k);
        proof {
            assert forall|x: u32| map@.contains_key(x) <==> exists|j: int| 0 <= j < k + 1 && #[trigger] sorted@[j] == x by {
                if x == b {
                    assert(sorted@[k as int] == x);
                }
                if exists|j: int| 0 <= j < k + 1 && #[trigger] sorted@[j] == x {
                    let j = choose|j: int| 0 <= j < k + 1 && #[trigger] sorted@[j] == x;
                    if j < k {
                        assert(exists|j: int| 0 <= j < k && #[trigger] sorted@[j] == x);
                    }
                }
            }
            assert forall|j: int| 0 <= j < k + 1 implies #[trigger] map@[sorted@[j]] == j by {
                if j < k {
                    assert(sorted@[j] < sorted@[k as int]);
                }
            }
        }
        k = k + 1;
    }
    proof {
        let ids = brush_ids(mesh.tri_groups@);
        assert forall|b: u32| map@.contains_key(b) <==> ids.contains(b) by {
            if map@.contains_key(b) {
                let j = choose|j: int| 0 <= j < k && #[trigger] sorted@[j] == b;
                assert(sorted@.contains(b));
            }
            if ids.contains(b) {
                assert(sorted@.contains(b));
                let j = choose|j: int| 0 <= j < sorted@.len() && sorted@[j] == b;
                assert(exists|j: int| 0 <= j < k && #[trigger] sorted@[j] == b);
            }
        }
        assert(sorts(sorted@, ids));
    }
    map
}

/// How the glTF rotation of a bone node is obtained.
#[derive(Debug, Clone, Copy, PartialEq, Eq)]
pub enum NodeRotation {
    /// The glTF rotation `[x, y, z, w]` itself.
    Gltf([u32; 4]),
    /// A root bone: its glTF rotation is `quat_to_gltf(root_quat(q))` of this B3D
    /// quaternion `q`, which takes float arithmetic and is computed by the caller.
    RootOf([u32; 4]),
}

/// A glTF node. An empty `children` list means the node has none.
#[derive(Debug)]
pub struct GltfNode {
    pub name: String,
    pub translation: Option<[u32; 3]>,
    pub rotation: Option<NodeRotation>,
    pub children: Vec<u32>,
    pub mesh: Option<u32>,
    pub skin: Option<u32>,
}

pub ghost struct GltfNodeModel {
    pub name: Seq<char>,
    pub translation: Option<[u32; 3]>,
    pub rotation: Option<NodeRotation>,
    pub children: Seq<u32>,
    pub mesh: Option<u32>,
    pub skin: Option<u32>,
}

impl View for GltfNode {
    type V = GltfNodeModel;

    open spec fn view(&self) -> GltfNodeModel {
        GltfNodeModel {
            name: self.name@,
            translation: self.translation,
            rotation: self.rotation,
            children: self.children@,
            mesh: self.mesh,
            skin: self.skin,
        }
    }
}

/// The indices below `n` of the joints whose parent is `p` (`None`: the root joints), in order.
pub open spec fn joints_with_parent(js: Seq<JointModel>, p: Option<usize>, n: nat) -> Seq<u32>
    decreases n,
{
    if n == 0 {
        Seq::empty()
    } else {
        let rest = joints_with_parent(js, p, (n - 1) as nat);
        if js[n - 1].parent == p { rest.push((n - 1) as u32) } else { rest }
    }
}

/// The bind-pose node of joint `i`: translation and rotation converted to glTF (a root
/// joint with Z negated and its rotation corrected; the others with Y and Z swapped), and
/// the joints whose parent it is as children.
pub open spec fn bone_node(js: Seq<JointModel>, i: int) -> GltfNodeModel {
    let j = js[i];
    GltfNodeModel {
        name: j.name,
        translation: Some(
            if j.parent is None {
                [j.position[0], j.position[1], neg_bits(j.position[2])]
            } else {
                [j.position[0], j.position[2], j.position[1]]
            },
        ),
        rotation: Some(
            if j.parent is None {
                NodeRotation::RootOf(j.rotation)
            } else {
                NodeRotation::Gltf([j.rotation[1], j.rotation[3], j.rotation[2], j.rotation[0]])
            },
        ),
        children: joints_with_parent(js, Some(i as usize), js.len()),
        mesh: None,
        skin: None,
    }
}

/// The node list: the bones at `0..n`, then "armature" at `n` with the root bones as
/// children, then "ROOT" at `n + 1` holding mesh 0, skin 0 when skinned, and the armature.
pub open spec fn spec_node_hierarchy(js: Seq<JointModel>, has_skin: bool) -> Seq<GltfNodeModel> {
    let n = js.len();
    Seq::new(n, |i: int| bone_node(js, i)).push(
        GltfNodeModel {
            name: "armature"@,
            translation: None,
            rotation: None,
            children: joints_with_parent(js, None, n),
            mesh: None,
            skin: None,
        },
    ).push(
        GltfNodeModel {
            name: "ROOT"@,
            translation: None,
            rotation: None,
            children: seq![n as u32],
            mesh: Some(0u32),
            skin: if has_skin { Some(0u32) } else { None },
        },
    )
}

/// The indices of the joints whose parent is `p`, in order.
fn joints_with_parent_exec(joints: &[JointInfo], p: Option<usize>) -> (r: Vec<u32>)
    ensures
        r@ == joints_with_parent(joint_models(joints@), p, joints@.len()),
{
    let ghost js = joint_models(joints@);
    let mut r: Vec<u32> = Vec::new();
    let mut c: usize = 0;
    while c < joints.len()
        invariant
            c <= joints@.len(),
            js == joint_models(joints@),
            r@ == joints_with_parent(js, p, c as nat),
        decreases joints@.len() - c,
    {
        if joints[c].parent == p {
            r.push(c as u32);
        }
        c = c + 1;
    }
    r
}

/// Builds the glTF node list (see `spec_node_hierarchy`) and the scene's node list,
/// which holds the ROOT node alone.
pub fn build_node_hierarchy(joints: &[JointInfo], has_skin: bool) -> (r: (Vec<GltfNode>, Vec<u32>))
    requires
        joints@.len() < usize::MAX,
    ensures
        r.0@.map_values(|g: GltfNode| g@) == spec_node_hierarchy(joint_models(joints@), has_skin),
        r.1@ == seq![(joints@.len() + 1) as u32],
{
    let ghost js = joint_models(joints@);
    let n = joints.len();
    let mut nodes: Vec<GltfNode> = Vec::new();
    let mut i: usize = 0;
    while i < n
        invariant
            n == joints@.len(),
            i <= n,
            js == joint_models(joints@),
            nodes@.map_values(|g: GltfNode| g@) =~= Seq::new(i as nat, |k: int| bone_node(js, k)),
        decreases n - i,
    {
        let j = &joints[i];
        let (translation, rotation) = if j.parent.is_none() {
            (root_pos(j.position), NodeRotation::RootOf(j.rotation))
        } else {
            (swap_yz_pos(j.position), NodeRotation::Gltf(quat_to_gltf(swap_yz_quat(j.rotation))))
        };
        let children = joints_with_parent_exec(joints, Some(i));
        let ghost before = nodes@.map_values(|g: GltfNode| g@);
        nodes.push(GltfNode {
            name: j.name.clone(),
            translation: Some(translation),
            rotation: Some(rotation),
            children,
            mesh: None,
            skin: None,
        });
        proof {
            assert(nodes@.map_values(|g: GltfNode| g@) =~= before.push(bone_node(js, i as int)));
        }
        i = i + 1;
    }
    let roots = joints_with_parent_exec(joints, None);
    nodes.push(GltfNode {
        name: String::from_str("armature"),
        translation: None,
        rotation: None,
        children: roots,
        mesh: None,
        skin: None,
    });
    let mut root_children: Vec<u32> = Vec::new();
    root_children.push(n as u32);
    nodes.push(GltfNode {
        name: String::from_str("ROOT"),
        translation: None,
        rotation: None,
        children: root_children,
        mesh: Some(0),
        skin: if has_skin { Some(0) } else { None },
    });
    proof {
        assert(nodes@.map_values(|g: GltfNode| g@) =~= spec_node_hierarchy(js, has_skin));
    }
    let mut scene: Vec<u32> = Vec::new();
    scene.push((n + 1) as u32);
    proof {
        assert(scene@ =~= seq![(joints@.len() + 1) as u32]);
    }
    (nodes, scene)
}

/// The mesh is skinned: there are joints and some vertex has a joint.
pub open spec fn spec_has_skin(mesh: MeshDataModel, joint_count: nat) -> bool {
    joint_count > 0 && exists|i: int| 0 <= i < mesh.skin.len() && mesh.skin[i] is Some
}

/// Whether the mesh is skinned (see `spec_has_skin`).
pub fn has_skin(mesh: &MeshData, joints: &[JointInfo]) -> (r: bool)
    ensures
        r == spec_has_skin(mesh@, joints@.len()),
{
    if joints.len() == 0 {
        return false;
    }
    let mut i: usize = 0;
    while i < mesh.skin.len()
        invariant
            joints@.len() > 0,
            i <= mesh.skin@.len(),
            forall|k: int| 0 <= k < i ==> mesh.skin@[k] is None,
        decreases mesh.skin@.len() - i,
    {
        if mesh.skin[i].is_some() {
            assert(mesh@.skin[i as int] is Some);
            return true;
        }
        i = i + 1;
    }
    false
}

/// One bound vertex is enough: when there are joints and some vertex carries a bone
/// weight, the mesh is skinned, whatever the other vertices carry.
pub proof fn lemma_one_bound_vertex_skins(mesh: MeshDataModel, joint_count: nat, i: int)
    requires
        joint_count > 0,
        0 <= i < mesh.skin.len(),
        mesh.skin[i] is Some,
    ensures
        spec_has_skin(mesh, joint_count),
{
}

/// Without joints, or when no vertex carries a bone weight, the mesh is not skinned.
pub proof fn lemma_unbound_mesh_is_unskinned(mesh: MeshDataModel, joint_count: nat)
    requires
        joint_count == 0 || forall|i: int| 0 <= i < mesh.skin.len() ==> #[trigger] mesh.skin[i] is None,
    ensures
        !spec_has_skin(mesh, joint_count),
{
}

/// A further vertex changes whether the mesh is skinned only by being bound itself: an
/// unbound one leaves the answer as it was, and a bound one makes the mesh skinned when
/// there are joints.
pub proof fn lemma_skin_after_one_more_vertex(mesh: MeshDataModel, joint_count: nat, s: Option<BoneWeight>)
    ensures
        spec_has_skin(MeshDataModel { skin: mesh.skin.push(s), ..mesh }, joint_count)
            == (spec_has_skin(mesh, joint_count) || (joint_count > 0 && s is Some)),
{
    let more = MeshDataModel { skin: mesh.skin.push(s), ..mesh };
    if spec_has_skin(mesh, joint_count) {
        let i = choose|i: int| 0 <= i < mesh.skin.len() && mesh.skin[i] is Some;
        assert(more.skin[i] is Some);
    }
    if joint_count > 0 && s is Some {
        assert(more.skin[mesh.skin.len() as int] is Some);
    }
    if spec_has_skin(more, joint_count) {
        let i = choose|i: int| 0 <= i < more.skin.len() && more.skin[i] is Some;
        if i < mesh.skin.len() {
            assert(mesh.skin[i] is Some);
        }
    }
}

/// The skinning entry of a vertex from its (joint, weight) pair.
pub open spec fn skin_entry(vj: Option<(usize, u32)>) -> Option<BoneWeight> {
    match vj {
        Some((j, w)) => Some(BoneWeight { joint_idx: j as u32, weight: w }),
        None => None,
    }
}

/// Copies the vertex-to-joint map into the mesh's skinning data, vertex by vertex.
pub fn apply_skin(mesh: &mut MeshData, vertex_joint: &[Option<(usize, u32)>])
    requires
        vertex_joint@.len() <= old(mesh).skin@.len(),
    ensures
        final(mesh).positions@ == old(mesh).positions@,
        final(mesh).normals@ == old(mesh).normals@,
        final(mesh).uvs@ == old(mesh).uvs@,
        final(mesh).tri_groups@ == old(mesh).tri_groups@,
        final(mesh).skin@.len() == old(mesh).skin@.len(),
        forall|i: int| 0 <= i < final(mesh).skin@.len() ==> #[trigger] final(mesh).skin@[i] == if i < vertex_joint@.len() {
            skin_entry(vertex_joint@[i])
        } else {
            old(mesh).skin@[i]
        },
{
    let mut i: usize = 0;
    while i < vertex_joint.len()
        invariant
            i <= vertex_joint@.len(),
            vertex_joint@.len() <= mesh.skin@.len(),
            mesh.positions@ == old(mesh).positions@,
            mesh.normals@ == old(mesh).normals@,
            mesh.uvs@ == old(mesh).uvs@,
            mesh.tri_groups@ == old(mesh).tri_groups@,
            mesh.skin@.len() == old(mesh).skin@.len(),
            forall|k: int| 0 <= k < mesh.skin@.len() ==> #[trigger] mesh.skin@[k] == if k < i {
                skin_entry(vertex_joint@[k])
            } else {
                old(mesh).skin@[k]
            },
        decreases vertex_joint@.len() - i,
    {
        let e = match vertex_joint[i] {
            Some((j, w)) => Some(BoneWeight { joint_idx: j as u32, weight: w }),
            None => None,
        };
        mesh.skin.set(i, e);
        i = i + 1;
    }
}

/// The total number of indices in the triangle groups.
pub open spec fn index_total(gs: Seq<Seq<u32>>) -> nat
    decreases gs.len(),
{
    if gs.len() == 0 { 0 } else { index_total(gs.drop_last()) + gs.last().len() }
}

/// For each triangle group, the byte offset of its indices within the index data and
/// their count, as the index accessors record them.
pub open spec fn spec_index_accessors(gs: Seq<Seq<u32>>) -> Seq<(u32, u32)> {
    Seq::new(gs.len(), |i: int| ((4 * index_total(gs.subrange(0, i))) as u32, gs[i].len() as u32))
}

/// Adding up index counts over a longer prefix never gives less.
proof fn lemma_index_total_mono(gs: Seq<Seq<u32>>, i: int)
    requires
        0 <= i <= gs.len(),
    ensures
        index_total(gs.subrange(0, i)) <= index_total(gs),
    decreases gs.len() - i,
{
    if i < gs.len() {
        lemma_index_total_mono(gs, i + 1);
        assert(gs.subrange(0, i + 1).drop_last() =~= gs.subrange(0, i));
    } else {
        assert(gs.subrange(0, i) =~= gs);
    }
}

/// The index accessors of the triangle groups (see `spec_index_accessors`) and the total
/// number of indices.
pub fn index_accessors(tri_groups: &[TriGroup]) -> (r: (Vec<(u32, u32)>, u32))
    requires
        4 * index_total(group_indices(tri_groups@)) <= u32::MAX,
    ensures
        r.0@ == spec_index_accessors(group_indices(tri_groups@)),
        r.1 == index_total(group_indices(tri_groups@)),
{
    let ghost gs = group_indices(tri_groups@);
    let mut acc: Vec<(u32, u32)> = Vec::new();
    let mut total: u32 = 0;
    let mut i: usize = 0;
    while i < tri_groups.len()
        invariant
            i <= tri_groups@.len(),
            gs == group_indices(tri_groups@),
            4 * index_total(gs) <= u32::MAX,
            total == index_total(gs.subrange(0, i as int)),
            acc@ =~= spec_index_accessors(gs).subrange(0, i as int),
        decreases tri_groups@.len() - i,
    {
        proof {
            lemma_index_total_mono(gs, i + 1);
            assert(gs.subrange(0, i + 1).drop_last() =~= gs.subrange(0, i as int));
        }
        let n = tri_groups[i].indices.len();
        acc.push((total * 4, n as u32));
        total = total + n as u32;
        i = i + 1;
    }
    proof {
        assert(gs.subrange(0, gs.len() as int) =~= gs);
    }
    (acc, total)
}

/// The largest finite float, `f32::MAX`, as a bit pattern.
pub const F32_MAX: u32 = 0x7F7F_FFFF;
/// The smallest finite float, `f32::MIN`, as a bit pattern.
pub const F32_MIN: u32 = 0xFF7F_FFFF;

/// IEEE-754 `a < b` on bit patterns: false when either is a NaN or both are zeros;
/// otherwise negatives come before positives, and magnitudes (the patterns without the
/// sign bit, which order like the values they encode) order within a sign.
pub open spec fn f32_lt(a: u32, b: u32) -> bool {
    let ma = a % 0x8000_0000;
    let mb = b % 0x8000_0000;
    let na = a >= 0x8000_0000;
    let nb = b >= 0x8000_0000;
    if ma > 0x7F80_0000 || mb > 0x7F80_0000 {
        false
    } else if ma == 0 && mb == 0 {
        false
    } else if !na && !nb {
        ma < mb
    } else if na && nb {
        mb < ma
    } else {
        na
    }
}

/// `a < b` for the floats with bit patterns `a` and `b`.
pub fn f32_less(a: u32, b: u32) -> (r: bool)
    ensures
        r == f32_lt(a, b),
{
    let ma = a % 0x8000_0000;
    let mb = b % 0x8000_0000;
    let na = a >= 0x8000_0000;
    let nb = b >= 0x8000_0000;
    if ma > 0x7F80_0000 || mb > 0x7F80_0000 {
        false
    } else if ma == 0 && mb == 0 {
        false
    } else if !na && !nb {
        ma < mb
    } else if na && nb {
        mb < ma
    } else {
        na
    }
}

/// One axis of the running bounds: the new minimum and maximum after seeing `x`.
pub open spec fn step_bounds(lo: u32, hi: u32, x: u32) -> (u32, u32) {
    (if f32_lt(x, lo) { x } else { lo }, if f32_lt(hi, x) { x } else { hi })
}

/// The per-axis bounds of a list of positions: start from `f32::MAX` / `f32::MIN` and
/// lower the minimum or raise the maximum whenever a coordinate compares below or above.
pub open spec fn spec_bounds(ps: Seq<[u32; 3]>) -> ([u32; 3], [u32; 3])
    decreases ps.len(),
{
    if ps.len() == 0 {
        ([F32_MAX, F32_MAX, F32_MAX], [F32_MIN, F32_MIN, F32_MIN])
    } else {
        let (lo, hi) = spec_bounds(ps.drop_last());
        let p = ps.last();
        let x = step_bounds(lo[0], hi[0], p[0]);
        let y = step_bounds(lo[1], hi[1], p[1]);
        let z = step_bounds(lo[2], hi[2], p[2]);
        ([x.0, y.0, z.0], [x.1, y.1, z.1])
    }
}

/// The minimum and maximum of the positions per axis (see `spec_bounds`).
pub fn calc_bounds(positions: &[[u32; 3]]) -> (r: ([u32; 3], [u32; 3]))
    ensures
        r == spec_bounds(positions@),
{
    let mut min: [u32; 3] = [F32_MAX, F32_MAX, F32_MAX];
    let mut max: [u32; 3] = [F32_MIN, F32_MIN, F32_MIN];
    let mut i: usize = 0;
    while i < positions.len()
        invariant
            i <= positions@.len(),
            (min, max) == spec_bounds(positions@.subrange(0, i as int)),
        decreases positions@.len() - i,
    {
        let p = positions[i];
        proof {
            assert(positions@.subrange(0, i + 1).drop_last() =~= positions@.subrange(0, i as int));
        }
        let x0 = if f32_less(p[0], min[0]) { p[0] } else { min[0] };
        let y0 = if f32_less(p[1], min[1]) { p[1] } else { min[1] };
        let z0 = if f32_less(p[2], min[2]) { p[2] } else { min[2] };
        let x1 = if f32_less(max[0], p[0]) { p[0] } else { max[0] };
        let y1 = if f32_less(max[1], p[1]) { p[1] } else { max[1] };
        let z1 = if f32_less(max[2], p[2]) { p[2] } else { max[2] };
        min = [x0, y0, z0];
        max = [x1, y1, z1];
        i = i + 1;
    }
    proof {
        assert(positions@.subrange(0, positions@.len() as int) =~= positions@);
    }
    (min, max)
}

/// Where each part of the vertex buffer starts.
#[derive(Debug, Clone, Copy, PartialEq, Eq)]
pub struct VertexLayout {
    pub positions: usize,
    pub normals: usize,
    pub uvs: usize,
    pub joints: Option<usize>,
    pub weights: Option<usize>,
    pub indices: usize,
}

/// The vertex buffer: positions, normals, texture coordinates, then (when skinned)
/// joints and weights, then all indices, padded with zeros to four bytes.
pub open spec fn vertex_buffer_bytes(m: MeshDataModel, gs: Seq<Seq<u32>>, skinned: bool) -> Seq<u8> {
    let b = vec3_bytes(m.positions) + vec3_bytes(m.normals) + vec2_bytes(m.uvs)
        + (if skinned { joints_bytes(m.skin) + weights_bytes(m.skin) } else { Seq::empty() })
        + indices_bytes(gs);
    b + fill(0, pad_len(b.len()))
}

/// Lays out the vertex buffer (see `vertex_buffer_bytes`) and says where each part starts.
pub fn build_vertex_buffer(mesh: &MeshData, skinned: bool) -> (r: (Vec<u8>, VertexLayout))
    requires
        skinned ==> joints_fit_u16(mesh.skin@),
    ensures
        r.0@ == vertex_buffer_bytes(mesh@, group_indices(mesh.tri_groups@), skinned),
        r.1.positions == 0,
        r.1.normals == vec3_bytes(mesh.positions@).len(),
        r.1.uvs == r.1.normals + vec3_bytes(mesh.normals@).len(),
        skinned ==> r.1.joints == Some((r.1.uvs + vec2_bytes(mesh.uvs@).len()) as usize),
        skinned ==> r.1.weights == Some((r.1.uvs + vec2_bytes(mesh.uvs@).len() + joints_bytes(mesh.skin@).len()) as usize),
        !skinned ==> r.1.joints is None && r.1.weights is None,
        r.1.indices == (if skinned {
            r.1.uvs + vec2_bytes(mesh.uvs@).len() + joints_bytes(mesh.skin@).len() + weights_bytes(mesh.skin@).len()
        } else {
            r.1.uvs + vec2_bytes(mesh.uvs@).len()
        }),
{
    let mut bin: Vec<u8> = Vec::new();
    let positions = push_positions(&mut bin, mesh.positions.as_slice());
    let normals = push_normals(&mut bin, mesh.normals.as_slice());
    let uvs = push_uvs(&mut bin, mesh.uvs.as_slice());
    let ghost before_skin = bin@;
    let (joints, weights) = if skinned {
        let jo = push_joints(&mut bin, mesh.skin.as_slice());
        let wo = push_weights(&mut bin, mesh.skin.as_slice());
        (Some(jo), Some(wo))
    } else {
        (None, None)
    };
    proof {
        if !skinned {
            assert(bin@ =~= before_skin + Seq::<u8>::empty());
        }
    }
    let indices = push_indices(&mut bin, mesh.tri_groups.as_slice());
    pad_to_4_in_place(&mut bin);
    proof {
        assert(bin@ =~= vertex_buffer_bytes(mesh@, group_indices(mesh.tri_groups@), skinned));
    }
    (bin, VertexLayout { positions, normals, uvs, joints, weights, indices })
}

/// How a material blends with what is behind it.
#[derive(Debug, Clone, Copy, PartialEq, Eq)]
pub enum AlphaMode {
    /// Smooth transparency.
    Blend,
    /// Hard cutoff at alpha 0.5.
    Mask,
}

/// The alpha mode that a texture's B3D hints give: an alpha channel (`flags & 2`) or
/// alpha blending (`blend == 1`) means Blend; otherwise a colour key (`flags & 4`) means
/// Mask; otherwise the hints say nothing.
pub open spec fn spec_texture_alpha_mode(flags: u32, blend: u32) -> Option<AlphaMode> {
    if flags & 2 != 0 || blend == 1 {
        Some(AlphaMode::Blend)
    } else if flags & 4 != 0 {
        Some(AlphaMode::Mask)
    } else {
        None
    }
}

/// The alpha mode of a texture's B3D hints (see `spec_texture_alpha_mode`).
pub fn texture_alpha_mode(flags: u32, blend: u32) -> (r: Option<AlphaMode>)
    ensures
        r == spec_texture_alpha_mode(flags, blend),
{
    if flags & 2 != 0 || blend == 1 {
        Some(AlphaMode::Blend)
    } else if flags & 4 != 0 {
        Some(AlphaMode::Mask)
    } else {
        None
    }
}

/// What a brush's material is made of.
#[derive(Debug, Clone, Copy, PartialEq, Eq)]
pub struct MaterialPlan {
    /// The brush the material comes from.
    pub brush_id: u32,
    /// The B3D texture to show (the brush's first texture id, when it names a texture).
    pub texture: Option<usize>,
    /// The brush colour (bit patterns), used when there is no texture.
    pub color: [u32; 4],
    /// The alpha mode of the texture's hints.
    pub alpha_mode: Option<AlphaMode>,
}

/// The material of brush `bid`.
pub open spec fn spec_material_plan(bid: u32, textures: Seq<TextureModel>, brushes: Seq<BrushModel>) -> MaterialPlan {
    let b = brushes[bid as int];
    let texture: Option<usize> = if b.texture_id.len() > 0 && (b.texture_id[0] as int) < textures.len() {
        Some(b.texture_id[0] as usize)
    } else {
        None
    };
    MaterialPlan {
        brush_id: bid,
        texture,
        color: b.color,
        alpha_mode: match texture {
            Some(t) => spec_texture_alpha_mode(textures[t as int].flags, textures[t as int].blend),
            None => None,
        },
    }
}

/// The materials of the sorted brush ids, in order, for the ids that name a brush.
pub open spec fn spec_material_plans(ids: Seq<u32>, textures: Seq<TextureModel>, brushes: Seq<BrushModel>) -> Seq<MaterialPlan>
    decreases ids.len(),
{
    if ids.len() == 0 {
        Seq::empty()
    } else {
        let rest = spec_material_plans(ids.drop_last(), textures, brushes);
        if (ids.last() as int) < brushes.len() {
            rest.push(spec_material_plan(ids.last(), textures, brushes))
        } else {
            rest
        }
    }
}

/// The materials follow the brushes: there is one per sorted id that names a brush, in
/// the ids' order; each carries its brush's colour, and its texture is the brush's
/// first texture id when that names a texture, none otherwise (later layers, such as a
/// light map, are not shown); its alpha mode is that of the texture's hints.
pub proof fn lemma_material_plans_follow_brushes(ids: Seq<u32>, textures: Seq<TextureModel>, brushes: Seq<BrushModel>)
    ensures
        spec_material_plans(ids, textures, brushes).map_values(|p: MaterialPlan| p.brush_id)
            == ids.filter(|id: u32| (id as int) < brushes.len()),
        forall|k: int| 0 <= k < spec_material_plans(ids, textures, brushes).len() ==> {
            let p = #[trigger] spec_material_plans(ids, textures, brushes)[k];
            let b = brushes[p.brush_id as int];
            &&& (p.brush_id as int) < brushes.len()
            &&& p.color == b.color
            &&& p.texture == if b.texture_id.len() > 0 && (b.texture_id[0] as int) < textures.len() {
                Some(b.texture_id[0] as usize)
            } else {
                None::<usize>
            }
            &&& p.alpha_mode == match p.texture {
                Some(t) => spec_texture_alpha_mode(textures[t as int].flags, textures[t as int].blend),
                None => None,
            }
        },
    decreases ids.len(),
{
    reveal(Seq::filter);
    if ids.len() > 0 {
        let rest = ids.drop_last();
        lemma_material_plans_follow_brushes(rest, textures, brushes);
        let plans = spec_material_plans(ids, textures, brushes);
        let before = spec_material_plans(rest, textures, brushes);
        if (ids.last() as int) < brushes.len() {
            assert(plans == before.push(spec_material_plan(ids.last(), textures, brushes)));
            assert(plans.map_values(|p: MaterialPlan| p.brush_id)
                =~= before.map_values(|p: MaterialPlan| p.brush_id).push(ids.last()));
        } else {
            assert(plans.map_values(|p: MaterialPlan| p.brush_id) =~= before.map_values(|p: MaterialPlan| p.brush_id));
        }
    }
}

/// The materials, one per sorted brush id that names a brush (see `spec_material_plans`).
pub fn plan_materials(sorted_ids: &[u32], textures: &[Texture], brushes: &[Brush]) -> (r: Vec<MaterialPlan>)
    ensures
        r@ == spec_material_plans(
            sorted_ids@,
            textures@.map_values(|t: Texture| t@),
            brushes@.map_values(|b: Brush| b@),
        ),
{
    let ghost tm = textures@.map_values(|t: Texture| t@);
    let ghost bm = brushes@.map_values(|b: Brush| b@);
    let mut plans: Vec<MaterialPlan> = Vec::new();
    let mut i: usize = 0;
    while i < sorted_ids.len()
        invariant
            i <= sorted_ids@.len(),
            tm == textures@.map_values(|t: Texture| t@),
            bm == brushes@.map_values(|b: Brush| b@),
            plans@ == spec_material_plans(sorted_ids@.subrange(0, i as int), tm, bm),
        decreases sorted_ids@.len() - i,
    {
        let bid = sorted_ids[i];
        proof {
            assert(sorted_ids@.subrange(0, i + 1).drop_last() =~= sorted_ids@.subrange(0, i as int));
        }
        if (bid as usize) < brushes.len() {
            let brush = &brushes[bid as usize];
            let texture: Option<usize> = if brush.texture_id.len() > 0 && (brush.texture_id[0] as usize) < textures.len() {
                Some(brush.texture_id[0] as usize)
            } else {
                None
            };
            let alpha_mode = match texture {
                Some(t) => texture_alpha_mode(textures[t].flags, textures[t].blend),
                None => None,
            };
            plans.push(MaterialPlan { brush_id: bid, texture, color: brush.color, alpha_mode });
            proof {
                assert(bm[bid as int] == brushes@[bid as int]@);
                if let Some(t) = texture {
                    assert(tm[t as int] == textures@[t as int]@);
                }
            }
        }
        i = i + 1;
    }
    proof {
        assert(sorted_ids@.subrange(0, sorted_ids@.len() as int) =~= sorted_ids@);
    }
    plans
}

/// The material index of a triangle group: its brush's entry in the material map, or
/// the fallback material 0.
pub fn material_for(brush_map: &HashMap<u32, usize>, brush_id: u32) -> (m: usize)
    ensures
        m == if brush_map@.contains_key(brush_id) { brush_map@[brush_id] } else { 0 },
{
    broadcast use vstd::std_specs::hash::group_hash_axioms;
    match brush_map.get(&brush_id) {
        Some(m) => *m,
        None => 0,
    }
}

/// Among strictly increasing ids, those that name a brush come first: the material
/// list holds one plan per such id, at the id's own rank.
pub proof fn lemma_material_plans_by_rank(ids: Seq<u32>, textures: Seq<TextureModel>, brushes: Seq<BrushModel>)
    requires
        strictly_increasing(ids),
    ensures
        ({
            let plans = spec_material_plans(ids, textures, brushes);
            &&& plans.len() <= ids.len()
            &&& forall|k: int| 0 <= k < ids.len() && (ids[k] as int) < brushes.len() ==> k < plans.len()
                && #[trigger] plans[k] == spec_material_plan(ids[k], textures, brushes)
        }),
    decreases ids.len(),
{
    if ids.len() > 0 {
        let rest = ids.drop_last();
        lemma_material_plans_by_rank(rest, textures, brushes);
        let plans = spec_material_plans(ids, textures, brushes);
        let rp = spec_material_plans(rest, textures, brushes);
        assert forall|k: int| 0 <= k < ids.len() && (ids[k] as int) < brushes.len() implies k < plans.len()
            && #[trigger] plans[k] == spec_material_plan(ids[k], textures, brushes) by {
            if k < ids.len() - 1 {
                assert(rest[k] == ids[k]);
                assert(ids[k] < ids.last());
                if (ids.last() as int) < brushes.len() {
                    assert(rp.len() == rest.len()) by {
                        lemma_plans_full(rest, textures, brushes);
                    }
                }
            } else {
                lemma_plans_full(rest, textures, brushes);
            }
        }
    }
}

/// When the last (largest) id names a brush, so do all, and there is a plan for each.
proof fn lemma_plans_full(ids: Seq<u32>, textures: Seq<TextureModel>, brushes: Seq<BrushModel>)
    requires
        strictly_increasing(ids),
        ids.len() > 0 ==> (ids.last() as int) < brushes.len(),
    ensures
        spec_material_plans(ids, textures, brushes).len() == ids.len(),
    decreases ids.len(),
{
    if ids.len() > 0 {
        let r = ids.drop_last();
        if r.len() > 0 {
            assert(r.last() < ids.last());
        }
        lemma_plans_full(r, textures, brushes);
    }
}

/// Law: the material map and the material list agree. For every brush id a triangle
/// group uses that names a brush, the material its map entry points at is made from that
/// brush.
pub proof fn lemma_brush_map_matches_materials(
    map: Map<u32, usize>,
    sorted: Seq<u32>,
    tri_groups: Seq<TriGroup>,
    textures: Seq<TextureModel>,
    brushes: Seq<BrushModel>,
)
    requires
        is_brush_map(map, brush_ids(tri_groups)),
        sorts(sorted, brush_ids(tri_groups)),
    ensures
        forall|b: u32| #[trigger] map.contains_key(b) && (b as int) < brushes.len() ==> {
            let plans = spec_material_plans(sorted, textures, brushes);
            &&& (map[b] as int) < plans.len()
            &&& plans[map[b] as int] == spec_material_plan(b, textures, brushes)
        },
{
    let ids = brush_ids(tri_groups);
    let s2 = choose|s2: Seq<u32>| #[trigger] sorts(s2, ids) && forall|k: int| 0 <= k < s2.len() ==> map[#[trigger] s2[k]] == k;
    lemma_sorted_unique(sorted, s2);
    lemma_material_plans_by_rank(sorted, textures, brushes);
    assert forall|b: u32| #[trigger] map.contains_key(b) && (b as int) < brushes.len() implies {
        let plans = spec_material_plans(sorted, textures, brushes);
        &&& (map[b] as int) < plans.len()
        &&& plans[map[b] as int] == spec_material_plan(b, textures, brushes)
    } by {
        assert(sorted.contains(b));
        let k = choose|k: int| 0 <= k < sorted.len() && sorted[k] == b;
        assert(map[s2[k]] == k);
    }
}

/// The float 1.0 as a bit pattern.
pub const F32_ONE: u32 = 0x3F80_0000;

/// What an animation channel drives.
#[derive(Debug, Clone, Copy, PartialEq, Eq)]
pub enum ChannelPath {
    Translation,
    Scale,
    Rotation,
}

/// The sample times of a channel, in frames; a time is a frame count over the clip's rate.
#[derive(Debug)]
pub enum SampleTimes {
    /// One sample per key, at the key's frame minus the joint's first frame in the clip.
    Frames(Vec<u32>),
    /// Two samples, at the two given frame counts: 0 and the span from the joint's first
    /// to its last frame in the clip, so that they too start at the joint's first frame.
    Endpoints(u32, u32),
}

/// The sample values of a channel.
#[derive(Debug)]
pub enum ChannelValues {
    /// Translations or scales, ready for glTF.
    Vec3s(Vec<[u32; 3]>),
    /// Rotations `[x, y, z, w]`, ready for glTF.
    Quats(Vec<[u32; 4]>),
    /// Rotations of a root bone as B3D quaternions `q`: each glTF value is
    /// `quat_to_gltf(root_quat(q))`, which takes float arithmetic and is computed by the caller.
    RootQuats(Vec<[u32; 4]>),
}

/// One animation channel with its sampler.
#[derive(Debug)]
pub struct ChannelPlan {
    /// The glTF node (the joint index).
    pub node: u32,
    pub path: ChannelPath,
    pub times: SampleTimes,
    pub values: ChannelValues,
}

/// One glTF animation.
#[derive(Debug)]
pub struct AnimPlan {
    pub name: String,
    /// The frame rate that turns frames into seconds (bit pattern).
    pub fps: u32,
    pub channels: Vec<ChannelPlan>,
}

pub ghost enum SampleTimesModel {
    Frames(Seq<u32>),
    Endpoints(u32, u32),
}

pub ghost enum ChannelValuesModel {
    Vec3s(Seq<[u32; 3]>),
    Quats(Seq<[u32; 4]>),
    RootQuats(Seq<[u32; 4]>),
}

pub ghost struct ChannelPlanModel {
    pub node: u32,
    pub path: ChannelPath,
    pub times: SampleTimesModel,
    pub values: ChannelValuesModel,
}

pub ghost struct AnimPlanModel {
    pub name: Seq<char>,
    pub fps: u32,
    pub channels: Seq<ChannelPlanModel>,
}

impl View for SampleTimes {
    type V = SampleTimesModel;

    open spec fn view(&self) -> SampleTimesModel {
        match self {
            SampleTimes::Frames(v) => SampleTimesModel::Frames(v@),
            SampleTimes::Endpoints(a, b) => SampleTimesModel::Endpoints(*a, *b),
        }
    }
}

impl View for ChannelValues {
    type V = ChannelValuesModel;

    open spec fn view(&self) -> ChannelValuesModel {
        match self {
            ChannelValues::Vec3s(v) => ChannelValuesModel::Vec3s(v@),
            ChannelValues::Quats(v) => ChannelValuesModel::Quats(v@),
            ChannelValues::RootQuats(v) => ChannelValuesModel::RootQuats(v@),
        }
    }
}

impl View for ChannelPlan {
    type V = ChannelPlanModel;

    open spec fn view(&self) -> ChannelPlanModel {
        ChannelPlanModel { node: self.node, path: self.path, times: self.times@, values: self.values@ }
    }
}

impl View for AnimPlan {
    type V = AnimPlanModel;

    open spec fn view(&self) -> AnimPlanModel {
        AnimPlanModel { name: self.name@, fps: self.fps, channels: self.channels@.map_values(|c: ChannelPlan| c@) }
    }
}

/// The keys whose frame lies in `lo..=hi`, in order.
pub open spec fn keys_in(ks: Seq<KeyTuple>, lo: u32, hi: u32) -> Seq<KeyTuple> {
    ks.filter(|k: KeyTuple| lo <= k.0 && k.0 <= hi)
}

/// A vector with some component other than zero.
pub open spec fn nonzero3(v: [u32; 3]) -> bool {
    is_nonzero_bits(v[0]) || is_nonzero_bits(v[1]) || is_nonzero_bits(v[2])
}

pub open spec fn nonzero4(v: [u32; 4]) -> bool {
    is_nonzero_bits(v[0]) || is_nonzero_bits(v[1]) || is_nonzero_bits(v[2]) || is_nonzero_bits(v[3])
}

/// The keys that carry a translation (a position other than zero).
pub open spec fn position_keys(ks: Seq<KeyTuple>) -> Seq<KeyTuple> {
    ks.filter(|k: KeyTuple| nonzero3(k.1))
}

/// The keys that carry a scale.
pub open spec fn scale_keys(ks: Seq<KeyTuple>) -> Seq<KeyTuple> {
    ks.filter(|k: KeyTuple| nonzero3(k.2))
}

/// The keys that carry a rotation.
pub open spec fn rotation_keys(ks: Seq<KeyTuple>) -> Seq<KeyTuple> {
    ks.filter(|k: KeyTuple| nonzero4(k.3))
}

/// The smallest frame of a non-empty key list.
pub open spec fn min_frame(ks: Seq<KeyTuple>) -> u32
    decreases ks.len(),
{
    if ks.len() <= 1 {
        ks[0].0
    } else {
        let m = min_frame(ks.drop_last());
        if ks.last().0 < m { ks.last().0 } else { m }
    }
}

/// The largest frame of a non-empty key list.
pub open spec fn max_frame(ks: Seq<KeyTuple>) -> u32
    decreases ks.len(),
{
    if ks.len() <= 1 {
        ks[0].0
    } else {
        let m = max_frame(ks.drop_last());
        if ks.last().0 > m { ks.last().0 } else { m }
    }
}

/// Each key's frame minus `first`.
pub open spec fn frame_offsets(ks: Seq<KeyTuple>, first: u32) -> Seq<u32> {
    ks.map_values(|k: KeyTuple| (k.0 - first) as u32)
}

/// A joint position converted to glTF (a root joint: Z negated; others: Y and Z swapped).
pub open spec fn gltf_position(root: bool, p: [u32; 3]) -> [u32; 3] {
    if root { [p[0], p[1], neg_bits(p[2])] } else { [p[0], p[2], p[1]] }
}

/// A non-root joint rotation converted to glTF `[x, y, z, w]` (Y and Z swapped).
pub open spec fn gltf_rotation(q: [u32; 4]) -> [u32; 4] {
    [q[1], q[3], q[2], q[0]]
}

/// The translation channel of joint `ji` for its keys `ks` in a clip that spans frames
/// `first..=last`: its position keys, or, when it has none, its bind position at both ends.
pub open spec fn translation_channel(j: JointModel, ji: int, ks: Seq<KeyTuple>, first: u32, last: u32) -> ChannelPlanModel {
    let root = j.parent is None;
    let pk = position_keys(ks);
    ChannelPlanModel {
        node: ji as u32,
        path: ChannelPath::Translation,
        times: if pk.len() == 0 { SampleTimesModel::Endpoints(0, (last - first) as u32) } else { SampleTimesModel::Frames(frame_offsets(pk, first)) },
        values: ChannelValuesModel::Vec3s(
            if pk.len() == 0 {
                seq![gltf_position(root, j.position), gltf_position(root, j.position)]
            } else {
                pk.map_values(|k: KeyTuple| gltf_position(root, k.1))
            },
        ),
    }
}

/// The scale channel: its scale keys as stored, or, when it has none, 1 at both ends.
pub open spec fn scale_channel(ji: int, ks: Seq<KeyTuple>, first: u32, last: u32) -> ChannelPlanModel {
    let sk = scale_keys(ks);
    ChannelPlanModel {
        node: ji as u32,
        path: ChannelPath::Scale,
        times: if sk.len() == 0 { SampleTimesModel::Endpoints(0, (last - first) as u32) } else { SampleTimesModel::Frames(frame_offsets(sk, first)) },
        values: ChannelValuesModel::Vec3s(
            if sk.len() == 0 {
                seq![[F32_ONE, F32_ONE, F32_ONE], [F32_ONE, F32_ONE, F32_ONE]]
            } else {
                sk.map_values(|k: KeyTuple| k.2)
            },
        ),
    }
}

/// The rotation channel: its rotation keys, or, when it has none, its bind rotation at
/// both ends; for a root joint the B3D quaternions are handed on for the float correction.
pub open spec fn rotation_channel(j: JointModel, ji: int, ks: Seq<KeyTuple>, first: u32, last: u32) -> ChannelPlanModel {
    let rk = rotation_keys(ks);
    let qs = if rk.len() == 0 { seq![j.rotation, j.rotation] } else { rk.map_values(|k: KeyTuple| k.3) };
    ChannelPlanModel {
        node: ji as u32,
        path: ChannelPath::Rotation,
        times: if rk.len() == 0 { SampleTimesModel::Endpoints(0, (last - first) as u32) } else { SampleTimesModel::Frames(frame_offsets(rk, first)) },
        values: if j.parent is None {
            ChannelValuesModel::RootQuats(qs)
        } else {
            ChannelValuesModel::Quats(qs.map_values(|q: [u32; 4]| gltf_rotation(q)))
        },
    }
}

/// The channels of joint `ji` in a clip: none when it has no keys in the clip's frame
/// range; otherwise translation, scale and rotation, over the frames its keys there span.
pub open spec fn joint_channels(c: AnimClipModel, j: JointModel, ji: int) -> Seq<ChannelPlanModel> {
    let ks = keys_in(j.keys, c.first_frame, c.last_frame);
    if ks.len() == 0 {
        Seq::empty()
    } else {
        let first = min_frame(ks);
        let last = max_frame(ks);
        seq![translation_channel(j, ji, ks, first, last), scale_channel(ji, ks, first, last), rotation_channel(j, ji, ks, first, last)]
    }
}

/// The channels of a clip over the first `n` joints, joint by joint.
pub open spec fn clip_channels(c: AnimClipModel, js: Seq<JointModel>, n: nat) -> Seq<ChannelPlanModel>
    decreases n,
{
    if n == 0 {
        Seq::empty()
    } else {
        clip_channels(c, js, (n - 1) as nat) + joint_channels(c, js[n - 1], n - 1)
    }
}

/// The animations: one per clip that has a channel, with the clip's rate (30 when it is
/// not greater than zero).
pub open spec fn spec_anim_plans(clips: Seq<AnimClipModel>, js: Seq<JointModel>) -> Seq<AnimPlanModel>
    decreases clips.len(),
{
    if clips.len() == 0 {
        Seq::empty()
    } else {
        let rest = spec_anim_plans(clips.drop_last(), js);
        let c = clips.last();
        let chans = clip_channels(c, js, js.len());
        if chans.len() == 0 {
            rest
        } else {
            rest.push(AnimPlanModel { name: c.name, fps: if is_positive_bits(c.fps) { c.fps } else { DEFAULT_FPS }, channels: chans })
        }
    }
}

/// The keys whose frame lies in `lo..=hi`.
fn select_keys_in(ks: &Vec<KeyTuple>, lo: u32, hi: u32) -> (r: Vec<KeyTuple>)
    ensures
        r@ == keys_in(ks@, lo, hi),
{
    let mut r: Vec<KeyTuple> = Vec::new();
    let mut i: usize = 0;
    proof {
        reveal(Seq::filter);
    }
    while i < ks.len()
        invariant
            i <= ks@.len(),
            r@ == keys_in(ks@.subrange(0, i as int), lo, hi),
        decreases ks@.len() - i,
    {
        let k = ks[i];
        proof {
            reveal(Seq::filter);
            assert(ks@.subrange(0, i + 1).drop_last() =~= ks@.subrange(0, i as int));
        }
        if lo <= k.0 && k.0 <= hi {
            r.push(k);
        }
        i = i + 1;
    }
    assert(ks@.subrange(0, ks@.len() as int) =~= ks@);
    r
}

/// Which part of a key a channel reads.
enum KeyPart {
    Position,
    Scale,
    Rotation,
}

/// The keys whose `part` is not zero.
fn select_keys_with(ks: &Vec<KeyTuple>, part: KeyPart) -> (r: Vec<KeyTuple>)
    ensures
        r@ == match part {
            KeyPart::Position => position_keys(ks@),
            KeyPart::Scale => scale_keys(ks@),
            KeyPart::Rotation => rotation_keys(ks@),
        },
{
    let mut r: Vec<KeyTuple> = Vec::new();
    let mut i: usize = 0;
    proof {
        reveal(Seq::filter);
    }
    while i < ks.len()
        invariant
            i <= ks@.len(),
            r@ == match part {
                KeyPart::Position => position_keys(ks@.subrange(0, i as int)),
                KeyPart::Scale => scale_keys(ks@.subrange(0, i as int)),
                KeyPart::Rotation => rotation_keys(ks@.subrange(0, i as int)),
            },
        decreases ks@.len() - i,
    {
        let k = ks[i];
        proof {
            reveal(Seq::filter);
            assert(ks@.subrange(0, i + 1).drop_last() =~= ks@.subrange(0, i as int));
        }
        let keep = match part {
            KeyPart::Position => is_nonzero(k.1[0]) || is_nonzero(k.1[1]) || is_nonzero(k.1[2]),
            KeyPart::Scale => is_nonzero(k.2[0]) || is_nonzero(k.2[1]) || is_nonzero(k.2[2]),
            KeyPart::Rotation => is_nonzero(k.3[0]) || is_nonzero(k.3[1]) || is_nonzero(k.3[2]) || is_nonzero(k.3[3]),
        };
        if keep {
            r.push(k);
        }
        i = i + 1;
    }
    assert(ks@.subrange(0, ks@.len() as int) =~= ks@);
    r
}

/// The smallest frame bounds every frame from below, the largest from above.
proof fn lemma_frame_bounds(ks: Seq<KeyTuple>)
    requires
        ks.len() > 0,
    ensures
        forall|i: int| 0 <= i < ks.len() ==> min_frame(ks) <= #[trigger] ks[i].0 && ks[i].0 <= max_frame(ks),
    decreases ks.len(),
{
    if ks.len() > 1 {
        lemma_frame_bounds(ks.drop_last());
        assert forall|i: int| 0 <= i < ks.len() implies min_frame(ks) <= #[trigger] ks[i].0 && ks[i].0 <= max_frame(ks) by {
            if i < ks.len() - 1 {
                assert(ks.drop_last()[i] == ks[i]);
            }
        }
    }
}

/// A lower bound on the frames of a list holds on each part-filtered list.
proof fn lemma_part_frames_ge(ks: Seq<KeyTuple>, f: u32)
    requires
        forall|i: int| 0 <= i < ks.len() ==> f <= #[trigger] ks[i].0,
    ensures
        forall|i: int| 0 <= i < position_keys(ks).len() ==> f <= #[trigger] position_keys(ks)[i].0,
        forall|i: int| 0 <= i < scale_keys(ks).len() ==> f <= #[trigger] scale_keys(ks)[i].0,
        forall|i: int| 0 <= i < rotation_keys(ks).len() ==> f <= #[trigger] rotation_keys(ks)[i].0,
    decreases ks.len(),
{
    reveal(Seq::filter);
    if ks.len() > 0 {
        let d = ks.drop_last();
        assert forall|i: int| 0 <= i < d.len() implies f <= #[trigger] d[i].0 by {
            assert(d[i] == ks[i]);
        }
        lemma_part_frames_ge(d, f);
        assert(ks.last() == ks[ks.len() - 1]);
        let p1 = position_keys(ks);
        let s1 = position_keys(d);
        assert forall|i: int| 0 <= i < p1.len() implies f <= #[trigger] p1[i].0 by {
            if i < s1.len() {
                assert(p1[i] == s1[i]);
            }
        }
        let p2 = scale_keys(ks);
        let s2 = scale_keys(d);
        assert forall|i: int| 0 <= i < p2.len() implies f <= #[trigger] p2[i].0 by {
            if i < s2.len() {
                assert(p2[i] == s2[i]);
            }
        }
        let p3 = rotation_keys(ks);
        let s3 = rotation_keys(d);
        assert forall|i: int| 0 <= i < p3.len() implies f <= #[trigger] p3[i].0 by {
            if i < s3.len() {
                assert(p3[i] == s3[i]);
            }
        }
    }
}

/// The smallest and largest frame of a non-empty key list.
fn frame_bounds(ks: &Vec<KeyTuple>) -> (r: (u32, u32))
    requires
        ks@.len() > 0,
    ensures
        r == (min_frame(ks@), max_frame(ks@)),
{
    let mut lo = ks[0].0;
    let mut hi = ks[0].0;
    let mut i: usize = 1;
    while i < ks.len()
        invariant
            1 <= i <= ks@.len(),
            lo == min_frame(ks@.subrange(0, i as int)),
            hi == max_frame(ks@.subrange(0, i as int)),
        decreases ks@.len() - i,
    {
        proof {
            assert(ks@.subrange(0, i + 1).drop_last() =~= ks@.subrange(0, i as int));
        }
        let f = ks[i].0;
        if f < lo {
            lo = f;
        }
        if f > hi {
            hi = f;
        }
        i = i + 1;
    }
    assert(ks@.subrange(0, ks@.len() as int) =~= ks@);
    (lo, hi)
}

/// Each key's frame minus `first`.
fn offsets_from(ks: &Vec<KeyTuple>, first: u32) -> (r: Vec<u32>)
    requires
        forall|i: int| 0 <= i < ks@.len() ==> first <= #[trigger] ks@[i].0,
    ensures
        r@ == frame_offsets(ks@, first),
{
    let mut r: Vec<u32> = Vec::new();
    let mut i: usize = 0;
    while i < ks.len()
        invariant
            i <= ks@.len(),
            forall|i: int| 0 <= i < ks@.len() ==> first <= #[trigger] ks@[i].0,
            r@ =~= frame_offsets(ks@.subrange(0, i as int), first),
        decreases ks@.len() - i,
    {
        r.push(ks[i].0 - first);
        i = i + 1;
    }
    assert(ks@.subrange(0, ks@.len() as int) =~= ks@);
    r
}

/// Converts positions of a joint's keys to glTF.
fn key_positions(ks: &Vec<KeyTuple>, root: bool) -> (r: Vec<[u32; 3]>)
    ensures
        r@ == ks@.map_values(|k: KeyTuple| gltf_position(root, k.1)),
{
    let mut r: Vec<[u32; 3]> = Vec::new();
    let mut i: usize = 0;
    while i < ks.len()
        invariant
            i <= ks@.len(),
            r@ =~= ks@.subrange(0, i as int).map_values(|k: KeyTuple| gltf_position(root, k.1)),
        decreases ks@.len() - i,
    {
        let p = ks[i].1;
        r.push(if root { root_pos(p) } else { swap_yz_pos(p) });
        i = i + 1;
    }
    assert(ks@.subrange(0, ks@.len() as int) =~= ks@);
    r
}

/// The scales of a joint's keys.
fn key_scales(ks: &Vec<KeyTuple>) -> (r: Vec<[u32; 3]>)
    ensures
        r@ == ks@.map_values(|k: KeyTuple| k.2),
{
    let mut r: Vec<[u32; 3]> = Vec::new();
    let mut i: usize = 0;
    while i < ks.len()
        invariant
            i <= ks@.len(),
            r@ =~= ks@.subrange(0, i as int).map_values(|k: KeyTuple| k.2),
        decreases ks@.len() - i,
    {
        r.push(ks[i].2);
        i = i + 1;
    }
    assert(ks@.subrange(0, ks@.len() as int) =~= ks@);
    r
}

/// The rotations of a joint's keys, as B3D quaternions.
fn key_rotations(ks: &Vec<KeyTuple>) -> (r: Vec<[u32; 4]>)
    ensures
        r@ == ks@.map_values(|k: KeyTuple| k.3),
{
    let mut r: Vec<[u32; 4]> = Vec::new();
    let mut i: usize = 0;
    while i < ks.len()
        invariant
            i <= ks@.len(),
            r@ =~= ks@.subrange(0, i as int).map_values(|k: KeyTuple| k.3),
        decreases ks@.len() - i,
    {
        r.push(ks[i].3);
        i = i + 1;
    }
    assert(ks@.subrange(0, ks@.len() as int) =~= ks@);
    r
}

/// Non-root rotations converted to glTF.
fn gltf_rotations(qs: &Vec<[u32; 4]>) -> (r: Vec<[u32; 4]>)
    ensures
        r@ == qs@.map_values(|q: [u32; 4]| gltf_rotation(q)),
{
    let mut r: Vec<[u32; 4]> = Vec::new();
    let mut i: usize = 0;
    while i < qs.len()
        invariant
            i <= qs@.len(),
            r@ =~= qs@.subrange(0, i as int).map_values(|q: [u32; 4]| gltf_rotation(q)),
        decreases qs@.len() - i,
    {
        r.push(quat_to_gltf(swap_yz_quat(qs[i])));
        i = i + 1;
    }
    assert(qs@.subrange(0, qs@.len() as int) =~= qs@);
    r
}

/// The channels of joint `ji` in clip `c` (see `joint_channels`).
fn joint_channel_plans(c: &AnimClip, j: &JointInfo, ji: usize) -> (r: Vec<ChannelPlan>)
    ensures
        r@.map_values(|x: ChannelPlan| x@) == joint_channels(c@, j@, ji as int),
{
    let ks = select_keys_in(&j.keys, c.first_frame, c.last_frame);
    if ks.len() == 0 {
        let r: Vec<ChannelPlan> = Vec::new();
        assert(r@.map_values(|x: ChannelPlan| x@) =~= Seq::<ChannelPlanModel>::empty());
        return r;
    }
    let (first, last) = frame_bounds(&ks);
    proof {
        lemma_frame_bounds(ks@);
        lemma_part_frames_ge(ks@, first);
    }
    let root = j.parent.is_none();
    let node = ji as u32;

    let pk = select_keys_with(&ks, KeyPart::Position);
    let translation = if pk.len() == 0 {
        let p = if root { root_pos(j.position) } else { swap_yz_pos(j.position) };
        let mut v: Vec<[u32; 3]> = Vec::new();
        v.push(p);
        v.push(p);
        assert(p == gltf_position(root, j.position));
        assert(v@ =~= seq![p, p]);
        ChannelPlan { node, path: ChannelPath::Translation, times: SampleTimes::Endpoints(0, last - first), values: ChannelValues::Vec3s(v) }
    } else {
        ChannelPlan {
            node,
            path: ChannelPath::Translation,
            times: SampleTimes::Frames(offsets_from(&pk, first)),
            values: ChannelValues::Vec3s(key_positions(&pk, root)),
        }
    };
    proof {
        assert(translation@ == translation_channel(j@, ji as int, ks@, first, last));
    }

    let sk = select_keys_with(&ks, KeyPart::Scale);
    let scale = if sk.len() == 0 {
        let mut v: Vec<[u32; 3]> = Vec::new();
        v.push([F32_ONE, F32_ONE, F32_ONE]);
        v.push([F32_ONE, F32_ONE, F32_ONE]);
        assert(v@ =~= seq![[F32_ONE, F32_ONE, F32_ONE], [F32_ONE, F32_ONE, F32_ONE]]);
        ChannelPlan { node, path: ChannelPath::Scale, times: SampleTimes::Endpoints(0, last - first), values: ChannelValues::Vec3s(v) }
    } else {
        ChannelPlan {
            node,
            path: ChannelPath::Scale,
            times: SampleTimes::Frames(offsets_from(&sk, first)),
            values: ChannelValues::Vec3s(key_scales(&sk)),
        }
    };
    proof {
        assert(scale@ == scale_channel(ji as int, ks@, first, last));
    }

    let rk = select_keys_with(&ks, KeyPart::Rotation);
    let times = if rk.len() == 0 { SampleTimes::Endpoints(0, last - first) } else { SampleTimes::Frames(offsets_from(&rk, first)) };
    let qs = if rk.len() == 0 {
        let mut v: Vec<[u32; 4]> = Vec::new();
        v.push(j.rotation);
        v.push(j.rotation);
        v
    } else {
        key_rotations(&rk)
    };
    proof {
        if rk.len() == 0 {
            assert(qs@ =~= seq![j.rotation, j.rotation]);
        }
    }
    let values = if root { ChannelValues::RootQuats(qs) } else { ChannelValues::Quats(gltf_rotations(&qs)) };
    let rotation = ChannelPlan { node, path: ChannelPath::Rotation, times, values };
    proof {
        assert(rotation@ == rotation_channel(j@, ji as int, ks@, first, last));
    }

    let mut r: Vec<ChannelPlan> = Vec::new();
    r.push(translation);
    r.push(scale);
    r.push(rotation);
    proof {
        assert(r@.map_values(|x: ChannelPlan| x@) =~= joint_channels(c@, j@, ji as int));
    }
    r
}

/// Plans the glTF animations of the clips (see `spec_anim_plans`).
pub fn plan_animations(clips: &[AnimClip], joints: &[JointInfo]) -> (r: Vec<AnimPlan>)
    ensures
        r@.map_values(|a: AnimPlan| a@) == spec_anim_plans(clips@.map_values(|c: AnimClip| c@), joint_models(joints@)),
{
    let ghost cm = clips@.map_values(|c: AnimClip| c@);
    let ghost js = joint_models(joints@);
    let mut plans: Vec<AnimPlan> = Vec::new();
    let mut ci: usize = 0;
    while ci < clips.len()
        invariant
            ci <= clips@.len(),
            cm == clips@.map_values(|c: AnimClip| c@),
            js == joint_models(joints@),
            plans@.map_values(|a: AnimPlan| a@) == spec_anim_plans(cm.subrange(0, ci as int), js),
        decreases clips@.len() - ci,
    {
        let c = &clips[ci];
        let mut channels: Vec<ChannelPlan> = Vec::new();
        let mut ji: usize = 0;
        while ji < joints.len()
            invariant
                ji <= joints@.len(),
                js == joint_models(joints@),
                channels@.map_values(|x: ChannelPlan| x@) =~= clip_channels(c@, js, ji as nat),
            decreases joints@.len() - ji,
        {
            let ghost before = channels@.map_values(|x: ChannelPlan| x@);
            let mut more = joint_channel_plans(c, &joints[ji], ji);
            let ghost added = more@.map_values(|x: ChannelPlan| x@);
            channels.append(&mut more);
            proof {
                assert(js[ji as int] == joints@[ji as int]@);
                assert(channels@.map_values(|x: ChannelPlan| x@) =~= before + added);
            }
            ji = ji + 1;
        }
        proof {
            assert(cm.subrange(0, ci + 1).drop_last() =~= cm.subrange(0, ci as int));
            assert(cm.subrange(0, ci + 1).last() == c@);
        }
        if channels.len() > 0 {
            let fps = if is_positive(c.fps) { c.fps } else { DEFAULT_FPS };
            let ghost before = plans@.map_values(|a: AnimPlan| a@);
            let plan = AnimPlan { name: c.name.clone(), fps, channels };
            proof {
                assert(plan@.channels == clip_channels(c@, js, js.len()));
            }
            plans.push(plan);
            proof {
                assert(plans@.map_values(|a: AnimPlan| a@) =~= before.push(plan@));
            }
        }
        ci = ci + 1;
    }
    proof {
        assert(cm.subrange(0, cm.len() as int) =~= cm);
    }
    plans
}

/// A texture image that goes into the glTF file: its MIME type and its encoded bytes.
pub struct ImageInfo {
    pub mime: String,
    pub data: Vec<u8>,
}

/// `s` followed by the zero bytes that bring it to a multiple of four.
pub open spec fn padded(s: Seq<u8>) -> Seq<u8> {
    s + fill(0, pad_len(s.len()))
}

/// The buffer after embedding images: it is padded, then each image's bytes follow,
/// each padded in turn.
pub open spec fn embedded(bin: Seq<u8>, datas: Seq<Seq<u8>>) -> Seq<u8>
    decreases datas.len(),
{
    if datas.len() == 0 {
        padded(bin)
    } else {
        padded(embedded(bin, datas.drop_last()) + datas.last())
    }
}

/// The bytes of each image.
pub open spec fn image_datas(images: Seq<ImageInfo>) -> Seq<Seq<u8>> {
    images.map_values(|i: ImageInfo| i.data@)
}

/// Appends the images' bytes to the buffer, each starting at a multiple of four, and
/// returns for each image the offset and length of its bytes.
pub fn embed_images(bin: &mut Vec<u8>, images: &[ImageInfo]) -> (views: Vec<(usize, usize)>)
    ensures
        final(bin)@ == embedded(old(bin)@, image_datas(images@)),
        views@.len() == images@.len(),
        forall|k: int| 0 <= k < images@.len() ==> #[trigger] views@[k] == (
            embedded(old(bin)@, image_datas(images@).take(k)).len() as usize,
            images@[k].data@.len() as usize,
        ),
{
    let ghost start = bin@;
    let ghost ds = image_datas(images@);
    pad_to_4_in_place(bin);
    proof {
        assert(ds.take(0) =~= Seq::<Seq<u8>>::empty());
    }
    let mut views: Vec<(usize, usize)> = Vec::new();
    let mut k: usize = 0;
    while k < images.len()
        invariant
            k <= images@.len(),
            ds == image_datas(images@),
            bin@ == embedded(start, ds.take(k as int)),
            views@.len() == k,
            forall|j: int| 0 <= j < k ==> #[trigger] views@[j] == (
                embedded(start, ds.take(j)).len() as usize,
                images@[j].data@.len() as usize,
            ),
        decreases images@.len() - k,
    {
        let off = bin.len();
        let data = &images[k].data;
        let ghost before = bin@;
        let mut i: usize = 0;
        while i < data.len()
            invariant
                i <= data@.len(),
                bin@ == before + data@.subrange(0, i as int),
            decreases data@.len() - i,
        {
            bin.push(data[i]);
            proof {
                assert(data@.subrange(0, i + 1) =~= data@.subrange(0, i as int).push(data@[i as int]));
            }
            i = i + 1;
        }
        proof {
            assert(data@.subrange(0, data@.len() as int) =~= data@);
        }
        pad_to_4_in_place(bin);
        views.push((off, data.len()));
        proof {
            assert(ds.take(k + 1).drop_last() =~= ds.take(k as int));
            assert(ds.take(k + 1).last() == ds[k as int]);
            assert(ds[k as int] == images@[k as int].data@);
        }
        k = k + 1;
    }
    proof {
        assert(ds.take(images@.len() as int) =~= ds);
    }
    views
}


/// Embedding more images only appends: the buffer after the first `j` images is a prefix
/// of the buffer after all of them.
proof fn lemma_embedded_prefix(bin: Seq<u8>, ds: Seq<Seq<u8>>, j: int)
    requires
        0 <= j <= ds.len(),
    ensures
        embedded(bin, ds.take(j)).len() <= embedded(bin, ds).len(),
        embedded(bin, ds).subrange(0, embedded(bin, ds.take(j)).len() as int) == embedded(bin, ds.take(j)),
    decreases ds.len(),
{
    if j == ds.len() {
        assert(ds.take(j) =~= ds);
        assert(embedded(bin, ds).subrange(0, embedded(bin, ds).len() as int) =~= embedded(bin, ds));
    } else {
        let d = ds.drop_last();
        assert(d.take(j) =~= ds.take(j));
        lemma_embedded_prefix(bin, d, j);
        let e = embedded(bin, d);
        let p = embedded(bin, ds.take(j));
        assert(embedded(bin, ds) == padded(e + ds.last()));
        assert(embedded(bin, ds).subrange(0, p.len() as int) =~= e.subrange(0, p.len() as int));
    }
}

/// Embedded images read back: image `k` starts at a multiple of four at the offset that
/// `embed_images` reports for it, and the bytes there are exactly its own; the bytes that
/// were in the buffer before stay at its start.
pub proof fn lemma_embedded_images_read_back(bin: Seq<u8>, ds: Seq<Seq<u8>>, k: int)
    requires
        0 <= k < ds.len(),
    ensures
        ({
            let off = embedded(bin, ds.take(k)).len() as int;
            let all = embedded(bin, ds);
            &&& off % 4 == 0
            &&& off + ds[k].len() <= all.len()
            &&& all.subrange(off, off + ds[k].len()) == ds[k]
            &&& all.subrange(0, bin.len() as int) == bin
        }),
{
    let e = embedded(bin, ds.take(k));
    let off = e.len() as int;
    let all = embedded(bin, ds);
    lemma_embedded_prefix(bin, ds, k + 1);
    lemma_embedded_prefix(bin, ds, 0);
    assert(ds.take(k + 1).drop_last() =~= ds.take(k));
    assert(ds.take(k + 1).last() == ds[k]);
    let next = embedded(bin, ds.take(k + 1));
    assert(next == padded(e + ds[k]));
    assert(next.subrange(off, off + ds[k].len()) =~= ds[k]);
    assert(all.subrange(off, off + ds[k].len()) =~= next.subrange(off, off + ds[k].len()));
    // the buffer before embedding stays at the start
    assert(ds.take(0) =~= Seq::<Seq<u8>>::empty());
    let first = embedded(bin, ds.take(0));
    assert(first == padded(bin));
    assert(all.subrange(0, bin.len() as int) =~= first.subrange(0, bin.len() as int));
    assert(first.subrange(0, bin.len() as int) =~= bin);
    // offsets are multiples of four
    if k == 0 {
        lemma_pad_len(bin.len());
    } else {
        assert(ds.take(k).drop_last() =~= ds.take(k - 1));
        let prev = embedded(bin, ds.take(k - 1));
        assert(e == padded(prev + ds.take(k).last()));
        lemma_pad_len((prev + ds.take(k).last()).len());
    }
}

/// The index data of the triangle groups holds four bytes per index.
proof fn lemma_indices_bytes_len(gs: Seq<Seq<u32>>)
    ensures
        indices_bytes(gs).len() == 4 * index_total(gs),
    decreases gs.len(),
{
    if gs.len() > 0 {
        lemma_indices_bytes_len(gs.drop_last());
        lemma_le_words_len(gs.last());
    }
}

/// The index data of the first groups is a prefix of that of all groups.
proof fn lemma_indices_bytes_prefix(gs: Seq<Seq<u32>>, j: int)
    requires
        0 <= j <= gs.len(),
    ensures
        indices_bytes(gs.subrange(0, j)).len() <= indices_bytes(gs).len(),
        indices_bytes(gs).subrange(0, indices_bytes(gs.subrange(0, j)).len() as int) == indices_bytes(gs.subrange(0, j)),
    decreases gs.len(),
{
    if j == gs.len() {
        assert(gs.subrange(0, j) =~= gs);
        assert(indices_bytes(gs).subrange(0, indices_bytes(gs).len() as int) =~= indices_bytes(gs));
    } else {
        let d = gs.drop_last();
        assert(d.subrange(0, j) =~= gs.subrange(0, j));
        lemma_indices_bytes_prefix(d, j);
        let p = indices_bytes(gs.subrange(0, j));
        assert(indices_bytes(gs) == indices_bytes(d) + le_words(gs.last()));
        assert(indices_bytes(gs).subrange(0, p.len() as int) =~= indices_bytes(d).subrange(0, p.len() as int));
    }
}

/// Each index accessor points at its own group: the bytes of the index data at its
/// offset, four per counted index, are the group's indices, and the accessors together
/// cover the data (four bytes per index in all).
pub proof fn lemma_index_accessors_point_at_groups(gs: Seq<Seq<u32>>, k: int)
    requires
        4 * index_total(gs) <= u32::MAX,
        0 <= k < gs.len(),
    ensures
        ({
            let acc = spec_index_accessors(gs)[k];
            let data = indices_bytes(gs);
            &&& data.len() == 4 * index_total(gs)
            &&& acc.1 == gs[k].len()
            &&& acc.0 + 4 * acc.1 <= data.len()
            &&& data.subrange(acc.0 as int, acc.0 + 4 * acc.1) == le_words(gs[k])
        }),
{
    let data = indices_bytes(gs);
    lemma_indices_bytes_len(gs);
    lemma_indices_bytes_prefix(gs, k + 1);
    let pre = gs.subrange(0, k);
    let upto = gs.subrange(0, k + 1);
    assert(upto.drop_last() =~= pre);
    assert(upto.last() == gs[k]);
    lemma_indices_bytes_len(pre);
    lemma_indices_bytes_len(upto);
    lemma_le_words_len(gs[k]);
    lemma_index_total_mono(gs, k + 1);
    assert(index_total(upto) == index_total(pre) + gs[k].len());
    let acc = spec_index_accessors(gs)[k];
    assert(acc.0 == (4 * index_total(pre)) as u32);
    assert(gs[k].len() <= index_total(gs));
    assert(acc.1 == gs[k].len());
    let off: int = (4 * index_total(pre)) as int;
    let len: int = (4 * gs[k].len()) as int;
    assert(indices_bytes(upto) == indices_bytes(pre) + le_words(gs[k]));
    assert(data.subrange(off, off + len) =~= indices_bytes(upto).subrange(off, off + len));
    assert(indices_bytes(upto).subrange(off, off + len) =~= le_words(gs[k]));
}


/// The bufferView target of vertex attributes (`ARRAY_BUFFER`).
pub const TARGET_ARRAY: u32 = 34962;
/// The bufferView target of indices (`ELEMENT_ARRAY_BUFFER`).
pub const TARGET_ELEMENTS: u32 = 34963;
/// Accessor component type of floats.
pub const COMPONENT_FLOAT: u32 = 5126;
/// Accessor component type of 16-bit unsigned integers.
pub const COMPONENT_USHORT: u32 = 5123;
/// Accessor component type of 32-bit unsigned integers.
pub const COMPONENT_UINT: u32 = 5125;

/// A view into the glTF buffer. A zero `stride` means the view has none.
#[derive(Debug, Clone, Copy, PartialEq, Eq)]
pub struct BufferView {
    pub offset: usize,
    pub length: u32,
    pub stride: u32,
    pub target: u32,
}

/// The element shape of an accessor.
#[derive(Debug, Clone, Copy, PartialEq, Eq)]
pub enum AccessorType {
    Scalar,
    Vec2,
    Vec3,
    Vec4,
    Mat4,
}

/// A typed view of a buffer view's data.
#[derive(Debug, Clone, Copy, PartialEq, Eq)]
pub struct Accessor {
    pub buffer_view: u32,
    pub byte_offset: Option<u32>,
    pub component_type: u32,
    pub count: u32,
    pub kind: AccessorType,
    /// Per-axis minimum and maximum (bit patterns), for positions.
    pub bounds: Option<([u32; 3], [u32; 3])>,
}

/// The buffer views and accessors of the mesh data, and where the skinning and index
/// accessors are.
#[derive(Debug)]
pub struct MeshViews {
    pub views: Vec<BufferView>,
    pub accessors: Vec<Accessor>,
    pub joints_accessor: Option<u32>,
    pub weights_accessor: Option<u32>,
    pub first_index_accessor: u32,
}

/// An accessor without byte offset and bounds.
pub open spec fn plain_accessor(bv: u32, component_type: u32, count: u32, kind: AccessorType) -> Accessor {
    Accessor { buffer_view: bv, byte_offset: None, component_type, count, kind, bounds: None }
}

/// The layout has skinning data.
pub open spec fn layout_skinned(layout: VertexLayout) -> bool {
    layout.joints is Some && layout.weights is Some
}

/// The buffer views of the mesh data: positions, normals and texture coordinates (with
/// strides 12, 12 and 8), then joints and weights when skinned, then the indices. The
/// vertex count is taken as a `u32`.
pub open spec fn spec_mesh_buffer_views(vc: nat, layout: VertexLayout, gs: Seq<Seq<u32>>) -> Seq<BufferView> {
    let vc = (vc as u32) as nat;
    let base = seq![
        BufferView { offset: layout.positions, length: (vc * 12) as u32, stride: 12, target: TARGET_ARRAY },
        BufferView { offset: layout.normals, length: (vc * 12) as u32, stride: 12, target: TARGET_ARRAY },
        BufferView { offset: layout.uvs, length: (vc * 8) as u32, stride: 8, target: TARGET_ARRAY },
    ];
    let skin = if layout_skinned(layout) {
        seq![
            BufferView { offset: layout.joints->0, length: (vc * 8) as u32, stride: 0, target: TARGET_ARRAY },
            BufferView { offset: layout.weights->0, length: (vc * 16) as u32, stride: 0, target: TARGET_ARRAY },
        ]
    } else {
        Seq::empty()
    };
    base + skin + seq![
        BufferView { offset: layout.indices, length: (4 * index_total(gs)) as u32, stride: 0, target: TARGET_ELEMENTS },
    ]
}

/// The accessors of the mesh data: positions (with their bounds), normals, texture
/// coordinates, then joints and weights when skinned, then one index accessor per
/// triangle group at its byte offset in the index view.
pub open spec fn spec_mesh_accessors(vc: nat, layout: VertexLayout, gs: Seq<Seq<u32>>, bounds: ([u32; 3], [u32; 3])) -> Seq<Accessor> {
    let n = vc as u32;
    let idx_bv: u32 = if layout_skinned(layout) { 5 } else { 3 };
    let base = seq![
        Accessor { buffer_view: 0, byte_offset: None, component_type: COMPONENT_FLOAT, count: n, kind: AccessorType::Vec3, bounds: Some(bounds) },
        plain_accessor(1, COMPONENT_FLOAT, n, AccessorType::Vec3),
        plain_accessor(2, COMPONENT_FLOAT, n, AccessorType::Vec2),
    ];
    let skin = if layout_skinned(layout) {
        seq![
            plain_accessor(3, COMPONENT_USHORT, n, AccessorType::Vec4),
            plain_accessor(4, COMPONENT_FLOAT, n, AccessorType::Vec4),
        ]
    } else {
        Seq::empty()
    };
    let acc = spec_index_accessors(gs);
    base + skin + Seq::new(gs.len(), |i: int| Accessor {
        buffer_view: idx_bv,
        byte_offset: Some(acc[i].0),
        component_type: COMPONENT_UINT,
        count: acc[i].1,
        kind: AccessorType::Scalar,
        bounds: None,
    })
}

/// The buffer views and accessors of the mesh data (see `spec_mesh_buffer_views` and
/// `spec_mesh_accessors`), with the indices of the joints, weights and first index
/// accessors.
pub fn plan_mesh_views(mesh: &MeshData, layout: VertexLayout) -> (r: MeshViews)
    requires
        12 * (mesh.positions@.len() as u32) <= u32::MAX,
        layout_skinned(layout) ==> 16 * (mesh.positions@.len() as u32) <= u32::MAX,
        4 * index_total(group_indices(mesh.tri_groups@)) <= u32::MAX,
    ensures
        r.views@ == spec_mesh_buffer_views(mesh.positions@.len(), layout, group_indices(mesh.tri_groups@)),
        r.accessors@ == spec_mesh_accessors(
            mesh.positions@.len(),
            layout,
            group_indices(mesh.tri_groups@),
            spec_bounds(mesh.positions@),
        ),
        r.joints_accessor == (if layout_skinned(layout) { Some(3u32) } else { None }),
        r.weights_accessor == (if layout_skinned(layout) { Some(4u32) } else { None }),
        r.first_index_accessor == (if layout_skinned(layout) { 5u32 } else { 3u32 }),
{
    let ghost gs = group_indices(mesh.tri_groups@);
    let vc = mesh.positions.len() as u32;
    let mut views: Vec<BufferView> = Vec::new();
    views.push(BufferView { offset: layout.positions, length: vc * 12, stride: 12, target: TARGET_ARRAY });
    views.push(BufferView { offset: layout.normals, length: vc * 12, stride: 12, target: TARGET_ARRAY });
    views.push(BufferView { offset: layout.uvs, length: vc * 8, stride: 8, target: TARGET_ARRAY });
    let bounds = calc_bounds(mesh.positions.as_slice());
    let mut accessors: Vec<Accessor> = Vec::new();
    accessors.push(Accessor {
        buffer_view: 0,
        byte_offset: None,
        component_type: COMPONENT_FLOAT,
        count: vc,
        kind: AccessorType::Vec3,
        bounds: Some(bounds),
    });
    accessors.push(Accessor { buffer_view: 1, byte_offset: None, component_type: COMPONENT_FLOAT, count: vc, kind: AccessorType::Vec3, bounds: None });
    accessors.push(Accessor { buffer_view: 2, byte_offset: None, component_type: COMPONENT_FLOAT, count: vc, kind: AccessorType::Vec2, bounds: None });
    let mut joints_accessor: Option<u32> = None;
    let mut weights_accessor: Option<u32> = None;
    let ghost base_views = views@;
    let ghost base_accs = accessors@;
    match (layout.joints, layout.weights) {
        (Some(jo), Some(wo)) => {
            views.push(BufferView { offset: jo, length: vc * 8, stride: 0, target: TARGET_ARRAY });
            views.push(BufferView { offset: wo, length: vc * 16, stride: 0, target: TARGET_ARRAY });
            accessors.push(Accessor { buffer_view: 3, byte_offset: None, component_type: COMPONENT_USHORT, count: vc, kind: AccessorType::Vec4, bounds: None });
            accessors.push(Accessor { buffer_view: 4, byte_offset: None, component_type: COMPONENT_FLOAT, count: vc, kind: AccessorType::Vec4, bounds: None });
            joints_accessor = Some(3);
            weights_accessor = Some(4);
        },
        _ => {},
    }
    let (index_accs, total) = index_accessors(mesh.tri_groups.as_slice());
    let idx_bv = views.len() as u32;
    views.push(BufferView { offset: layout.indices, length: total * 4, stride: 0, target: TARGET_ELEMENTS });
    let first_index_accessor = accessors.len() as u32;
    let ghost pre_accs = accessors@;
    let mut i: usize = 0;
    while i < index_accs.len()
        invariant
            i <= index_accs@.len(),
            index_accs@ == spec_index_accessors(gs),
            gs == group_indices(mesh.tri_groups@),
            idx_bv == (if layout_skinned(layout) { 5u32 } else { 3u32 }),
            accessors@ =~= pre_accs + Seq::new(i as nat, |k: int| Accessor {
                buffer_view: idx_bv,
                byte_offset: Some(index_accs@[k].0),
                component_type: COMPONENT_UINT,
                count: index_accs@[k].1,
                kind: AccessorType::Scalar,
                bounds: None,
            }),
        decreases index_accs@.len() - i,
    {
        let (off, count) = index_accs[i];
        accessors.push(Accessor {
            buffer_view: idx_bv,
            byte_offset: Some(off),
            component_type: COMPONENT_UINT,
            count,
            kind: AccessorType::Scalar,
            bounds: None,
        });
        i = i + 1;
    }
    proof {
        assert(views@ =~= spec_mesh_buffer_views(mesh.positions@.len(), layout, gs));
        assert(accessors@ =~= spec_mesh_accessors(mesh.positions@.len(), layout, gs, spec_bounds(mesh.positions@)));
    }
    MeshViews { views, accessors, joints_accessor, weights_accessor, first_index_accessor }
}

/// A mesh primitive: its index accessor, its material, and the skinning accessors.
#[derive(Debug, Clone, Copy, PartialEq, Eq)]
pub struct Primitive {
    pub indices: u32,
    pub material: usize,
    pub joints: Option<u32>,
    pub weights: Option<u32>,
}

/// The primitive of triangle group `i`: index accessor `first_index + i`, the material
/// of its brush (0 when the map has none), and the skinning accessors when both exist.
pub open spec fn spec_primitive(
    tg: TriGroup,
    i: int,
    map: Map<u32, usize>,
    first_index: u32,
    joints: Option<u32>,
    weights: Option<u32>,
) -> Primitive {
    let both = joints is Some && weights is Some;
    Primitive {
        indices: (first_index + i) as u32,
        material: if map.contains_key(tg.brush_id) { map[tg.brush_id] } else { 0 },
        joints: if both { joints } else { None },
        weights: if both { weights } else { None },
    }
}

/// One primitive per triangle group (see `spec_primitive`).
pub fn plan_primitives(
    mesh: &MeshData,
    brush_map: &HashMap<u32, usize>,
    first_index: u32,
    joints: Option<u32>,
    weights: Option<u32>,
) -> (r: Vec<Primitive>)
    requires
        first_index + mesh.tri_groups@.len() <= u32::MAX,
    ensures
        r@.len() == mesh.tri_groups@.len(),
        forall|i: int| 0 <= i < r@.len() ==> #[trigger] r@[i] == spec_primitive(
            mesh.tri_groups@[i], i, brush_map@, first_index, joints, weights,
        ),
{
    let both = joints.is_some() && weights.is_some();
    let mut r: Vec<Primitive> = Vec::new();
    let mut i: usize = 0;
    while i < mesh.tri_groups.len()
        invariant
            i <= mesh.tri_groups@.len(),
            first_index + mesh.tri_groups@.len() <= u32::MAX,
            both == (joints is Some && weights is Some),
            r@.len() == i,
            forall|k: int| 0 <= k < i ==> #[trigger] r@[k] == spec_primitive(
                mesh.tri_groups@[k], k, brush_map@, first_index, joints, weights,
            ),
        decreases mesh.tri_groups@.len() - i,
    {
        let material = material_for(brush_map, mesh.tri_groups[i].brush_id);
        r.push(Primitive {
            indices: first_index + i as u32,
            material,
            joints: if both { joints } else { None },
            weights: if both { weights } else { None },
        });
        i = i + 1;
    }
    r
}


/// The number of samples of a channel.
pub open spec fn sample_count(t: SampleTimesModel) -> nat {
    match t {
        SampleTimesModel::Frames(v) => v.len(),
        SampleTimesModel::Endpoints(_, _) => 2,
    }
}

/// The byte size of one sample value: three floats for translations and scales, four
/// for rotations.
pub open spec fn element_size(v: ChannelValuesModel) -> nat {
    match v {
        ChannelValuesModel::Vec3s(_) => 12,
        _ => 16,
    }
}

/// The bytes a channel takes in the buffer: its times, then its values.
pub open spec fn channel_bytes(c: ChannelPlanModel) -> nat {
    sample_count(c.times) * (4 + element_size(c.values))
}

/// The bytes taken by a list of channels.
pub open spec fn channels_bytes(cs: Seq<ChannelPlanModel>) -> nat
    decreases cs.len(),
{
    if cs.len() == 0 { 0 } else { channels_bytes(cs.drop_last()) + channel_bytes(cs.last()) }
}

/// The channels of all animations, animation after animation.
pub open spec fn all_channels(plans: Seq<AnimPlanModel>) -> Seq<ChannelPlanModel>
    decreases plans.len(),
{
    if plans.len() == 0 { Seq::empty() } else { all_channels(plans.drop_last()) + plans.last().channels }
}

/// The channels of all animation plans, by their models.
pub open spec fn plan_channels(plans: Seq<AnimPlan>) -> Seq<ChannelPlanModel> {
    all_channels(plans.map_values(|a: AnimPlan| a@))
}

/// Where one channel's data lies and how its sampler and target read it.
#[derive(Debug, Clone, Copy, PartialEq, Eq)]
pub struct ChannelLayout {
    pub node: u32,
    pub path: ChannelPath,
    pub time_view: BufferView,
    pub value_view: BufferView,
    pub time_accessor: Accessor,
    pub value_accessor: Accessor,
    /// The sampler's input: the index of the time accessor.
    pub input: u32,
    /// The sampler's output: the index of the value accessor.
    pub output: u32,
}

/// The layout of channel `g` (counting over all animations) whose data starts at `off`:
/// its times (one float each), then its values; two buffer views and two accessors per
/// channel, numbered on from `first_view` and `first_accessor`.
pub open spec fn spec_channel_layout(c: ChannelPlanModel, g: int, off: int, first_view: u32, first_accessor: u32) -> ChannelLayout {
    let kc = sample_count(c.times);
    let es = element_size(c.values);
    ChannelLayout {
        node: c.node,
        path: c.path,
        time_view: BufferView { offset: off as usize, length: (4 * kc) as u32, stride: 0, target: TARGET_ARRAY },
        value_view: BufferView { offset: (off + 4 * kc) as usize, length: (es * kc) as u32, stride: es as u32, target: TARGET_ARRAY },
        time_accessor: plain_accessor((first_view + 2 * g) as u32, COMPONENT_FLOAT, kc as u32, AccessorType::Scalar),
        value_accessor: plain_accessor(
            (first_view + 2 * g + 1) as u32,
            COMPONENT_FLOAT,
            kc as u32,
            if es == 12 { AccessorType::Vec3 } else { AccessorType::Vec4 },
        ),
        input: (first_accessor + 2 * g) as u32,
        output: (first_accessor + 2 * g + 1) as u32,
    }
}

/// The number of samples of a channel.
fn sample_count_of(t: &SampleTimes) -> (n: usize)
    ensures
        n == sample_count(t@),
{
    match t {
        SampleTimes::Frames(v) => v.len(),
        SampleTimes::Endpoints(_, _) => 2,
    }
}

/// `channels_bytes` of a longer list adds the last channel's bytes.
proof fn lemma_channels_bytes_push(cs: Seq<ChannelPlanModel>, c: ChannelPlanModel)
    ensures
        channels_bytes(cs.push(c)) == channels_bytes(cs) + channel_bytes(c),
{
    assert(cs.push(c).drop_last() =~= cs);
}

/// A prefix of a channel list takes no more bytes than the list.
proof fn lemma_channels_bytes_prefix(cs: Seq<ChannelPlanModel>, g: int)
    requires
        0 <= g <= cs.len(),
    ensures
        channels_bytes(cs.take(g)) <= channels_bytes(cs),
    decreases cs.len() - g,
{
    if g < cs.len() {
        lemma_channels_bytes_prefix(cs, g + 1);
        assert(cs.take(g + 1) =~= cs.take(g).push(cs[g]));
        lemma_channels_bytes_push(cs.take(g), cs[g]);
    } else {
        assert(cs.take(g) =~= cs);
    }
}

/// The layout of every channel of the animations, in order (see `spec_channel_layout`):
/// the data of channel `g` starts at `start` plus the bytes of the channels before it.
/// The caller writes each channel's times and then its values, in this order, from
/// `start` on.
pub fn plan_animation_layout(plans: &[AnimPlan], start: usize, first_view: u32, first_accessor: u32) -> (r: Vec<ChannelLayout>)
    requires
        start + channels_bytes(plan_channels(plans@)) <= usize::MAX,
        first_view + 2 * plan_channels(plans@).len() <= u32::MAX,
        first_accessor + 2 * plan_channels(plans@).len() <= u32::MAX,
        forall|g: int| 0 <= g < plan_channels(plans@).len() ==>
            16 * sample_count(#[trigger] plan_channels(plans@)[g].times) <= u32::MAX,
    ensures
        r@.len() == plan_channels(plans@).len(),
        forall|g: int| 0 <= g < r@.len() ==> #[trigger] r@[g] == spec_channel_layout(
            plan_channels(plans@)[g],
            g,
            start + channels_bytes(plan_channels(plans@).take(g)),
            first_view,
            first_accessor,
        ),
{
    let ghost pm = plans@.map_values(|a: AnimPlan| a@);
    let ghost flat = all_channels(pm);
    let mut r: Vec<ChannelLayout> = Vec::new();
    let mut off: usize = start;
    let mut g: u32 = 0;
    let mut a: usize = 0;
    proof {
        assert(pm.take(0) =~= Seq::<AnimPlanModel>::empty());
        assert(flat.take(0) =~= Seq::<ChannelPlanModel>::empty());
    }
    while a < plans.len()
        invariant
            a <= plans@.len(),
            pm == plans@.map_values(|a: AnimPlan| a@),
            flat == all_channels(pm),
            start + channels_bytes(flat) <= usize::MAX,
            first_view + 2 * flat.len() <= u32::MAX,
            first_accessor + 2 * flat.len() <= u32::MAX,
            forall|h: int| 0 <= h < flat.len() ==> 16 * sample_count(#[trigger] flat[h].times) <= u32::MAX,
            g == all_channels(pm.take(a as int)).len(),
            all_channels(pm.take(a as int)) == flat.take(g as int),
            g <= flat.len(),
            off == start + channels_bytes(flat.take(g as int)),
            r@.len() == g,
            forall|h: int| 0 <= h < g ==> #[trigger] r@[h] == spec_channel_layout(
                flat[h], h, start + channels_bytes(flat.take(h)), first_view, first_accessor,
            ),
        decreases plans@.len() - a,
    {
        let chans = &plans[a].channels;
        let ghost cm = pm[a as int].channels;
        proof {
            assert(cm == chans@.map_values(|c: ChannelPlan| c@));
            assert(pm.take(a + 1).drop_last() =~= pm.take(a as int));
            assert(pm.take(a + 1).last() == pm[a as int]);
            assert(all_channels(pm.take(a + 1)) == flat.take(g as int) + cm);
            // the channels so far stay a prefix of all channels
            lemma_all_channels_prefix(pm, a + 1);
        }
        let ghost g0 = g;
        let mut c: usize = 0;
        while c < chans.len()
            invariant
                c <= chans@.len(),
                cm == chans@.map_values(|c: ChannelPlan| c@),
                flat == all_channels(pm),
                all_channels(pm.take(a + 1)) == flat.take(g0 as int) + cm,
                (g0 + cm.len()) <= flat.len(),
                flat.take(g0 + cm.len()) == flat.take(g0 as int) + cm,
                g == g0 + c,
                start + channels_bytes(flat) <= usize::MAX,
                first_view + 2 * flat.len() <= u32::MAX,
                first_accessor + 2 * flat.len() <= u32::MAX,
                forall|h: int| 0 <= h < flat.len() ==> 16 * sample_count(#[trigger] flat[h].times) <= u32::MAX,
                off == start + channels_bytes(flat.take(g as int)),
                r@.len() == g,
                forall|h: int| 0 <= h < g ==> #[trigger] r@[h] == spec_channel_layout(
                    flat[h], h, start + channels_bytes(flat.take(h)), first_view, first_accessor,
                ),
            decreases chans@.len() - c,
        {
            let ch = &chans[c];
            let ghost chm = cm[c as int];
            proof {
                assert(chm == ch@);
                assert(flat[g as int] == chm) by {
                    assert(flat.take(g0 + cm.len())[g as int] == cm[c as int]);
                }
                lemma_channels_bytes_prefix(flat, g + 1);
                assert(flat.take(g + 1) =~= flat.take(g as int).push(flat[g as int]));
                lemma_channels_bytes_push(flat.take(g as int), flat[g as int]);
            }
            let kc = sample_count_of(&ch.times);
            let (es, kind) = match &ch.values {
                ChannelValues::Vec3s(_) => (12u32, AccessorType::Vec3),
                _ => (16u32, AccessorType::Vec4),
            };
            proof {
                assert(es == element_size(chm.values));
                assert(16 * kc <= u32::MAX);
                assert(kc * (4 + es) == channel_bytes(chm)) by (nonlinear_arith)
                    requires
                        kc == sample_count(chm.times),
                        es == element_size(chm.values),
                        channel_bytes(chm) == sample_count(chm.times) * (4 + element_size(chm.values));
                assert(es * kc <= 16 * kc) by (nonlinear_arith)
                    requires
                        es <= 16;
                assert(4 * kc <= kc * (4 + es)) by (nonlinear_arith);
                assert(channels_bytes(flat.take(g + 1)) == channels_bytes(flat.take(g as int)) + channel_bytes(chm));
                assert(off + kc * (4 + es) <= start + channels_bytes(flat));
            }
            let kc32 = kc as u32;
            let time_view = BufferView { offset: off, length: 4 * kc32, stride: 0, target: TARGET_ARRAY };
            let value_view = BufferView { offset: off + 4 * kc, length: es * kc32, stride: es, target: TARGET_ARRAY };
            let time_accessor = Accessor {
                buffer_view: first_view + 2 * g,
                byte_offset: None,
                component_type: COMPONENT_FLOAT,
                count: kc32,
                kind: AccessorType::Scalar,
                bounds: None,
            };
            let value_accessor = Accessor {
                buffer_view: first_view + 2 * g + 1,
                byte_offset: None,
                component_type: COMPONENT_FLOAT,
                count: kc32,
                kind,
                bounds: None,
            };
            r.push(ChannelLayout {
                node: ch.node,
                path: ch.path,
                time_view,
                value_view,
                time_accessor,
                value_accessor,
                input: first_accessor + 2 * g,
                output: first_accessor + 2 * g + 1,
            });
            proof {
                assert(r@[g as int] == spec_channel_layout(flat[g as int], g as int, start + channels_bytes(flat.take(g as int)), first_view, first_accessor));
            }
            off = off + kc * (4 + es as usize);
            g = g + 1;
            c = c + 1;
        }
        proof {
            assert(cm.len() == chans@.len());
            assert(all_channels(pm.take(a + 1)) == flat.take(g as int));
        }
        a = a + 1;
    }
    proof {
        assert(pm.take(pm.len() as int) =~= pm);
        assert(flat.take(g as int) == flat);
        assert(g == flat.len());
    }
    r
}

/// The channels of the first animations are a prefix of all channels.
proof fn lemma_all_channels_prefix(pm: Seq<AnimPlanModel>, a: int)
    requires
        0 <= a <= pm.len(),
    ensures
        all_channels(pm.take(a)).len() <= all_channels(pm).len(),
        all_channels(pm).take(all_channels(pm.take(a)).len() as int) == all_channels(pm.take(a)),
    decreases pm.len() - a,
{
    if a == pm.len() {
        assert(pm.take(a) =~= pm);
        assert(all_channels(pm).take(all_channels(pm).len() as int) =~= all_channels(pm));
    } else {
        lemma_all_channels_prefix(pm, a + 1);
        assert(pm.take(a + 1).drop_last() =~= pm.take(a));
        let x = all_channels(pm.take(a));
        let y = all_channels(pm.take(a + 1));
        assert(y == x + pm[a].channels);
        assert(all_channels(pm).take(x.len() as int) =~= y.take(x.len() as int));
        assert(y.take(x.len() as int) =~= x);
    }
}


/// The alpha mode of a textured material: the texture's B3D hint when it gives one;
/// otherwise, from the image itself, Blend when some pixel is semi-transparent, Mask when
/// some pixel is transparent and none semi-transparent, and none when it is opaque (or
/// does not decode).
pub open spec fn spec_resolved_alpha_mode(hint: Option<AlphaMode>, png: Seq<u8>) -> Option<AlphaMode> {
    match hint {
        Some(m) => Some(m),
        None => if spec_has_alpha(png) {
            if spec_has_semi_transparent(png) { Some(AlphaMode::Blend) } else { Some(AlphaMode::Mask) }
        } else {
            None
        },
    }
}

/// The alpha mode of a textured material (see `spec_resolved_alpha_mode`).
pub fn resolve_alpha_mode(hint: Option<AlphaMode>, png: &[u8]) -> (r: Option<AlphaMode>)
    ensures
        r == spec_resolved_alpha_mode(hint, png@),
{
    match hint {
        Some(m) => Some(m),
        None => if png_has_alpha(png) {
            if png_has_semi_transparent(png) { Some(AlphaMode::Blend) } else { Some(AlphaMode::Mask) }
        } else {
            None
        },
    }
}

/// The skin's inverse bind matrices: where they lie and how they are read.
#[derive(Debug)]
pub struct SkinLayout {
    pub view: BufferView,
    pub accessor: Accessor,
    /// The skin's joints: every joint node, in order.
    pub joints: Vec<u32>,
}

/// The skin of `n` joints whose inverse bind matrices (64 bytes each) start at `offset`,
/// in buffer view `view_index`. The byte length and the joint count are taken as `u32`.
pub fn plan_skin(offset: usize, n: usize, view_index: u32) -> (r: SkinLayout)
    requires
        64 * n <= usize::MAX,
    ensures
        r.view == (BufferView { offset, length: (64 * n) as u32, stride: 0, target: TARGET_ARRAY }),
        r.accessor == plain_accessor(view_index, COMPONENT_FLOAT, n as u32, AccessorType::Mat4),
        r.joints@ == Seq::new((n as u32) as nat, |i: int| i as u32),
{
    let count = n as u32;
    let mut joints: Vec<u32> = Vec::new();
    let mut i: u32 = 0;
    while i < count
        invariant
            i <= count,
            joints@ =~= Seq::new(i as nat, |k: int| k as u32),
        decreases count - i,
    {
        joints.push(i);
        i = i + 1;
    }
    let length = (64 * n) as u32;
    SkinLayout {
        view: BufferView { offset, length, stride: 0, target: TARGET_ARRAY },
        accessor: Accessor {
            buffer_view: view_index,
            byte_offset: None,
            component_type: COMPONENT_FLOAT,
            count,
            kind: AccessorType::Mat4,
            bounds: None,
        },
        joints,
    }
}


/// Three-word vectors take twelve bytes each.
proof fn lemma_vec3_bytes_len(vs: Seq<[u32; 3]>)
    ensures
        vec3_bytes(vs).len() == 12 * vs.len(),
    decreases vs.len(),
{
    if vs.len() > 0 {
        lemma_vec3_bytes_len(vs.drop_last());
        lemma_le_bytes_roundtrip(vs.last()[0]);
        lemma_le_bytes_roundtrip(vs.last()[1]);
        lemma_le_bytes_roundtrip(vs.last()[2]);
    }
}

/// Two-word vectors take eight bytes each.
proof fn lemma_vec2_bytes_len(vs: Seq<[u32; 2]>)
    ensures
        vec2_bytes(vs).len() == 8 * vs.len(),
    decreases vs.len(),
{
    if vs.len() > 0 {
        lemma_vec2_bytes_len(vs.drop_last());
        lemma_le_bytes_roundtrip(vs.last()[0]);
        lemma_le_bytes_roundtrip(vs.last()[1]);
    }
}

/// JOINTS_0 data takes eight bytes per vertex.
proof fn lemma_joints_bytes_len(skin: Seq<Option<BoneWeight>>)
    ensures
        joints_bytes(skin).len() == 8 * skin.len(),
    decreases skin.len(),
{
    if skin.len() > 0 {
        lemma_joints_bytes_len(skin.drop_last());
    }
}

/// WEIGHTS_0 data takes sixteen bytes per vertex.
proof fn lemma_weights_bytes_len(skin: Seq<Option<BoneWeight>>)
    ensures
        weights_bytes(skin).len() == 16 * skin.len(),
    decreases skin.len(),
{
    if skin.len() > 0 {
        lemma_weights_bytes_len(skin.drop_last());
        lemma_le_bytes_roundtrip(weight_of_skin(skin.last()));
    }
}

/// The bytes of the buffer that a view covers.
pub open spec fn view_bytes(bin: Seq<u8>, v: BufferView) -> Seq<u8> {
    bin.subrange(v.offset as int, v.offset + v.length)
}

/// Law: the buffer views planned for the mesh data cover exactly the bytes of their
/// attribute in the vertex buffer: positions, normals, texture coordinates, joints and
/// weights when skinned, and the indices of all triangle groups. Here the buffer and the
/// layout are those that `build_vertex_buffer` returns for a mesh whose attribute lists
/// have one entry per vertex.
pub proof fn lemma_mesh_views_cover_data(m: MeshDataModel, gs: Seq<Seq<u32>>, layout: VertexLayout)
    requires
        m.normals.len() == m.positions.len(),
        m.uvs.len() == m.positions.len(),
        m.skin.len() == m.positions.len(),
        12 * m.positions.len() <= u32::MAX,
        layout_skinned(layout) ==> 16 * m.positions.len() <= u32::MAX,
        4 * index_total(gs) <= u32::MAX,
        layout.positions == 0,
        layout.normals == vec3_bytes(m.positions).len(),
        layout.uvs == layout.normals + vec3_bytes(m.normals).len(),
        layout_skinned(layout) ==> layout.joints == Some((layout.uvs + vec2_bytes(m.uvs).len()) as usize),
        layout_skinned(layout) ==> layout.weights == Some((layout.uvs + vec2_bytes(m.uvs).len() + joints_bytes(m.skin).len()) as usize),
        layout.indices == (if layout_skinned(layout) {
            layout.uvs + vec2_bytes(m.uvs).len() + joints_bytes(m.skin).len() + weights_bytes(m.skin).len()
        } else {
            layout.uvs + vec2_bytes(m.uvs).len()
        }),
    ensures
        ({
            let bin = vertex_buffer_bytes(m, gs, layout_skinned(layout));
            let vs = spec_mesh_buffer_views(m.positions.len(), layout, gs);
            &&& view_bytes(bin, vs[0]) == vec3_bytes(m.positions)
            &&& view_bytes(bin, vs[1]) == vec3_bytes(m.normals)
            &&& view_bytes(bin, vs[2]) == vec2_bytes(m.uvs)
            &&& layout_skinned(layout) ==> view_bytes(bin, vs[3]) == joints_bytes(m.skin)
            &&& layout_skinned(layout) ==> view_bytes(bin, vs[4]) == weights_bytes(m.skin)
            &&& view_bytes(bin, vs[vs.len() - 1]) == indices_bytes(gs)
        }),
{
    let vc = m.positions.len();
    let skinned = layout_skinned(layout);
    lemma_vec3_bytes_len(m.positions);
    lemma_vec3_bytes_len(m.normals);
    lemma_vec2_bytes_len(m.uvs);
    lemma_joints_bytes_len(m.skin);
    lemma_weights_bytes_len(m.skin);
    lemma_indices_bytes_len(gs);
    let p = vec3_bytes(m.positions);
    let n = vec3_bytes(m.normals);
    let u = vec2_bytes(m.uvs);
    let j = joints_bytes(m.skin);
    let w = weights_bytes(m.skin);
    let ix = indices_bytes(gs);
    let sk = if skinned { j + w } else { Seq::empty() };
    let b = p + n + u + sk + ix;
    let bin = vertex_buffer_bytes(m, gs, skinned);
    assert(bin == b + fill(0, pad_len(b.len())));
    let vs = spec_mesh_buffer_views(vc, layout, gs);
    assert((vc as u32) as nat == vc);
    assert(view_bytes(bin, vs[0]) =~= p);
    assert(view_bytes(bin, vs[1]) =~= n);
    assert(view_bytes(bin, vs[2]) =~= u);
    if skinned {
        assert(view_bytes(bin, vs[3]) =~= j);
        assert(view_bytes(bin, vs[4]) =~= w);
        assert(vs.len() == 6);
    } else {
        assert(vs.len() == 4);
    }
    assert(view_bytes(bin, vs[vs.len() - 1]) =~= ix);
}


/// Law: every channel of a joint in a clip starts at time 0, the joint's first keyframe
/// there: keyed channels at their first key's offset from it (0 for the earliest), and a
/// channel without keys at exactly 0. A channel without keys holds the joint's bind pose
/// at both ends: the translation and rotation of the joint's own node, and scale 1.
pub proof fn lemma_keyless_channels_hold_bind_pose(c: AnimClipModel, js: Seq<JointModel>, ji: int)
    requires
        0 <= ji < js.len(),
        keys_in(js[ji].keys, c.first_frame, c.last_frame).len() > 0,
    ensures
        ({
            let j = js[ji];
            let ks = keys_in(j.keys, c.first_frame, c.last_frame);
            let chans = joint_channels(c, j, ji);
            let node = bone_node(js, ji);
            &&& chans.len() == 3
            &&& forall|k: int| 0 <= k < 3 ==> match (#[trigger] chans[k]).times {
                SampleTimesModel::Endpoints(a, _) => a == 0,
                SampleTimesModel::Frames(fs) => fs.len() > 0,
            }
            &&& exists|k: int| 0 <= k < ks.len() && ks[k].0 == min_frame(ks)
            &&& position_keys(ks).len() == 0 ==> chans[0].values == ChannelValuesModel::Vec3s(
                seq![node.translation->0, node.translation->0],
            )
            &&& scale_keys(ks).len() == 0 ==> chans[1].values == ChannelValuesModel::Vec3s(
                seq![[F32_ONE, F32_ONE, F32_ONE], [F32_ONE, F32_ONE, F32_ONE]],
            )
            &&& rotation_keys(ks).len() == 0 && j.parent is None ==> chans[2].values == ChannelValuesModel::RootQuats(
                seq![j.rotation, j.rotation],
            ) && node.rotation == Some(NodeRotation::RootOf(j.rotation))
            &&& rotation_keys(ks).len() == 0 && j.parent is Some ==> (chans[2].values matches ChannelValuesModel::Quats(qs)
                && qs == seq![qs[0], qs[0]] && node.rotation == Some(NodeRotation::Gltf(qs[0])))
        }),
{
    let j = js[ji];
    let ks = keys_in(j.keys, c.first_frame, c.last_frame);
    lemma_min_frame_attained(ks);
    let chans = joint_channels(c, j, ji);
    let rk = rotation_keys(ks);
    if rk.len() == 0 && j.parent is Some {
        let qs = seq![j.rotation, j.rotation].map_values(|q: [u32; 4]| gltf_rotation(q));
        assert(qs == seq![qs[0], qs[0]]);
    }
}

/// A keyed joint's translation samples are its position keys in glTF space, in order:
/// for a joint with a parent each key position `[x, y, z]` becomes `[x, z, y]` (Y and Z
/// swapped, as in its bind-pose node translation); for a root joint it becomes
/// `[x, y, -z]`. Each sample's time is the key's frame less the first frame the joint's
/// keys span in the clip.
pub proof fn lemma_keyed_translations_in_gltf_space(c: AnimClipModel, j: JointModel, ji: int)
    requires
        position_keys(keys_in(j.keys, c.first_frame, c.last_frame)).len() > 0,
    ensures
        ({
            let ks = keys_in(j.keys, c.first_frame, c.last_frame);
            let pk = position_keys(ks);
            let chans = joint_channels(c, j, ji);
            &&& chans.len() == 3
            &&& chans[0].node == ji as u32
            &&& chans[0].path == ChannelPath::Translation
            &&& chans[0].values matches ChannelValuesModel::Vec3s(vs) && vs.len() == pk.len()
                && (forall|i: int| 0 <= i < pk.len() && j.parent is Some
                    ==> #[trigger] vs[i] == [pk[i].1[0], pk[i].1[2], pk[i].1[1]])
                && (forall|i: int| 0 <= i < pk.len() && j.parent is None
                    ==> #[trigger] vs[i] == [pk[i].1[0], pk[i].1[1], neg_bits(pk[i].1[2])])
            &&& chans[0].times matches SampleTimesModel::Frames(fs) && fs.len() == pk.len()
                && forall|i: int| 0 <= i < pk.len() ==> #[trigger] fs[i] == (pk[i].0 - min_frame(ks)) as u32
        }),
{
    let ks = keys_in(j.keys, c.first_frame, c.last_frame);
    if ks.len() == 0 {
        reveal(Seq::filter);
        assert(position_keys(ks).len() == 0);
    }
}

/// A keyed joint's scale samples are its scale keys as stored, and its rotation samples
/// are its rotation keys: for a joint with a parent each B3D quaternion `[w, x, y, z]`
/// becomes the glTF `[x, z, y, w]`; for a root joint the quaternions are handed on as
/// stored for the float correction. Sample times count from the first keyed frame.
pub proof fn lemma_keyed_scales_and_rotations(c: AnimClipModel, j: JointModel, ji: int)
    requires
        keys_in(j.keys, c.first_frame, c.last_frame).len() > 0,
    ensures
        ({
            let ks = keys_in(j.keys, c.first_frame, c.last_frame);
            let sk = scale_keys(ks);
            let rk = rotation_keys(ks);
            let chans = joint_channels(c, j, ji);
            &&& chans.len() == 3
            &&& chans[1].node == ji as u32 && chans[1].path == ChannelPath::Scale
            &&& chans[2].node == ji as u32 && chans[2].path == ChannelPath::Rotation
            &&& sk.len() > 0 ==> (chans[1].values matches ChannelValuesModel::Vec3s(vs) && vs.len() == sk.len()
                && forall|i: int| 0 <= i < sk.len() ==> #[trigger] vs[i] == sk[i].2)
            &&& sk.len() > 0 ==> (chans[1].times matches SampleTimesModel::Frames(fs) && fs.len() == sk.len()
                && forall|i: int| 0 <= i < sk.len() ==> #[trigger] fs[i] == (sk[i].0 - min_frame(ks)) as u32)
            &&& rk.len() > 0 && j.parent is Some ==> (chans[2].values matches ChannelValuesModel::Quats(qs)
                && qs.len() == rk.len()
                && forall|i: int| 0 <= i < rk.len() ==> #[trigger] qs[i] == [rk[i].3[1], rk[i].3[3], rk[i].3[2], rk[i].3[0]])
            &&& rk.len() > 0 && j.parent is None ==> (chans[2].values matches ChannelValuesModel::RootQuats(qs)
                && qs.len() == rk.len()
                && forall|i: int| 0 <= i < rk.len() ==> #[trigger] qs[i] == rk[i].3)
            &&& rk.len() > 0 ==> (chans[2].times matches SampleTimesModel::Frames(fs) && fs.len() == rk.len()
                && forall|i: int| 0 <= i < rk.len() ==> #[trigger] fs[i] == (rk[i].0 - min_frame(ks)) as u32)
        }),
{
}

/// The smallest frame of a non-empty key list is the frame of one of its keys.
proof fn lemma_min_frame_attained(ks: Seq<KeyTuple>)
    requires
        ks.len() > 0,
    ensures
        exists|k: int| 0 <= k < ks.len() && ks[k].0 == min_frame(ks),
    decreases ks.len(),
{
    if ks.len() > 1 {
        lemma_min_frame_attained(ks.drop_last());
        let d = ks.drop_last();
        let k0 = choose|k: int| 0 <= k < d.len() && d[k].0 == min_frame(d);
        if ks.last().0 < min_frame(d) {
            assert(ks[ks.len() - 1].0 == min_frame(ks));
        } else {
            assert(ks[k0].0 == min_frame(ks));
        }
    } else {
        assert(ks[0].0 == min_frame(ks));
    }
}


/// The float 0.8 as a bit pattern.
pub const F32_GREY: u32 = 0x3F4C_CCCD;

/// A glTF material: base color factor (bit patterns), the index of its base color
/// texture, metallic and roughness factors (bit patterns), and its alpha mode.
#[derive(Debug, Clone, Copy, PartialEq, Eq)]
pub struct MaterialModel {
    pub base_color: [u32; 4],
    pub texture: Option<usize>,
    pub metallic: u32,
    pub roughness: u32,
    pub alpha: Option<AlphaMode>,
}

/// Opaque white.
pub open spec fn white() -> [u32; 4] {
    [F32_ONE, F32_ONE, F32_ONE, F32_ONE]
}

/// The metallic factor: the one given, else 0.
pub open spec fn metallic_of(params: Option<(u32, u32)>) -> u32 {
    match params {
        Some((m, _)) => m,
        None => 0,
    }
}

/// The roughness factor: the one given, else 1.
pub open spec fn roughness_of(params: Option<(u32, u32)>) -> u32 {
    match params {
        Some((_, r)) => r,
        None => F32_ONE,
    }
}

/// Plan `i` has a texture that loaded.
pub open spec fn loaded_texture(plans: Seq<MaterialPlan>, loaded: Seq<Option<Option<AlphaMode>>>, i: int) -> bool {
    plans[i].texture is Some && loaded[i] is Some
}

/// The number of plans below `i` whose texture loaded: the index of the next image.
pub open spec fn loads_before(plans: Seq<MaterialPlan>, loaded: Seq<Option<Option<AlphaMode>>>, i: int) -> nat
    decreases i,
{
    if i <= 0 {
        0
    } else {
        loads_before(plans, loaded, i - 1) + (if loaded_texture(plans, loaded, i - 1) { 1nat } else { 0nat })
    }
}

/// The material of plan `i`. A plan without texture has the override color, else the
/// brush color; a plan whose texture loaded is white with that image (numbered in load
/// order) and the alpha mode found for it; a plan whose texture did not load is white
/// with no texture and the alpha mode of the texture's hints.
pub open spec fn plan_material(
    plans: Seq<MaterialPlan>,
    loaded: Seq<Option<Option<AlphaMode>>>,
    i: int,
    params: Option<(u32, u32)>,
    color_override: Option<[u32; 4]>,
) -> MaterialModel {
    let p = plans[i];
    let base_color = if p.texture is None {
        match color_override {
            Some(c) => c,
            None => p.color,
        }
    } else {
        white()
    };
    MaterialModel {
        base_color,
        texture: if loaded_texture(plans, loaded, i) { Some(loads_before(plans, loaded, i) as usize) } else { None },
        metallic: metallic_of(params),
        roughness: roughness_of(params),
        alpha: if loaded_texture(plans, loaded, i) { loaded[i]->0 } else { p.alpha_mode },
    }
}

/// A material given the model-named texture as image 0: white, textured, and Mask when
/// that image has transparent pixels.
pub open spec fn with_model_texture(m: MaterialModel, has_alpha: bool) -> MaterialModel {
    MaterialModel {
        base_color: white(),
        texture: Some(0usize),
        alpha: if has_alpha { Some(AlphaMode::Mask) } else { m.alpha },
        ..m
    }
}

/// The number of images the materials use: one per loaded texture; else one for the
/// model-named texture, when it loaded and there are materials.
pub open spec fn spec_image_count(
    plans: Seq<MaterialPlan>,
    loaded: Seq<Option<Option<AlphaMode>>>,
    model_texture: Option<bool>,
) -> nat {
    let n = loads_before(plans, loaded, plans.len() as int);
    if n == 0 && plans.len() > 0 && model_texture is Some { 1 } else { n }
}

/// The materials: one per plan (see `plan_material`); when no plan's texture loaded and
/// the model-named texture did (`model_texture` says whether it has transparent pixels),
/// every material uses it instead (see `with_model_texture`); with no plans, a single
/// material of the override color, else grey 0.8.
pub open spec fn spec_materials(
    plans: Seq<MaterialPlan>,
    loaded: Seq<Option<Option<AlphaMode>>>,
    model_texture: Option<bool>,
    params: Option<(u32, u32)>,
    color_override: Option<[u32; 4]>,
) -> Seq<MaterialModel> {
    if plans.len() == 0 {
        seq![MaterialModel {
            base_color: match color_override {
                Some(c) => c,
                None => [F32_GREY, F32_GREY, F32_GREY, F32_ONE],
            },
            texture: None,
            metallic: metallic_of(params),
            roughness: roughness_of(params),
            alpha: None,
        }]
    } else {
        let base = Seq::new(plans.len(), |i: int| plan_material(plans, loaded, i, params, color_override));
        match model_texture {
            Some(a) => if loads_before(plans, loaded, plans.len() as int) == 0 {
                base.map_values(|m: MaterialModel| with_model_texture(m, a))
            } else {
                base
            },
            None => base,
        }
    }
}

/// Decides the materials and the number of images they use (see `spec_materials` and
/// `spec_image_count`). `loaded[i]` tells, for a plan with a texture, whether the texture
/// loaded and, if so, the alpha mode found for it (see `resolve_alpha_mode`); for a plan
/// without a texture it is not looked at. `model_texture` tells whether the model-named
/// texture loaded and whether it has transparent pixels. Metallic and roughness come from
/// `params`, colors are bit patterns.
pub fn decide_materials(
    plans: &[MaterialPlan],
    loaded: &[Option<Option<AlphaMode>>],
    model_texture: Option<bool>,
    params: Option<(u32, u32)>,
    color_override: Option<[u32; 4]>,
) -> (r: (Vec<MaterialModel>, usize))
    requires
        loaded@.len() == plans@.len(),
    ensures
        r.0@ == spec_materials(plans@, loaded@, model_texture, params, color_override),
        r.1 == spec_image_count(plans@, loaded@, model_texture),
{
    let metallic = match params {
        Some((m, _)) => m,
        None => 0,
    };
    let roughness = match params {
        Some((_, r)) => r,
        None => F32_ONE,
    };
    let mut mats: Vec<MaterialModel> = Vec::new();
    if plans.len() == 0 {
        let base_color = match color_override {
            Some(c) => c,
            None => [F32_GREY, F32_GREY, F32_GREY, F32_ONE],
        };
        mats.push(MaterialModel { base_color, texture: None, metallic, roughness, alpha: None });
        proof {
            assert(mats@ =~= spec_materials(plans@, loaded@, model_texture, params, color_override));
        }
        return (mats, 0);
    }
    let mut n: usize = 0;
    let mut i: usize = 0;
    while i < plans.len()
        invariant
            i <= plans@.len(),
            loaded@.len() == plans@.len(),
            metallic == metallic_of(params),
            roughness == roughness_of(params),
            n == loads_before(plans@, loaded@, i as int),
            n <= i,
            mats@ =~= Seq::new(i as nat, |k: int| plan_material(plans@, loaded@, k, params, color_override)),
        decreases plans@.len() - i,
    {
        let p = plans[i];
        let base_color = match p.texture {
            None => match color_override {
                Some(c) => c,
                None => p.color,
            },
            Some(_) => [F32_ONE, F32_ONE, F32_ONE, F32_ONE],
        };
        let is_loaded = p.texture.is_some() && loaded[i].is_some();
        let texture = if is_loaded { Some(n) } else { None };
        let alpha = if is_loaded {
            match loaded[i] {
                Some(a) => a,
                None => p.alpha_mode,
            }
        } else {
            p.alpha_mode
        };
        mats.push(MaterialModel { base_color, texture, metallic, roughness, alpha });
        proof {
            assert(base_color == plan_material(plans@, loaded@, i as int, params, color_override).base_color) by {
                if p.texture is Some {
                    assert(base_color =~= white());
                }
            }
        }
        if is_loaded {
            n = n + 1;
        }
        i = i + 1;
    }
    let mut count = n;
    if n == 0 {
        match model_texture {
            Some(a) => {
                let ghost base = mats@;
                let mut k: usize = 0;
                while k < mats.len()
                    invariant
                        k <= mats@.len(),
                        mats@.len() == base.len(),
                        forall|t: int| 0 <= t < k ==> #[trigger] mats@[t] == with_model_texture(base[t], a),
                        forall|t: int| k <= t < mats@.len() ==> #[trigger] mats@[t] == base[t],
                    decreases mats@.len() - k,
                {
                    let m = mats[k];
                    let alpha = if a { Some(AlphaMode::Mask) } else { m.alpha };
                    let nm = MaterialModel {
                        base_color: [F32_ONE, F32_ONE, F32_ONE, F32_ONE],
                        texture: Some(0),
                        metallic: m.metallic,
                        roughness: m.roughness,
                        alpha,
                    };
                    proof {
                        assert(nm == with_model_texture(base[k as int], a)) by {
                            assert(nm.base_color =~= white());
                        }
                    }
                    mats.set(k, nm);
                    k = k + 1;
                }
                proof {
                    assert(mats@ =~= base.map_values(|m: MaterialModel| with_model_texture(m, a)));
                }
                count = 1;
            },
            None => {},
        }
    }
    (mats, count)
}


/// The float with bit pattern `x` is not a NaN.
pub open spec fn not_nan_bits(x: u32) -> bool {
    x % 0x8000_0000 <= 0x7F80_0000
}

/// The float with bit pattern `x` is finite.
pub open spec fn finite_bits(x: u32) -> bool {
    x % 0x8000_0000 < 0x7F80_0000
}

/// `<` on floats without NaNs is transitive and irreflexive.
proof fn lemma_f32_lt_order(a: u32, b: u32, c: u32)
    requires
        not_nan_bits(a),
        not_nan_bits(b),
        not_nan_bits(c),
    ensures
        f32_lt(a, b) && f32_lt(b, c) ==> f32_lt(a, c),
        !f32_lt(a, a),
{
}

/// The running bounds along axis `a`, for any list without NaNs: no coordinate lies
/// below the minimum or above the maximum, and each bound is its start value or a
/// coordinate.
proof fn lemma_bounds_axis(ps: Seq<[u32; 3]>, a: int)
    requires
        0 <= a < 3,
        forall|i: int| 0 <= i < ps.len() ==> not_nan_bits(#[trigger] ps[i][a]),
    ensures
        ({
            let (lo, hi) = spec_bounds(ps);
            &&& not_nan_bits(lo[a]) && not_nan_bits(hi[a])
            &&& forall|i: int| 0 <= i < ps.len() ==> !f32_lt(#[trigger] ps[i][a], lo[a]) && !f32_lt(hi[a], ps[i][a])
            &&& lo[a] == F32_MAX || exists|i: int| 0 <= i < ps.len() && lo[a] == ps[i][a]
            &&& hi[a] == F32_MIN || exists|i: int| 0 <= i < ps.len() && hi[a] == ps[i][a]
        }),
    decreases ps.len(),
{
    if ps.len() > 0 {
        let d = ps.drop_last();
        assert forall|i: int| 0 <= i < d.len() implies not_nan_bits(#[trigger] d[i][a]) by {
            assert(d[i] == ps[i]);
        }
        lemma_bounds_axis(d, a);
        let (lo0, hi0) = spec_bounds(d);
        let (lo, hi) = spec_bounds(ps);
        let x = ps.last()[a];
        assert(lo[a] == (if f32_lt(x, lo0[a]) { x } else { lo0[a] }));
        assert(hi[a] == (if f32_lt(hi0[a], x) { x } else { hi0[a] }));
        assert forall|i: int| 0 <= i < ps.len() implies !f32_lt(#[trigger] ps[i][a], lo[a]) && !f32_lt(hi[a], ps[i][a]) by {
            let y = ps[i][a];
            lemma_f32_lt_order(y, x, lo0[a]);
            lemma_f32_lt_order(hi0[a], x, y);
            if i < d.len() {
                assert(d[i] == ps[i]);
            }
        }
        if lo[a] != F32_MAX {
            if lo[a] == x {
                assert(lo[a] == ps[ps.len() - 1][a]);
            } else {
                let j = choose|j: int| 0 <= j < d.len() && lo0[a] == d[j][a];
                assert(d[j] == ps[j]);
            }
        }
        if hi[a] != F32_MIN {
            if hi[a] == x {
                assert(hi[a] == ps[ps.len() - 1][a]);
            } else {
                let j = choose|j: int| 0 <= j < d.len() && hi0[a] == d[j][a];
                assert(d[j] == ps[j]);
            }
        }
    }
}

/// Law: on positions without NaNs, `calc_bounds` gives per axis a minimum below which no
/// coordinate lies and a maximum above which none lies; when the positions are finite
/// and there is at least one, each bound is one of the coordinates.
pub proof fn lemma_bounds_are_extremes(ps: Seq<[u32; 3]>, a: int)
    requires
        0 <= a < 3,
        forall|i: int| 0 <= i < ps.len() ==> not_nan_bits(#[trigger] ps[i][a]),
    ensures
        ({
            let (lo, hi) = spec_bounds(ps);
            &&& forall|i: int| 0 <= i < ps.len() ==> !f32_lt(#[trigger] ps[i][a], lo[a]) && !f32_lt(hi[a], ps[i][a])
            &&& ps.len() > 0 && (forall|i: int| 0 <= i < ps.len() ==> finite_bits(#[trigger] ps[i][a])) ==> {
                &&& exists|i: int| 0 <= i < ps.len() && lo[a] == ps[i][a]
                &&& exists|i: int| 0 <= i < ps.len() && hi[a] == ps[i][a]
            }
        }),
{
    lemma_bounds_axis(ps, a);
    let (lo, hi) = spec_bounds(ps);
    if ps.len() > 0 && (forall|i: int| 0 <= i < ps.len() ==> finite_bits(#[trigger] ps[i][a])) {
        let y = ps[0][a];
        assert(finite_bits(y));
        if lo[a] == F32_MAX {
            assert(!f32_lt(y, lo[a]));
            assert(y == F32_MAX);
        }
        if hi[a] == F32_MIN {
            assert(!f32_lt(hi[a], y));
            assert(y == F32_MIN);
        }
    }
}


/// What a model is made of for glTF: its joints, its mesh with skinning, and its clips.
#[derive(Debug)]
pub struct ModelParts {
    pub joints: Vec<JointInfo>,
    pub mesh: MeshData,
    pub clips: Vec<AnimClip>,
}

/// The joints and vertex-to-joint map that `collect_joints` gathers from the mesh node of
/// a file whose mesh has `vc` vertices, starting with no vertex assigned.
pub open spec fn model_walk(b: crate::b3d_format::B3DModel, vc: nat) -> crate::b3d::WalkState {
    walk(b.node, None, (Seq::empty(), Seq::new(vc, |i: int| None::<(usize, u32)>)), vc, true)
}

/// The parts of a parsed file: none when its mesh has no vertices; otherwise the joints
/// of `collect_joints` on the mesh node, the mesh of `collect_mesh` with each vertex's
/// joint and weight as its skinning entry, and the clips of `collect_anims`. Normals
/// that the file does not store are not computed here (see `normals_missing`).
pub fn extract_model(b3d: &B3D) -> (r: Option<ModelParts>)
    ensures
        r is None <==> b3d@.node.mesh.vertices.vertices.len() == 0,
        r matches Some(m) ==> {
            let vc = b3d@.node.mesh.vertices.vertices.len();
            let w = model_walk(b3d@, vc);
            &&& joint_models(m.joints@) == w.0
            &&& m.mesh@ == (MeshDataModel { skin: Seq::new(vc, |i: int| skin_entry(w.1[i])), ..spec_mesh_data(b3d@) })
            &&& m.clips@.map_values(|a: AnimClip| a@) == spec_anims(b3d@.node)
        },
{
    let vcount = b3d.node.mesh.vertices.vertices.len();
    if vcount == 0 {
        return None;
    }
    let mut vertex_joint: Vec<Option<(usize, u32)>> = Vec::new();
    let mut i: usize = 0;
    while i < vcount
        invariant
            i <= vcount,
            vertex_joint@ =~= Seq::new(i as nat, |k: int| None::<(usize, u32)>),
        decreases vcount - i,
    {
        vertex_joint.push(None);
        i = i + 1;
    }
    let mut joints: Vec<JointInfo> = Vec::new();
    proof {
        assert(joint_models(joints@) =~= Seq::<JointModel>::empty());
    }
    collect_joints(&b3d.node, None, &mut joints, &mut vertex_joint, vcount, true);
    let mut mesh = collect_mesh(b3d);
    apply_skin(&mut mesh, vertex_joint.as_slice());
    let clips = collect_anims(&b3d.node);
    proof {
        let vc = b3d@.node.mesh.vertices.vertices.len();
        assert(vc == vcount);
        assert(mesh@.skin =~= Seq::new(vc, |k: int| skin_entry(model_walk(b3d@, vc).1[k])));
        assert(mesh@ =~= (MeshDataModel { skin: Seq::new(vc, |k: int| skin_entry(model_walk(b3d@, vc).1[k])), ..spec_mesh_data(b3d@) }));
    }
    Some(ModelParts { joints, mesh, clips })
}


/// Law: when every triangle group's brush id names a brush, every primitive's material
/// index names one of the materials that `decide_materials` makes from the brushes'
/// plans. (A brush id past the brush list still gets a material index by its rank, which
/// can lie past the materials.)
pub proof fn lemma_primitive_materials_exist(
    map: Map<u32, usize>,
    sorted: Seq<u32>,
    tri_groups: Seq<TriGroup>,
    textures: Seq<TextureModel>,
    brushes: Seq<BrushModel>,
    loaded: Seq<Option<Option<AlphaMode>>>,
    model_texture: Option<bool>,
    params: Option<(u32, u32)>,
    color_override: Option<[u32; 4]>,
    first_index: u32,
    joints: Option<u32>,
    weights: Option<u32>,
)
    requires
        is_brush_map(map, brush_ids(tri_groups)),
        sorts(sorted, brush_ids(tri_groups)),
        forall|g: int| 0 <= g < tri_groups.len() ==> (#[trigger] tri_groups[g].brush_id as int) < brushes.len(),
        loaded.len() == spec_material_plans(sorted, textures, brushes).len(),
    ensures
        forall|g: int| 0 <= g < tri_groups.len() ==> (#[trigger] spec_primitive(tri_groups[g], g, map, first_index, joints, weights)).material
            < spec_materials(spec_material_plans(sorted, textures, brushes), loaded, model_texture, params, color_override).len(),
{
    let plans = spec_material_plans(sorted, textures, brushes);
    let mats = spec_materials(plans, loaded, model_texture, params, color_override);
    lemma_brush_map_matches_materials(map, sorted, tri_groups, textures, brushes);
    assert(mats.len() >= plans.len() && mats.len() >= 1);
    assert forall|g: int| 0 <= g < tri_groups.len() implies (#[trigger] spec_primitive(tri_groups[g], g, map, first_index, joints, weights)).material < mats.len() by {
        let b = tri_groups[g].brush_id;
        assert(brush_ids(tri_groups)[g] == b);
        assert(brush_ids(tri_groups).contains(b));
        assert(map.contains_key(b));
    }
}


/// Law: the planned mesh data is self-consistent. For the buffer and layout that
/// `build_vertex_buffer` returns (of a mesh with one attribute entry per vertex), the
/// buffer is a multiple of four bytes long, every view that `plan_mesh_views` plans lies
/// inside it, every accessor reads one of those views, and the index accessor of every
/// triangle group exists.
pub proof fn lemma_mesh_plan_consistent(m: MeshDataModel, gs: Seq<Seq<u32>>, layout: VertexLayout)
    requires
        m.normals.len() == m.positions.len(),
        m.uvs.len() == m.positions.len(),
        m.skin.len() == m.positions.len(),
        12 * m.positions.len() <= u32::MAX,
        layout_skinned(layout) ==> 16 * m.positions.len() <= u32::MAX,
        4 * index_total(gs) <= u32::MAX,
        layout.positions == 0,
        layout.normals == vec3_bytes(m.positions).len(),
        layout.uvs == layout.normals + vec3_bytes(m.normals).len(),
        layout_skinned(layout) ==> layout.joints == Some((layout.uvs + vec2_bytes(m.uvs).len()) as usize),
        layout_skinned(layout) ==> layout.weights == Some((layout.uvs + vec2_bytes(m.uvs).len() + joints_bytes(m.skin).len()) as usize),
        layout.indices == (if layout_skinned(layout) {
            layout.uvs + vec2_bytes(m.uvs).len() + joints_bytes(m.skin).len() + weights_bytes(m.skin).len()
        } else {
            layout.uvs + vec2_bytes(m.uvs).len()
        }),
    ensures
        ({
            let bin = vertex_buffer_bytes(m, gs, layout_skinned(layout));
            let vs = spec_mesh_buffer_views(m.positions.len(), layout, gs);
            let accs = spec_mesh_accessors(m.positions.len(), layout, gs, spec_bounds(m.positions));
            let first: u32 = if layout_skinned(layout) { 5 } else { 3 };
            &&& bin.len() % 4 == 0
            &&& forall|k: int| 0 <= k < vs.len() ==> #[trigger] vs[k].offset + vs[k].length <= bin.len()
            &&& forall|k: int| 0 <= k < accs.len() ==> (#[trigger] accs[k].buffer_view as int) < vs.len()
            &&& forall|g: int| 0 <= g < gs.len() ==> #[trigger] (first + g) < accs.len()
        }),
{
    let vc = m.positions.len();
    let skinned = layout_skinned(layout);
    lemma_vec3_bytes_len(m.positions);
    lemma_vec3_bytes_len(m.normals);
    lemma_vec2_bytes_len(m.uvs);
    lemma_joints_bytes_len(m.skin);
    lemma_weights_bytes_len(m.skin);
    lemma_indices_bytes_len(gs);
    let p = vec3_bytes(m.positions);
    let n = vec3_bytes(m.normals);
    let u = vec2_bytes(m.uvs);
    let j = joints_bytes(m.skin);
    let w = weights_bytes(m.skin);
    let ix = indices_bytes(gs);
    let sk = if skinned { j + w } else { Seq::empty() };
    let b = p + n + u + sk + ix;
    lemma_pad_len(b.len());
    let bin = vertex_buffer_bytes(m, gs, skinned);
    assert(bin == b + fill(0, pad_len(b.len())));
    let vs = spec_mesh_buffer_views(vc, layout, gs);
    assert((vc as u32) as nat == vc);
    assert forall|k: int| 0 <= k < vs.len() implies #[trigger] vs[k].offset + vs[k].length <= bin.len() by {
        if skinned {
            assert(vs.len() == 6);
        } else {
            assert(vs.len() == 4);
        }
    }
    let accs = spec_mesh_accessors(vc, layout, gs, spec_bounds(m.positions));
    assert forall|k: int| 0 <= k < accs.len() implies (#[trigger] accs[k].buffer_view as int) < vs.len() by {
        if skinned {
            assert(vs.len() == 6);
        } else {
            assert(vs.len() == 4);
        }
    }
}

/// Law: the planned animation data is self-consistent. The data of every channel lies
/// between `start` and `start` plus the bytes of all channels, the time data right before
/// the value data, each channel right after the one before; and every accessor reads one
/// of the views planned with it.
pub proof fn lemma_animation_layout_consistent(plans: Seq<AnimPlan>, start: int, first_view: u32, first_accessor: u32, g: int)
    requires
        0 <= start,
        start + channels_bytes(plan_channels(plans)) <= usize::MAX,
        first_view + 2 * plan_channels(plans).len() <= u32::MAX,
        forall|h: int| 0 <= h < plan_channels(plans).len() ==> 16 * sample_count(#[trigger] plan_channels(plans)[h].times) <= u32::MAX,
        0 <= g < plan_channels(plans).len(),
    ensures
        ({
            let flat = plan_channels(plans);
            let l = spec_channel_layout(flat[g], g, start + channels_bytes(flat.take(g)), first_view, first_accessor);
            &&& start <= l.time_view.offset
            &&& l.time_view.offset + l.time_view.length == l.value_view.offset
            &&& l.value_view.offset + l.value_view.length == start + channels_bytes(flat.take(g + 1))
            &&& l.value_view.offset + l.value_view.length <= start + channels_bytes(flat)
            &&& l.time_accessor.buffer_view == first_view + 2 * g
            &&& l.value_accessor.buffer_view == first_view + 2 * g + 1
            &&& l.value_accessor.buffer_view < first_view + 2 * flat.len()
        }),
{
    let flat = plan_channels(plans);
    lemma_channels_bytes_prefix(flat, g + 1);
    assert(flat.take(g + 1) =~= flat.take(g).push(flat[g]));
    lemma_channels_bytes_push(flat.take(g), flat[g]);
    let c = flat[g];
    let kc = sample_count(c.times);
    let es = element_size(c.values);
    assert(kc * (4 + es) == 4 * kc + es * kc) by (nonlinear_arith);
    assert(16 * kc <= u32::MAX);
    assert(es * kc <= 16 * kc) by (nonlinear_arith)
        requires
            es <= 16;
}

} // verus!
