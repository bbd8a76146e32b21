//! Reading B3D files. Each reader checks its input against the format in
//! `b3d_format` and returns exactly the value, position and error described there.
//! Floats are kept as their IEEE-754 bit patterns (`f32::to_bits`).
use vstd::prelude::*;
use vstd::string::StringExecFns;
use crate::text::{decimal, push_decimal, push_str, string_from_chars};
use crate::bytes::{read_le_u32, string_from_utf8, string_from_utf8_lossy, word_at};
use crate::b3d_format::{
    ChunkModel, ErrorModel, PResult, TextureModel, BrushModel, VertsModel, TrisModel, MeshModel,
    SequenceModel, NodeModel, B3DModel, spec_u32, spec_chunk, spec_name, spec_texture,
    spec_brush, spec_verts, spec_vertex_list, spec_tris, spec_face_list, spec_tris_chunks,
    spec_mesh, spec_bones, spec_keys, spec_animation, spec_sequence, spec_node,
    spec_node_chunks, spec_texture_list, spec_brush_list, spec_brushes, spec_top_chunks,
    spec_b3d, fits, vec2_at, vec3_at, vec4_at, words_at, vertex_at, vertex_size, key_at,
    key_size, has_normal, has_color, nul_index, lemma_nul_index, empty_mesh, empty_node,
    advanced, TAG_BB3D, TAG_TEXS, TAG_BRUS, TAG_NODE, TAG_MESH, TAG_BONE, TAG_KEYS, TAG_ANIM,
    TAG_SEQS, TAG_PIVO,
};

verus! {

/// A texture reference. Floats are IEEE-754 bit patterns.
#[derive(Debug)]
pub struct Texture {
    pub file: String,
    pub flags: u32,
    pub blend: u32,
    pub position: [u32; 2],
    pub scale: [u32; 2],
    pub rotation: u32,
}

impl View for Texture {
    type V = TextureModel;

    open spec fn view(&self) -> TextureModel {
        TextureModel {
            file: self.file@,
            flags: self.flags,
            blend: self.blend,
            position: self.position,
            scale: self.scale,
            rotation: self.rotation,
        }
    }
}

/// A material. Floats are IEEE-754 bit patterns.
#[derive(Debug)]
pub struct Brush {
    pub name: String,
    pub color: [u32; 4],
    pub shininess: u32,
    pub blend: u32,
    pub fx: u32,
    pub texture_id: Vec<u32>,
}

impl View for Brush {
    type V = BrushModel;

    open spec fn view(&self) -> BrushModel {
        BrushModel {
            name: self.name@,
            color: self.color,
            shininess: self.shininess,
            blend: self.blend,
            fx: self.fx,
            texture_id: self.texture_id@,
        }
    }
}

/// One vertex. Floats are IEEE-754 bit patterns.
#[derive(Debug, Clone, Copy, PartialEq, Eq)]
pub struct Vertice {
    pub position: [u32; 3],
    pub normal: [u32; 3],
    pub color: [u32; 4],
    pub tex_coords: [u32; 2],
}

impl View for Vertice {
    type V = Vertice;

    open spec fn view(&self) -> Vertice {
        *self
    }
}

/// A vertex block.
#[derive(Debug)]
pub struct Verts {
    pub flags: u32,
    pub tex_coord_sets: u32,
    pub tex_coord_set_size: u32,
    pub vertices: Vec<Vertice>,
}

impl View for Verts {
    type V = VertsModel;

    open spec fn view(&self) -> VertsModel {
        VertsModel {
            flags: self.flags,
            tex_coord_sets: self.tex_coord_sets,
            tex_coord_set_size: self.tex_coord_set_size,
            vertices: self.vertices@,
        }
    }
}

/// A triangle block that shares one brush.
#[derive(Debug)]
pub struct Tris {
    pub brush_id: u32,
    pub indices: Vec<[u32; 3]>,
}

impl View for Tris {
    type V = TrisModel;

    open spec fn view(&self) -> TrisModel {
        TrisModel { brush_id: self.brush_id, indices: self.indices@ }
    }
}

/// A mesh: its vertices and triangle blocks.
#[derive(Debug)]
pub struct Mesh {
    pub brush_id: u32,
    pub vertices: Verts,
    pub triangles: Vec<Tris>,
}

impl View for Mesh {
    type V = MeshModel;

    open spec fn view(&self) -> MeshModel {
        MeshModel {
            brush_id: self.brush_id,
            vertices: self.vertices@,
            triangles: self.triangles@.map_values(|t: Tris| t@),
        }
    }
}

/// A vertex weight. The weight is an IEEE-754 bit pattern.
#[derive(Debug, Clone, Copy, PartialEq, Eq)]
pub struct Bone {
    pub vertex_id: u32,
    pub weight: u32,
}

impl View for Bone {
    type V = Bone;

    open spec fn view(&self) -> Bone {
        *self
    }
}

/// A keyframe. Floats are IEEE-754 bit patterns.
#[derive(Debug, Clone, Copy, PartialEq, Eq)]
pub struct Key {
    pub frame: u32,
    pub position: [u32; 3],
    pub scale: [u32; 3],
    pub rotation: [u32; 4],
}

impl View for Key {
    type V = Key;

    open spec fn view(&self) -> Key {
        *self
    }
}

/// Animation settings. The frame rate is an IEEE-754 bit pattern.
#[derive(Debug, Clone, Copy, PartialEq, Eq)]
pub struct Animation {
    pub flags: u32,
    pub frames: u32,
    pub fps: u32,
}

impl View for Animation {
    type V = Animation;

    open spec fn view(&self) -> Animation {
        *self
    }
}

/// A named frame range.
#[derive(Debug)]
pub struct Sequence {
    pub name: String,
    pub first_frame: u32,
    pub last_frame: u32,
    pub unused: u32,
}

impl View for Sequence {
    type V = SequenceModel;

    open spec fn view(&self) -> SequenceModel {
        SequenceModel {
            name: self.name@,
            first_frame: self.first_frame,
            last_frame: self.last_frame,
            unused: self.unused,
        }
    }
}

/// A node of the scene tree. Floats are IEEE-754 bit patterns.
#[derive(Debug)]
pub struct Node {
    pub name: String,
    pub position: [u32; 3],
    pub scale: [u32; 3],
    pub rotation: [u32; 4],
    pub mesh: Mesh,
    pub bones: Vec<Bone>,
    pub key_flags: u32,
    pub keys: Vec<Key>,
    pub children: Vec<Node>,
    pub animation: Animation,
    pub sequences: Vec<Sequence>,
}

/// The models of a sequence of nodes.
pub open spec fn view_nodes(ns: Seq<Node>) -> Seq<NodeModel>
    decreases ns,
{
    if ns.len() == 0 {
        Seq::empty()
    } else {
        view_nodes(ns.drop_last()).push(view_node(ns.last()))
    }
}

/// The model of a node.
pub open spec fn view_node(n: Node) -> NodeModel
    decreases n,
{
    NodeModel {
        name: n.name@,
        position: n.position,
        scale: n.scale,
        rotation: n.rotation,
        mesh: n.mesh@,
        bones: n.bones@,
        key_flags: n.key_flags,
        keys: n.keys@,
        children: view_nodes(n.children@),
        animation: n.animation,
        sequences: n.sequences@.map_values(|q: Sequence| q@),
    }
}

impl View for Node {
    type V = NodeModel;

    open spec fn view(&self) -> NodeModel {
        view_node(*self)
    }
}

/// A whole B3D file.
#[derive(Debug)]
pub struct B3D {
    pub version: u32,
    pub textures: Vec<Texture>,
    pub brushes: Vec<Brush>,
    pub node: Node,
}

impl View for B3D {
    type V = B3DModel;

    open spec fn view(&self) -> B3DModel {
        B3DModel {
            version: self.version,
            textures: self.textures@.map_values(|t: Texture| t@),
            brushes: self.brushes@.map_values(|b: Brush| b@),
            node: self.node@,
        }
    }
}

/// A chunk header: tag, byte count, and the position where the chunk's content ends.
#[derive(Debug)]
pub struct Chunk {
    pub tag: String,
    pub size: u32,
    pub next: u64,
}

impl View for Chunk {
    type V = ChunkModel;

    open spec fn view(&self) -> ChunkModel {
        ChunkModel { tag: self.tag@, size: self.size, next: self.next as int }
    }
}

/// Why a read failed.
#[derive(Debug)]
pub enum Error {
    /// The data ended inside a field.
    UnexpectedEof,
    /// A chunk tag is not valid UTF-8.
    Utf8,
    /// A chunk's tag is not allowed where it stands.
    InvalidChunk(Chunk),
}

impl View for Error {
    type V = ErrorModel;

    open spec fn view(&self) -> ErrorModel {
        match self {
            Error::UnexpectedEof => ErrorModel::UnexpectedEof,
            Error::Utf8 => ErrorModel::Utf8,
            Error::InvalidChunk(c) => ErrorModel::InvalidChunk(c@),
        }
    }
}

/// What a reader's result and final position say, in the terms of `b3d_format`.
pub open spec fn outcome<T: View>(res: Result<T, Error>, end: int) -> PResult<T::V> {
    match res {
        Ok(v) => Ok((v@, end)),
        Err(e) => Err(e@),
    }
}

/// `outcome` for a list of records: each record by its model.
pub open spec fn outcome_list<T: View>(res: Result<Vec<T>, Error>, end: int) -> PResult<Seq<T::V>> {
    match res {
        Ok(v) => Ok((v@.map_values(|x: T| x@), end)),
        Err(e) => Err(e@),
    }
}

/// A position in a byte slice, never past its end.
pub struct Reader<'a> {
    data: &'a [u8],
    pos: usize,
}

impl<'a> Reader<'a> {
    #[verifier::type_invariant]
    spec fn inv(&self) -> bool {
        &&& self.pos <= self.data@.len()
        &&& self.data@.len() <= isize::MAX
    }

    /// The bytes being read.
    pub closed spec fn bytes(&self) -> Seq<u8> {
        self.data@
    }

    /// The current position.
    pub closed spec fn at(&self) -> int {
        self.pos as int
    }

    /// A reader at the start of `data`.
    pub fn new(data: &'a [u8]) -> (r: Self)
        requires
            data@.len() <= isize::MAX,
        ensures
            r.bytes() == data@,
            r.at() == 0,
    {
        Reader { data, pos: 0 }
    }

    /// The current position.
    pub fn position(&self) -> (p: usize)
        ensures
            p == self.at(),
    {
        self.pos
    }

    /// Moves to the end of the data.
    pub fn seek_to_end(&mut self)
        ensures
            final(self).bytes() == old(self).bytes(),
            old(self).at() <= final(self).at(),
            final(self).at() == old(self).bytes().len(),
    {
        proof {
            use_type_invariant(&*self);
        }
        self.pos = self.data.len();
    }

    /// The bytes from the current position to the end.
    pub fn remaining(&self) -> (r: &'a [u8])
        ensures
            r@ == self.bytes().subrange(self.at(), self.bytes().len() as int),
    {
        proof {
            use_type_invariant(self);
        }
        &self.data[self.pos..self.data.len()]
    }

    /// One little-endian word.
    pub fn read_u32(&mut self) -> (res: Result<u32, Error>)
        ensures
            final(self).bytes() == old(self).bytes(),
            old(self).at() <= final(self).at(),
            outcome(res, final(self).at()) == spec_u32(old(self).bytes(), old(self).at()),
    {
        proof {
            use_type_invariant(&*self);
        }
        if self.data.len() - self.pos < 4 {
            return Err(Error::UnexpectedEof);
        }
        let w = read_le_u32(&self.data[self.pos..self.pos + 4]);
        self.pos = self.pos + 4;
        Ok(w)
    }

    /// The word at `off` bytes past the current position, without moving.
    fn word(&self, off: usize) -> (w: u32)
        requires
            fits(self.bytes(), self.at() + off, 4),
        ensures
            w == word_at(self.bytes(), self.at() + off),
    {
        proof {
            use_type_invariant(self);
        }
        let p = self.pos + off;
        read_le_u32(&self.data[p..p + 4])
    }

    /// Whether `n` bytes remain.
    fn has(&self, n: usize) -> (b: bool)
        ensures
            b == fits(self.bytes(), self.at(), n as int),
    {
        proof {
            use_type_invariant(self);
        }
        self.data.len() - self.pos >= n
    }

    /// Moves `n` bytes forward.
    fn advance(&mut self, n: usize)
        requires
            fits(old(self).bytes(), old(self).at(), n as int),
        ensures
            final(self).bytes() == old(self).bytes(),
            old(self).at() <= final(self).at(),
            final(self).at() == old(self).at() + n,
    {
        proof {
            use_type_invariant(&*self);
        }
        self.pos = self.pos + n;
    }

    /// Two words.
    pub fn read_vec2(&mut self) -> (res: Result<[u32; 2], Error>)
        ensures
            final(self).bytes() == old(self).bytes(),
            old(self).at() <= final(self).at(),
            fits(old(self).bytes(), old(self).at(), 8) ==> res == Ok::<[u32; 2], Error>(vec2_at(old(self).bytes(), old(self).at()))
                && final(self).at() == old(self).at() + 8,
            !fits(old(self).bytes(), old(self).at(), 8) ==> res matches Err(Error::UnexpectedEof),
    {
        if !self.has(8) {
            return Err(Error::UnexpectedEof);
        }
        let v = [self.word(0), self.word(4)];
        self.advance(8);
        Ok(v)
    }

    /// Three words.
    pub fn read_vec3(&mut self) -> (res: Result<[u32; 3], Error>)
        ensures
            final(self).bytes() == old(self).bytes(),
            old(self).at() <= final(self).at(),
            fits(old(self).bytes(), old(self).at(), 12) ==> res == Ok::<[u32; 3], Error>(vec3_at(old(self).bytes(), old(self).at()))
                && final(self).at() == old(self).at() + 12,
            !fits(old(self).bytes(), old(self).at(), 12) ==> res matches Err(Error::UnexpectedEof),
    {
        if !self.has(12) {
            return Err(Error::UnexpectedEof);
        }
        let v = [self.word(0), self.word(4), self.word(8)];
        self.advance(12);
        Ok(v)
    }

    /// Four words.
    pub fn read_vec4(&mut self) -> (res: Result<[u32; 4], Error>)
        ensures
            final(self).bytes() == old(self).bytes(),
            old(self).at() <= final(self).at(),
            fits(old(self).bytes(), old(self).at(), 16) ==> res == Ok::<[u32; 4], Error>(vec4_at(old(self).bytes(), old(self).at()))
                && final(self).at() == old(self).at() + 16,
            !fits(old(self).bytes(), old(self).at(), 16) ==> res matches Err(Error::UnexpectedEof),
    {
        if !self.has(16) {
            return Err(Error::UnexpectedEof);
        }
        let v = [self.word(0), self.word(4), self.word(8), self.word(12)];
        self.advance(16);
        Ok(v)
    }

    /// Whether the position is before `next`: a chunk loop goes on while it is.
    pub fn is_before(&self, next: u64) -> (b: bool)
        ensures
            b == (self.at() < next),
    {
        (self.pos as u64) < next
    }

    /// Skips `n` bytes, failing when fewer remain.
    pub fn skip(&mut self, n: u32) -> (res: Result<(), Error>)
        ensures
            final(self).bytes() == old(self).bytes(),
            old(self).at() <= final(self).at(),
            fits(old(self).bytes(), old(self).at(), n as int) ==> res is Ok && final(self).at() == old(self).at() + n,
            !fits(old(self).bytes(), old(self).at(), n as int) ==> res matches Err(Error::UnexpectedEof),
    {
        proof {
            use_type_invariant(&*self);
        }
        if self.data.len() - self.pos < n as usize {
            return Err(Error::UnexpectedEof);
        }
        self.advance(n as usize);
        Ok(())
    }
}

/// Reads a zero-terminated name: the bytes up to the first zero or the end of the data,
/// decoded; the terminator is consumed when present. It never fails.
pub fn read_null_term_string(data: &mut Reader) -> (name: String)
    ensures
        final(data).bytes() == old(data).bytes(),
        old(data).at() <= final(data).at(),
        (name@, final(data).at()) == spec_name(old(data).bytes(), old(data).at()),
{
    proof {
        use_type_invariant(&*data);
    }
    let ghost s = data.bytes();
    let start = data.pos;
    let mut k = data.pos;
    proof {
        lemma_nul_index(s, start as int);
    }
    while k < data.data.len() && data.data[k] != 0
        invariant
            s == data.bytes(),
            data.data@ == s,
            start <= k <= nul_index(s, start as int),
            nul_index(s, start as int) <= s.len(),
            nul_index(s, start as int) < s.len() ==> s[nul_index(s, start as int)] == 0,
            forall|j: int| start <= j < nul_index(s, start as int) ==> s[j] != 0,
        decreases s.len() - k,
    {
        k = k + 1;
    }
    let name = string_from_utf8_lossy(&data.data[start..k]);
    if k < data.data.len() {
        data.pos = k + 1;
    } else {
        data.pos = k;
    }
    name
}

/// `eof`: whether the reader is still before `next`.
pub fn eof(data: &Reader, next: u64) -> (b: bool)
    ensures
        b == (data.at() < next),
{
    data.is_before(next)
}

impl Chunk {
    /// A chunk header and the tag's four bytes as one little-endian word.
    fn read_tagged(data: &mut Reader) -> (res: Result<(Chunk, u32), Error>)
        ensures
            final(data).bytes() == old(data).bytes(),
            old(data).at() <= final(data).at(),
            match res {
                Ok((c, t)) => spec_chunk(old(data).bytes(), old(data).at()) == Ok::<(ChunkModel, int), ErrorModel>((c@, final(data).at()))
                    && t == word_at(old(data).bytes(), old(data).at()),
                Err(e) => spec_chunk(old(data).bytes(), old(data).at()) == Err::<(ChunkModel, int), ErrorModel>(e@),
            },
    {
        proof {
            use_type_invariant(&*data);
        }
        let ghost s = data.bytes();
        if !data.has(4) {
            return Err(Error::UnexpectedEof);
        }
        let p = data.pos;
        let mut tag_bytes: Vec<u8> = Vec::new();
        tag_bytes.push(data.data[p]);
        tag_bytes.push(data.data[p + 1]);
        tag_bytes.push(data.data[p + 2]);
        tag_bytes.push(data.data[p + 3]);
        assert(tag_bytes@ =~= s.subrange(p as int, p + 4));
        let tag = match string_from_utf8(tag_bytes) {
            Some(t) => t,
            None => return Err(Error::Utf8),
        };
        if !data.has(8) {
            return Err(Error::UnexpectedEof);
        }
        let word = data.word(0);
        let size = data.word(4);
        data.advance(8);
        let next = (p as u64 + 8) + size as u64;
        Ok((Chunk { tag, size, next }, word))
    }

    /// A chunk header: four tag bytes, which must be UTF-8, then the byte count;
    /// `next` is the position after the header plus the count.
    pub fn read(data: &mut Reader) -> (res: Result<Chunk, Error>)
        ensures
            final(data).bytes() == old(data).bytes(),
            old(data).at() <= final(data).at(),
            outcome(res, final(data).at()) == spec_chunk(old(data).bytes(), old(data).at()),
    {
        match Chunk::read_tagged(data) {
            Ok((c, _)) => Ok(c),
            Err(e) => Err(e),
        }
    }

    /// A line naming the chunk's tag and byte count, e.g. `Tag: TEXS, Size: 16`.
    pub fn describe(&self) -> (r: String)
        ensures
            r@ == chunk_text(self@),
    {
        let mut out: Vec<char> = Vec::new();
        push_str(&mut out, "Tag: ");
        push_str(&mut out, self.tag.as_str());
        push_str(&mut out, ", Size: ");
        push_decimal(&mut out, self.size);
        proof {
            reveal_strlit("Tag: ");
            reveal_strlit(", Size: ");
            assert(out@ =~= chunk_text(self@));
        }
        string_from_chars(&out)
    }
}

/// The text of `Chunk::describe`.
pub open spec fn chunk_text(c: ChunkModel) -> Seq<char> {
    seq!['T', 'a', 'g', ':', ' '] + c.tag + seq![',', ' ', 'S', 'i', 'z', 'e', ':', ' ']
        + decimal(c.size as nat)
}

/// Reader contract shared by every record reader: same bytes, never backwards.
pub open spec fn same_data_forward(before: Reader, after: Reader) -> bool {
    &&& after.bytes() == before.bytes()
    &&& before.at() <= after.at()
}

impl Texture {
    /// A texture: its file name, then flags, blend, position (2), scale (2), rotation.
    pub fn read(data: &mut Reader) -> (res: Result<Texture, Error>)
        ensures
            same_data_forward(*old(data), *final(data)),
            outcome(res, final(data).at()) == spec_texture(old(data).bytes(), old(data).at()),
    {
        proof {
            use_type_invariant(&*data);
            crate::b3d_format::lemma_name_advances(data.bytes(), data.at());
        }
        let file = read_null_term_string(data);
        let flags = data.read_u32()?;
        let blend = data.read_u32()?;
        let position = data.read_vec2()?;
        let scale = data.read_vec2()?;
        let rotation = data.read_u32()?;
        Ok(Texture { file, flags, blend, position, scale, rotation })
    }
}

impl Brush {
    /// A brush: its name, colour (4), shininess, blend, fx, then `n_texs` texture ids.
    #[verifier::loop_isolation(false)]
    pub fn read(data: &mut Reader, n_texs: usize) -> (res: Result<Brush, Error>)
        ensures
            same_data_forward(*old(data), *final(data)),
            outcome(res, final(data).at()) == spec_brush(old(data).bytes(), old(data).at(), n_texs as nat),
    {
        proof {
            use_type_invariant(&*data);
            crate::b3d_format::lemma_name_advances(data.bytes(), data.at());
        }
        let ghost s = data.bytes();
        let name = read_null_term_string(data);
        let ghost q = data.at();
        let color = data.read_vec4()?;
        let shininess = data.read_u32()?;
        let blend = data.read_u32()?;
        let fx = data.read_u32()?;
        let mut texture_id: Vec<u32> = Vec::new();
        let mut i: usize = 0;
        while i < n_texs
            invariant
                data.bytes() == s,
                0 <= q,
                fits(s, q, 28),
                old(data).at() <= q,
                i <= n_texs,
                data.at() == q + 28 + 4 * i,
                texture_id@ =~= words_at(s, q + 28, i as nat),
            decreases n_texs - i,
        {
            let t = match data.read_u32() {
                Ok(t) => t,
                Err(e) => {
                    assert(!fits(s, q, 28 + 4 * (n_texs as int)));
                    return Err(e);
                },
            };
            texture_id.push(t);
            i = i + 1;
        }
        proof {
            use_type_invariant(&*data);
            assert(fits(s, q, 28 + 4 * (n_texs as int)));
        }
        Ok(Brush { name, color, shininess, blend, fx, texture_id })
    }
}

/// One vertex record laid out as `flags` says.
fn read_vertex(data: &mut Reader, flags: u32) -> (res: Result<Vertice, Error>)
    ensures
        final(data).bytes() == old(data).bytes(),
        old(data).at() <= final(data).at(),
        fits(old(data).bytes(), old(data).at(), vertex_size(flags)) ==> res == Ok::<Vertice, Error>(vertex_at(old(data).bytes(), old(data).at(), flags))
            && final(data).at() == old(data).at() + vertex_size(flags),
        !fits(old(data).bytes(), old(data).at(), vertex_size(flags)) ==> res matches Err(Error::UnexpectedEof),
{
    let position = data.read_vec3()?;
    let mut normal: [u32; 3] = [0u32, 0u32, 0u32];
    if flags & 1 != 0 {
        normal = data.read_vec3()?;
    }
    let mut color: [u32; 4] = [0u32, 0u32, 0u32, 0u32];
    if flags & 2 != 0 {
        color = data.read_vec4()?;
    }
    let tex_coords = data.read_vec2()?;
    Ok(Vertice { position, normal, color, tex_coords })
}

impl Verts {
    /// A vertex block: flags, texture-coordinate set count and size, then vertices
    /// while the position is before `next`.
    #[verifier::loop_isolation(false)]
    pub fn read(data: &mut Reader, next: u64) -> (res: Result<Verts, Error>)
        ensures
            same_data_forward(*old(data), *final(data)),
            outcome(res, final(data).at()) == spec_verts(old(data).bytes(), old(data).at(), next as int),
    {
        let ghost s = data.bytes();
        let flags = data.read_u32()?;
        let tex_coord_sets = data.read_u32()?;
        let tex_coord_set_size = data.read_u32()?;
        let ghost p0 = data.at();
        let mut vertices: Vec<Vertice> = Vec::new();
        proof {
            use_type_invariant(&*data);
        }
        while data.is_before(next)
            invariant
                data.bytes() == s,
                old(data).at() + 12 == p0,
                p0 <= data.at() <= s.len(),
                fits(s, old(data).at(), 12),
                flags == word_at(s, old(data).at()),
                spec_vertex_list(s, data.at(), next as int, flags, vertices@)
                    == spec_vertex_list(s, p0, next as int, flags, Seq::empty()),
            decreases s.len() - data.at(),
        {
            let v = read_vertex(data, flags)?;
            vertices.push(v);
        }
        Ok(Verts { flags, tex_coord_sets, tex_coord_set_size, vertices })
    }
}

impl Tris {
    /// A triangle block: the brush id, then triangles (three index words each)
    /// while the position is before `next`.
    #[verifier::loop_isolation(false)]
    pub fn read(data: &mut Reader, next: u64) -> (res: Result<Tris, Error>)
        ensures
            same_data_forward(*old(data), *final(data)),
            outcome(res, final(data).at()) == spec_tris(old(data).bytes(), old(data).at(), next as int),
    {
        let ghost s = data.bytes();
        let brush_id = data.read_u32()?;
        let ghost p0 = data.at();
        let mut indices: Vec<[u32; 3]> = Vec::new();
        proof {
            use_type_invariant(&*data);
        }
        while data.is_before(next)
            invariant
                data.bytes() == s,
                p0 <= data.at() <= s.len(),
                spec_face_list(s, data.at(), next as int, indices@)
                    == spec_face_list(s, p0, next as int, Seq::empty()),
            decreases s.len() - data.at(),
        {
            let face = data.read_vec3()?;
            indices.push(face);
            proof {
                use_type_invariant(&*data);
            }
        }
        Ok(Tris { brush_id, indices })
    }
}

impl Mesh {
    /// A mesh: brush id, one vertex chunk, then triangle chunks while the position
    /// is before `next`. The tags of these chunks are not looked at.
    #[verifier::loop_isolation(false)]
    pub fn read(data: &mut Reader, next: u64) -> (res: Result<Mesh, Error>)
        ensures
            same_data_forward(*old(data), *final(data)),
            outcome(res, final(data).at()) == spec_mesh(old(data).bytes(), old(data).at(), next as int),
    {
        let ghost s = data.bytes();
        let brush_id = data.read_u32()?;
        let vert_chunk = Chunk::read(data)?;
        let vertices = Verts::read(data, vert_chunk.next)?;
        let ghost p0 = data.at();
        let mut triangles: Vec<Tris> = Vec::new();
        proof {
            use_type_invariant(&*data);
            assert(triangles@.map_values(|t: Tris| t@) =~= Seq::<TrisModel>::empty());
        }
        while data.is_before(next)
            invariant
                data.bytes() == s,
                p0 <= data.at() <= s.len(),
                spec_tris_chunks(s, data.at(), next as int, triangles@.map_values(|t: Tris| t@))
                    == spec_tris_chunks(s, p0, next as int, Seq::empty()),
            decreases s.len() - data.at(),
        {
            let ghost p = data.at();
            let ghost before = triangles@.map_values(|t: Tris| t@);
            let tri_chunk = Chunk::read(data)?;
            let tris = Tris::read(data, tri_chunk.next)?;
            proof {
                use_type_invariant(&*data);
                assert(advanced(s, p, data.at()));
            }
            triangles.push(tris);
            proof {
                assert(triangles@.map_values(|t: Tris| t@) =~= before.push(tris@));
            }
        }
        Ok(Mesh { brush_id, vertices, triangles })
    }
}

impl Bone {
    /// A bone weight: vertex id, weight.
    pub fn read(data: &mut Reader) -> (res: Result<Bone, Error>)
        ensures
            same_data_forward(*old(data), *final(data)),
            fits(old(data).bytes(), old(data).at(), 8) ==> res == Ok::<Bone, Error>(
                Bone { vertex_id: word_at(old(data).bytes(), old(data).at()), weight: word_at(old(data).bytes(), old(data).at() + 4) })
                && final(data).at() == old(data).at() + 8,
            !fits(old(data).bytes(), old(data).at(), 8) ==> res matches Err(Error::UnexpectedEof),
    {
        let vertex_id = data.read_u32()?;
        let weight = data.read_u32()?;
        Ok(Bone { vertex_id, weight })
    }
}

impl Key {
    /// A key record: the frame, then a position when `flags & 1`, a scale when
    /// `flags & 2`, a rotation when `flags & 4`; the parts left out are zero.
    pub fn read(data: &mut Reader, flags: u32) -> (res: Result<Key, Error>)
        ensures
            same_data_forward(*old(data), *final(data)),
            fits(old(data).bytes(), old(data).at(), key_size(flags)) ==> res == Ok::<Key, Error>(key_at(old(data).bytes(), old(data).at(), flags))
                && final(data).at() == old(data).at() + key_size(flags),
            !fits(old(data).bytes(), old(data).at(), key_size(flags)) ==> res matches Err(Error::UnexpectedEof),
    {
        let frame = data.read_u32()?;
        let mut position: [u32; 3] = [0u32, 0u32, 0u32];
        if flags & 1 != 0 {
            position = data.read_vec3()?;
        }
        let mut scale: [u32; 3] = [0u32, 0u32, 0u32];
        if flags & 2 != 0 {
            scale = data.read_vec3()?;
        }
        let mut rotation: [u32; 4] = [0u32, 0u32, 0u32, 0u32];
        if flags & 4 != 0 {
            rotation = data.read_vec4()?;
        }
        Ok(Key { frame, position, scale, rotation })
    }
}

impl Animation {
    /// Animation settings: flags, frame count, frame rate. The chunk end is not used.
    pub fn read(data: &mut Reader, _next: u64) -> (res: Result<Animation, Error>)
        ensures
            same_data_forward(*old(data), *final(data)),
            outcome(res, final(data).at()) == spec_animation(old(data).bytes(), old(data).at()),
    {
        let flags = data.read_u32()?;
        let frames = data.read_u32()?;
        let fps = data.read_u32()?;
        Ok(Animation { flags, frames, fps })
    }
}

impl Sequence {
    /// A named frame range: name, first frame, last frame, one unused word.
    /// The chunk end is not used.
    pub fn read(data: &mut Reader, _next: u64) -> (res: Result<Sequence, Error>)
        ensures
            same_data_forward(*old(data), *final(data)),
            outcome(res, final(data).at()) == spec_sequence(old(data).bytes(), old(data).at()),
    {
        proof {
            use_type_invariant(&*data);
            crate::b3d_format::lemma_name_advances(data.bytes(), data.at());
        }
        let name = read_null_term_string(data);
        let first_frame = data.read_u32()?;
        let last_frame = data.read_u32()?;
        let unused = data.read_u32()?;
        Ok(Sequence { name, first_frame, last_frame, unused })
    }
}

impl Node {
    /// Bone weights while the position is before `next`.
    pub fn read_bones(data: &mut Reader, next: u64) -> (res: Result<Vec<Bone>, Error>)
        ensures
            same_data_forward(*old(data), *final(data)),
            outcome(res, final(data).at()) == spec_bones(old(data).bytes(), old(data).at(), next as int, Seq::empty()),
    {
        let ghost s = data.bytes();
        let mut bones: Vec<Bone> = Vec::new();
        proof {
            use_type_invariant(&*data);
        }
        while data.is_before(next)
            invariant
                data.bytes() == s,
                s == old(data).bytes(),
                old(data).at() <= data.at() <= s.len(),
                spec_bones(s, data.at(), next as int, bones@)
                    == spec_bones(s, old(data).at(), next as int, Seq::empty()),
            decreases s.len() - data.at(),
        {
            let b = Bone::read(data)?;
            bones.push(b);
        }
        Ok(bones)
    }

    /// Key records laid out as `flags` says, while the position is before `next`.
    pub fn read_keys(data: &mut Reader, next: u64, flags: u32) -> (res: Result<Vec<Key>, Error>)
        ensures
            same_data_forward(*old(data), *final(data)),
            outcome(res, final(data).at()) == spec_keys(old(data).bytes(), old(data).at(), next as int, flags, Seq::empty()),
    {
        let ghost s = data.bytes();
        let mut keys: Vec<Key> = Vec::new();
        proof {
            use_type_invariant(&*data);
        }
        while data.is_before(next)
            invariant
                data.bytes() == s,
                s == old(data).bytes(),
                old(data).at() <= data.at() <= s.len(),
                spec_keys(s, data.at(), next as int, flags, keys@)
                    == spec_keys(s, old(data).at(), next as int, flags, Seq::empty()),
            decreases s.len() - data.at(),
        {
            let k = Key::read(data, flags)?;
            keys.push(k);
        }
        Ok(keys)
    }

    /// A node: name, position (3), scale (3), rotation (4), then its chunks while the
    /// position is before `next`: MESH replaces the mesh, BONE the bone weights, ANIM the
    /// animation settings; KEYS ORs its flags into `key_flags` and appends its keys; NODE
    /// appends a child, SEQS a sequence; PIVO is skipped; any other tag is an error.
    #[verifier::loop_isolation(false)]
    pub fn read(data: &mut Reader, next: u64) -> (res: Result<Node, Error>)
        ensures
            same_data_forward(*old(data), *final(data)),
            outcome(res, final(data).at()) == spec_node(old(data).bytes(), old(data).at(), next as int),
        decreases old(data).bytes().len() - old(data).at(),
    {
        let ghost s = data.bytes();
        proof {
            use_type_invariant(&*data);
            crate::b3d_format::lemma_name_advances(s, data.at());
        }
        let name = read_null_term_string(data);
        let position = data.read_vec3()?;
        let scale = data.read_vec3()?;
        let rotation = data.read_vec4()?;

        let mut mesh = Mesh {
            brush_id: 0,
            vertices: Verts { flags: 0, tex_coord_sets: 0, tex_coord_set_size: 0, vertices: Vec::new() },
            triangles: Vec::new(),
        };
        let mut children: Vec<Node> = Vec::new();
        let mut bones: Vec<Bone> = Vec::new();
        let mut animation = Animation { flags: 0, frames: 0, fps: 0 };
        let mut sequences: Vec<Sequence> = Vec::new();
        let mut key_flags: u32 = 0;
        let mut keys: Vec<Key> = Vec::new();
        proof {
            use_type_invariant(&*data);
            assert(mesh.triangles@.map_values(|t: Tris| t@) =~= Seq::<TrisModel>::empty());
            assert(sequences@.map_values(|q: Sequence| q@) =~= Seq::<SequenceModel>::empty());
            assert(view_nodes(children@) =~= Seq::<NodeModel>::empty());
        }

        while data.is_before(next)
            invariant
                data.bytes() == s,
                old(data).at() < data.at() <= s.len(),
                spec_node_chunks(
                    s,
                    data.at(),
                    next as int,
                    NodeModel {
                        name: name@,
                        position,
                        scale,
                        rotation,
                        mesh: mesh@,
                        bones: bones@,
                        key_flags,
                        keys: keys@,
                        children: view_nodes(children@),
                        animation,
                        sequences: sequences@.map_values(|q: Sequence| q@),
                    },
                ) == spec_node(s, old(data).at(), next as int),
            decreases s.len() - data.at(),
        {
            let ghost p = data.at();
            let ghost acc = NodeModel {
                name: name@,
                position,
                scale,
                rotation,
                mesh: mesh@,
                bones: bones@,
                key_flags,
                keys: keys@,
                children: view_nodes(children@),
                animation,
                sequences: sequences@.map_values(|q: Sequence| q@),
            };
            let (chunk, tag) = Chunk::read_tagged(data)?;
            if tag == TAG_MESH {
                mesh = Mesh::read(data, chunk.next)?;
            } else if tag == TAG_BONE {
                bones = Node::read_bones(data, chunk.next)?;
            } else if tag == TAG_KEYS {
                let kf = data.read_u32()?;
                key_flags = key_flags | kf;
                let mut more = Node::read_keys(data, chunk.next, kf)?;
                keys.append(&mut more);
            } else if tag == TAG_NODE {
                let child = Node::read(data, chunk.next)?;
                let ghost before = children@;
                children.push(child);
                proof {
                    assert(children@.drop_last() =~= before);
                }
            } else if tag == TAG_ANIM {
                animation = Animation::read(data, chunk.next)?;
            } else if tag == TAG_SEQS {
                let sq = Sequence::read(data, chunk.next)?;
                let ghost before = sequences@.map_values(|q: Sequence| q@);
                sequences.push(sq);
                proof {
                    assert(sequences@.map_values(|q: Sequence| q@) =~= before.push(sq@));
                }
            } else if tag == TAG_PIVO {
                data.skip(chunk.size)?;
            } else {
                return Err(Error::InvalidChunk(chunk));
            }
            proof {
                use_type_invariant(&*data);
                assert(advanced(s, p, data.at()));
            }
        }
        Ok(Node {
            name,
            position,
            scale,
            rotation,
            mesh,
            bones,
            key_flags,
            keys,
            children,
            animation,
            sequences,
        })
    }
}

impl B3D {
    /// Textures while the position is before `next`.
    pub fn read_textures(data: &mut Reader, next: u64) -> (res: Result<Vec<Texture>, Error>)
        ensures
            same_data_forward(*old(data), *final(data)),
            outcome_list(res, final(data).at()) == spec_texture_list(old(data).bytes(), old(data).at(), next as int, Seq::empty()),
    {
        let ghost s = data.bytes();
        let mut textures: Vec<Texture> = Vec::new();
        proof {
            use_type_invariant(&*data);
            assert(textures@.map_values(|t: Texture| t@) =~= Seq::<TextureModel>::empty());
        }
        while data.is_before(next)
            invariant
                data.bytes() == s,
                s == old(data).bytes(),
                old(data).at() <= data.at() <= s.len(),
                spec_texture_list(s, data.at(), next as int, textures@.map_values(|t: Texture| t@))
                    == spec_texture_list(s, old(data).at(), next as int, Seq::empty()),
            decreases s.len() - data.at(),
        {
            let ghost p = data.at();
            let ghost before = textures@.map_values(|t: Texture| t@);
            let t = Texture::read(data)?;
            proof {
                use_type_invariant(&*data);
                crate::b3d_format::lemma_name_advances(s, p);
            }
            textures.push(t);
            proof {
                assert(textures@.map_values(|t: Texture| t@) =~= before.push(t@));
            }
        }
        Ok(textures)
    }

    /// A brush block: the number of texture ids per brush, then brushes while the
    /// position is before `next`.
    pub fn read_brushes(data: &mut Reader, next: u64) -> (res: Result<Vec<Brush>, Error>)
        ensures
            same_data_forward(*old(data), *final(data)),
            outcome_list(res, final(data).at()) == spec_brushes(old(data).bytes(), old(data).at(), next as int),
    {
        let ghost s = data.bytes();
        let n_texs = data.read_u32()?;
        let ghost p0 = data.at();
        let mut brushes: Vec<Brush> = Vec::new();
        proof {
            use_type_invariant(&*data);
            assert(brushes@.map_values(|b: Brush| b@) =~= Seq::<BrushModel>::empty());
        }
        while data.is_before(next)
            invariant
                data.bytes() == s,
                s == old(data).bytes(),
                old(data).at() <= p0 <= data.at() <= s.len(),
                spec_brushes(s, old(data).at(), next as int) == spec_brush_list(s, p0, next as int, n_texs as nat, Seq::empty()),
                spec_brush_list(s, data.at(), next as int, n_texs as nat, brushes@.map_values(|b: Brush| b@))
                    == spec_brush_list(s, p0, next as int, n_texs as nat, Seq::empty()),
            decreases s.len() - data.at(),
        {
            let ghost p = data.at();
            let ghost before = brushes@.map_values(|b: Brush| b@);
            let b = Brush::read(data, n_texs as usize)?;
            proof {
                use_type_invariant(&*data);
                crate::b3d_format::lemma_name_advances(s, p);
            }
            brushes.push(b);
            proof {
                assert(brushes@.map_values(|b: Brush| b@) =~= before.push(b@));
            }
        }
        Ok(brushes)
    }

    /// A whole file: a BB3D chunk holding the version, then top-level chunks up to its
    /// end: TEXS replaces the textures, BRUS the brushes, NODE the root node; PIVO is
    /// skipped; any other tag, or a first chunk that is not BB3D, is an error.
    #[verifier::loop_isolation(false)]
    pub fn read(bytes: &[u8]) -> (res: Result<B3D, Error>)
        requires
            bytes@.len() <= isize::MAX,
        ensures
            match res {
                Ok(b) => spec_b3d(bytes@) == Ok::<B3DModel, ErrorModel>(b@),
                Err(e) => spec_b3d(bytes@) == Err::<B3DModel, ErrorModel>(e@),
            },
    {
        let mut cursor = Reader::new(bytes);
        let ghost s = bytes@;
        let (main_chunk, tag) = Chunk::read_tagged(&mut cursor)?;
        if tag != TAG_BB3D {
            return Err(Error::InvalidChunk(main_chunk));
        }
        let version = cursor.read_u32()?;
        let ghost p0 = cursor.at();
        let mut textures: Vec<Texture> = Vec::new();
        let mut brushes: Vec<Brush> = Vec::new();
        let mut node = Node {
            name: String::new(),
            position: [0u32, 0u32, 0u32],
            scale: [0u32, 0u32, 0u32],
            rotation: [0u32, 0u32, 0u32, 0u32],
            mesh: Mesh {
                brush_id: 0,
                vertices: Verts { flags: 0, tex_coord_sets: 0, tex_coord_set_size: 0, vertices: Vec::new() },
                triangles: Vec::new(),
            },
            bones: Vec::new(),
            key_flags: 0,
            keys: Vec::new(),
            children: Vec::new(),
            animation: Animation { flags: 0, frames: 0, fps: 0 },
            sequences: Vec::new(),
        };
        proof {
            use_type_invariant(&cursor);
            assert(textures@.map_values(|t: Texture| t@) =~= Seq::<TextureModel>::empty());
            assert(brushes@.map_values(|b: Brush| b@) =~= Seq::<BrushModel>::empty());
            assert(node.mesh.triangles@.map_values(|t: Tris| t@) =~= Seq::<TrisModel>::empty());
            assert(node.sequences@.map_values(|q: Sequence| q@) =~= Seq::<SequenceModel>::empty());
            assert(view_nodes(node.children@) =~= Seq::<NodeModel>::empty());
            assert(node@ == empty_node());
        }
        while cursor.is_before(main_chunk.next)
            invariant
                cursor.bytes() == s,
                p0 <= cursor.at() <= s.len(),
                spec_top_chunks(
                    s,
                    cursor.at(),
                    main_chunk.next as int,
                    B3DModel {
                        version,
                        textures: textures@.map_values(|t: Texture| t@),
                        brushes: brushes@.map_values(|b: Brush| b@),
                        node: node@,
                    },
                ) == spec_top_chunks(
                    s,
                    p0,
                    main_chunk.next as int,
                    B3DModel { version, textures: Seq::empty(), brushes: Seq::empty(), node: empty_node() },
                ),
            decreases s.len() - cursor.at(),
        {
            let ghost p = cursor.at();
            let (chunk, tag) = Chunk::read_tagged(&mut cursor)?;
            if tag == TAG_TEXS {
                textures = B3D::read_textures(&mut cursor, chunk.next)?;
            } else if tag == TAG_BRUS {
                brushes = B3D::read_brushes(&mut cursor, chunk.next)?;
            } else if tag == TAG_NODE {
                node = Node::read(&mut cursor, chunk.next)?;
            } else if tag == TAG_PIVO {
                cursor.skip(chunk.size)?;
            } else {
                return Err(Error::InvalidChunk(chunk));
            }
            proof {
                use_type_invariant(&cursor);
                assert(advanced(s, p, cursor.at()));
            }
        }
        Ok(B3D { version, textures, brushes, node })
    }
}

} // verus!