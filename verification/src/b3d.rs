//! From the parsed B3D tree to the pieces a glTF file needs: the skeleton, the
//! vertex-to-joint mapping, the animation clips and the mesh geometry.
//! Floats are IEEE-754 bit patterns.
use vstd::prelude::*;
use vstd::string::StringExecFns;
use crate::b3d_format::{NodeModel, SequenceModel, has_normal};
use crate::b3d_parser::{B3D, Bone, Key, Node, Sequence, Tris, Vertice, view_nodes};
use crate::math::{is_positive, is_positive_bits, neg, neg_bits, root_pos};

verus! {

/// Per-vertex skinning data (B3D stores at most one bone per vertex).
#[derive(Debug, Clone, Copy, PartialEq, Eq)]
pub struct BoneWeight {
    pub joint_idx: u32,
    pub weight: u32,
}

/// A group of triangle indices sharing a material (brush).
#[derive(Debug)]
pub struct TriGroup {
    pub brush_id: u32,
    pub indices: Vec<u32>,
}

pub ghost struct TriGroupModel {
    pub brush_id: u32,
    pub indices: Seq<u32>,
}

impl View for TriGroup {
    type V = TriGroupModel;

    open spec fn view(&self) -> TriGroupModel {
        TriGroupModel { brush_id: self.brush_id, indices: self.indices@ }
    }
}

/// Mesh geometry in glTF space.
#[derive(Debug)]
pub struct MeshData {
    pub positions: Vec<[u32; 3]>,
    pub normals: Vec<[u32; 3]>,
    pub uvs: Vec<[u32; 2]>,
    pub tri_groups: Vec<TriGroup>,
    pub skin: Vec<Option<BoneWeight>>,
}

/// A keyframe as `(frame, position, scale, rotation)`.
pub type KeyTuple = (u32, [u32; 3], [u32; 3], [u32; 4]);

/// One joint (bone) of the skeleton.
#[derive(Debug)]
pub struct JointInfo {
    pub name: String,
    /// Local bind-pose translation (B3D coordinates).
    pub position: [u32; 3],
    /// Local bind-pose scale.
    pub scale: [u32; 3],
    /// Local bind-pose rotation quaternion `[w, x, y, z]`.
    pub rotation: [u32; 4],
    /// Index of the parent joint in the flattened list, or `None` for a root joint.
    pub parent: Option<usize>,
    /// Keyframes.
    pub keys: Vec<KeyTuple>,
}

pub ghost struct JointModel {
    pub name: Seq<char>,
    pub position: [u32; 3],
    pub scale: [u32; 3],
    pub rotation: [u32; 4],
    pub parent: Option<usize>,
    pub keys: Seq<KeyTuple>,
}

impl View for JointInfo {
    type V = JointModel;

    open spec fn view(&self) -> JointModel {
        JointModel {
            name: self.name@,
            position: self.position,
            scale: self.scale,
            rotation: self.rotation,
            parent: self.parent,
            keys: self.keys@,
        }
    }
}

/// A named animation clip.
#[derive(Debug)]
pub struct AnimClip {
    pub name: String,
    /// Frames per second (bit pattern).
    pub fps: u32,
    pub first_frame: u32,
    pub last_frame: u32,
}

pub ghost struct AnimClipModel {
    pub name: Seq<char>,
    pub fps: u32,
    pub first_frame: u32,
    pub last_frame: u32,
}

impl View for AnimClip {
    type V = AnimClipModel;

    open spec fn view(&self) -> AnimClipModel {
        AnimClipModel { name: self.name@, fps: self.fps, first_frame: self.first_frame, last_frame: self.last_frame }
    }
}

/// The joint list's models.
pub open spec fn joint_models(js: Seq<JointInfo>) -> Seq<JointModel> {
    js.map_values(|j: JointInfo| j@)
}

/// A keyframe as a tuple.
pub open spec fn key_tuple(k: Key) -> KeyTuple {
    (k.frame, k.position, k.scale, k.rotation)
}

/// The joint that a (non-root) node becomes.
pub open spec fn joint_of(n: NodeModel, parent: Option<usize>) -> JointModel {
    JointModel {
        name: n.name,
        position: n.position,
        scale: n.scale,
        rotation: n.rotation,
        parent,
        keys: n.keys.map_values(|k: Key| key_tuple(k)),
    }
}

/// The vertex-to-joint map after a node's bones assign joint `idx` to their vertices
/// (in order, so a later bone of the same vertex wins); vertices at or past `vcount`
/// are left alone.
pub open spec fn apply_bones(vj: Seq<Option<(usize, u32)>>, bones: Seq<Bone>, idx: usize, vcount: nat) -> Seq<Option<(usize, u32)>>
    decreases bones.len(),
{
    if bones.len() == 0 {
        vj
    } else {
        let vj2 = apply_bones(vj, bones.drop_last(), idx, vcount);
        let b = bones.last();
        if (b.vertex_id as nat) < vcount {
            vj2.update(b.vertex_id as int, Some((idx, b.weight)))
        } else {
            vj2
        }
    }
}

/// The state that the skeleton walk threads through the tree: joints so far and the
/// vertex-to-joint map.
pub type WalkState = (Seq<JointModel>, Seq<Option<(usize, u32)>>);

/// The depth-first walk of `collect_joints`: a non-root node appends its joint (whose
/// index is the list's length before it), its bones then point their vertices at that
/// index (index 0 for the root), and its children follow, each whole subtree in turn,
/// with this joint as parent (no parent under the root).
pub open spec fn walk(n: NodeModel, parent: Option<usize>, st: WalkState, vcount: nat, is_root: bool) -> WalkState
    decreases n, 1int,
{
    let idx: usize = if is_root { 0 } else { st.0.len() as usize };
    let joints = if is_root { st.0 } else { st.0.push(joint_of(n, parent)) };
    let vj = apply_bones(st.1, n.bones, idx, vcount);
    let child_parent: Option<usize> = if is_root { None } else { Some(idx) };
    walk_children(n.children, child_parent, (joints, vj), vcount)
}

/// `walk` over a list of sibling subtrees, in order.
pub open spec fn walk_children(cs: Seq<NodeModel>, parent: Option<usize>, st: WalkState, vcount: nat) -> WalkState
    decreases cs, 0int,
{
    if cs.len() == 0 {
        st
    } else {
        walk_children(cs.subrange(1, cs.len() as int), parent, walk(cs[0], parent, st, vcount, false), vcount)
    }
}

/// The models of a node list, element by element.
pub proof fn lemma_view_nodes(ns: Seq<Node>)
    ensures
        view_nodes(ns).len() == ns.len(),
        forall|i: int| 0 <= i < ns.len() ==> #[trigger] view_nodes(ns)[i] == ns[i]@,
    decreases ns.len(),
{
    if ns.len() > 0 {
        lemma_view_nodes(ns.drop_last());
    }
}

/// The keyframes of a node as tuples.
fn key_tuples(keys: &Vec<Key>) -> (r: Vec<KeyTuple>)
    ensures
        r@ == keys@.map_values(|k: Key| key_tuple(k)),
{
    let mut r: Vec<KeyTuple> = Vec::new();
    let mut i: usize = 0;
    while i < keys.len()
        invariant
            i <= keys@.len(),
            r@ =~= keys@.subrange(0, i as int).map_values(|k: Key| key_tuple(k)),
        decreases keys@.len() - i,
    {
        let k = keys[i];
        r.push((k.frame, k.position, k.scale, k.rotation));
        i = i + 1;
    }
    assert(keys@.subrange(0, keys@.len() as int) =~= keys@);
    r
}

/// Points each bone's vertex (when below `vcount`) at joint `idx`.
fn assign_bones(bones: &Vec<Bone>, idx: usize, vertex_joint: &mut Vec<Option<(usize, u32)>>, vcount: usize)
    requires
        vcount <= old(vertex_joint)@.len(),
    ensures
        final(vertex_joint)@ == apply_bones(old(vertex_joint)@, bones@, idx, vcount as nat),
{
    let mut i: usize = 0;
    while i < bones.len()
        invariant
            i <= bones@.len(),
            vcount <= vertex_joint@.len(),
            vertex_joint@ == apply_bones(old(vertex_joint)@, bones@.subrange(0, i as int), idx, vcount as nat),
        decreases bones@.len() - i,
    {
        let b = bones[i];
        let vi = b.vertex_id as usize;
        proof {
            assert(bones@.subrange(0, i + 1).drop_last() =~= bones@.subrange(0, i as int));
        }
        if vi < vcount {
            vertex_joint.set(vi, Some((idx, b.weight)));
        }
        i = i + 1;
    }
    assert(bones@.subrange(0, bones@.len() as int) =~= bones@);
}

/// Traverses the node tree depth-first, appending one joint per non-root node and
/// pointing each bone's vertex (when below `vcount`) at its node's joint.
///
/// Call it with `is_root = true` on the mesh node: the root is the skinned mesh, not a
/// bone, so it gets no joint; its bones point at joint 0 and its children have no parent.
/// Every other node's joint index is the joint count before it, and its children get it
/// as their parent.
pub fn collect_joints(
    node: &Node,
    parent: Option<usize>,
    joints: &mut Vec<JointInfo>,
    vertex_joint: &mut Vec<Option<(usize, u32)>>,
    vcount: usize,
    is_root: bool,
)
    requires
        vcount <= old(vertex_joint)@.len(),
    ensures
        (joint_models(final(joints)@), final(vertex_joint)@)
            == walk(node@, parent, (joint_models(old(joints)@), old(vertex_joint)@), vcount as nat, is_root),
        final(vertex_joint)@.len() == old(vertex_joint)@.len(),
    decreases node@,
{
    let idx = if is_root { 0 } else { joints.len() };
    if !is_root {
        let keys = key_tuples(&node.keys);
        let ghost before = joint_models(joints@);
        joints.push(JointInfo {
            name: node.name.clone(),
            position: node.position,
            scale: node.scale,
            rotation: node.rotation,
            parent,
            keys,
        });
        proof {
            assert(joint_models(joints@) =~= before.push(joint_of(node@, parent)));
        }
    }
    assign_bones(&node.bones, idx, vertex_joint, vcount);
    proof {
        lemma_apply_bones_len(old(vertex_joint)@, node.bones@, idx, vcount as nat);
    }

    let child_parent = if is_root { None } else { Some(idx) };
    let ghost cs = view_nodes(node.children@);
    let ghost after_self = (joint_models(joints@), vertex_joint@);
    proof {
        lemma_view_nodes(node.children@);
        assert(cs.subrange(0, cs.len() as int) =~= cs);
    }
    let mut i: usize = 0;
    while i < node.children.len()
        invariant
            i <= node.children@.len(),
            cs == view_nodes(node.children@),
            cs.len() == node.children@.len(),
            forall|j: int| 0 <= j < node.children@.len() ==> #[trigger] cs[j] == node.children@[j]@,
            vcount <= vertex_joint@.len(),
            vertex_joint@.len() == old(vertex_joint)@.len(),
            walk_children(cs.subrange(i as int, cs.len() as int), child_parent, (joint_models(joints@), vertex_joint@), vcount as nat)
                == walk_children(cs, child_parent, after_self, vcount as nat),
        decreases node.children@.len() - i,
    {
        proof {
            let rest = cs.subrange(i as int, cs.len() as int);
            assert(rest.subrange(1, rest.len() as int) =~= cs.subrange(i + 1, cs.len() as int));
            assert(rest[0] == cs[i as int]);
            assert(decreases_to!(node@ => node.children@[i as int]@)) by {
                assert(node@.children[i as int] == node.children@[i as int]@);
            }
        }
        collect_joints(&node.children[i], child_parent, joints, vertex_joint, vcount, false);
        i = i + 1;
    }
    proof {
        assert(cs.subrange(cs.len() as int, cs.len() as int) =~= Seq::<NodeModel>::empty());
    }
}

/// Applying bones keeps the map's length.
pub proof fn lemma_apply_bones_len(vj: Seq<Option<(usize, u32)>>, bones: Seq<Bone>, idx: usize, vcount: nat)
    requires
        vcount <= vj.len(),
    ensures
        apply_bones(vj, bones, idx, vcount).len() == vj.len(),
    decreases bones.len(),
{
    if bones.len() > 0 {
        lemma_apply_bones_len(vj, bones.drop_last(), idx, vcount);
    }
}

/// Every joint's parent stands before it in the list.
pub open spec fn parents_first(js: Seq<JointModel>) -> bool {
    forall|i: int| 0 <= i < js.len() ==> match #[trigger] js[i].parent {
        Some(p) => (p as int) < i,
        None => true,
    }
}

/// The number of nodes in a tree.
pub open spec fn node_count(n: NodeModel) -> nat
    decreases n, 1int,
{
    1 + forest_count(n.children)
}

/// The number of nodes in a list of trees.
pub open spec fn forest_count(cs: Seq<NodeModel>) -> nat
    decreases cs, 0int,
{
    if cs.len() == 0 {
        0
    } else {
        node_count(cs[0]) + forest_count(cs.subrange(1, cs.len() as int))
    }
}

/// The walk keeps the joints it was given, in place, adds one joint per non-root node,
/// and keeps parents before children as long as the parent it is handed already stands
/// in the list.
pub proof fn lemma_walk_parents_first(n: NodeModel, parent: Option<usize>, st: WalkState, vcount: nat, is_root: bool)
    requires
        parents_first(st.0),
        st.0.len() + node_count(n) <= usize::MAX,
        parent matches Some(p) ==> (p as int) < st.0.len(),
    ensures
        parents_first(walk(n, parent, st, vcount, is_root).0),
        walk(n, parent, st, vcount, is_root).0.len() == st.0.len() + (if is_root { 0int } else { 1int }) + forest_count(n.children),
        walk(n, parent, st, vcount, is_root).0.subrange(0, st.0.len() as int) == st.0,
    decreases n, 1int,
{
    let idx: usize = if is_root { 0 } else { st.0.len() as usize };
    let joints = if is_root { st.0 } else { st.0.push(joint_of(n, parent)) };
    let vj = apply_bones(st.1, n.bones, idx, vcount);
    let child_parent: Option<usize> = if is_root { None } else { Some(idx) };
    assert(parents_first(joints));
    assert(joints.subrange(0, st.0.len() as int) =~= st.0);
    lemma_walk_children_parents_first(n.children, child_parent, (joints, vj), vcount);
    let r = walk_children(n.children, child_parent, (joints, vj), vcount);
    assert(r.0.subrange(0, st.0.len() as int) =~= r.0.subrange(0, joints.len() as int).subrange(0, st.0.len() as int));
}

/// `lemma_walk_parents_first` over a list of sibling subtrees.
pub proof fn lemma_walk_children_parents_first(cs: Seq<NodeModel>, parent: Option<usize>, st: WalkState, vcount: nat)
    requires
        parents_first(st.0),
        st.0.len() + forest_count(cs) <= usize::MAX,
        parent matches Some(p) ==> (p as int) < st.0.len(),
    ensures
        parents_first(walk_children(cs, parent, st, vcount).0),
        walk_children(cs, parent, st, vcount).0.len() == st.0.len() + forest_count(cs),
        walk_children(cs, parent, st, vcount).0.subrange(0, st.0.len() as int) == st.0,
    decreases cs, 0int,
{
    if cs.len() == 0 {
        assert(st.0.subrange(0, st.0.len() as int) =~= st.0);
    } else {
        lemma_walk_parents_first(cs[0], parent, st, vcount, false);
        let st1 = walk(cs[0], parent, st, vcount, false);
        lemma_walk_children_parents_first(cs.subrange(1, cs.len() as int), parent, st1, vcount);
        let r = walk_children(cs.subrange(1, cs.len() as int), parent, st1, vcount);
        assert(r.0.subrange(0, st.0.len() as int) =~= r.0.subrange(0, st1.0.len() as int).subrange(0, st.0.len() as int));
    }
}

/// Law: the joints that `collect_joints` gathers into an empty list, started on the mesh
/// node, are ordered parent before child (a child's parent index is below its own), one
/// joint per node below the root. Computing world matrices in one pass relies on this.
pub proof fn lemma_collect_joints_parents_first(n: NodeModel, vertex_joint: Seq<Option<(usize, u32)>>, vcount: nat)
    requires
        node_count(n) <= usize::MAX,
    ensures
        parents_first(walk(n, None, (Seq::empty(), vertex_joint), vcount, true).0),
        walk(n, None, (Seq::empty(), vertex_joint), vcount, true).0.len() == node_count(n) - 1,
{
    lemma_walk_parents_first(n, None, (Seq::empty(), vertex_joint), vcount, true);
}

/// Every joint index in the vertex map is 0 or below `n`.
pub open spec fn joint_indices_below(vj: Seq<Option<(usize, u32)>>, n: nat) -> bool {
    forall|i: int| 0 <= i < vj.len() ==> match #[trigger] vj[i] {
        Some((j, _)) => j == 0 || (j as int) < n,
        None => true,
    }
}

/// Applying bones with joint `idx` keeps every joint index 0 or below `n`, when `idx` is.
proof fn lemma_apply_bones_below(vj: Seq<Option<(usize, u32)>>, bones: Seq<Bone>, idx: usize, vcount: nat, n: nat)
    requires
        joint_indices_below(vj, n),
        idx == 0 || (idx as int) < n,
        vcount <= vj.len(),
    ensures
        joint_indices_below(apply_bones(vj, bones, idx, vcount), n),
    decreases bones.len(),
{
    if bones.len() > 0 {
        lemma_apply_bones_below(vj, bones.drop_last(), idx, vcount, n);
        lemma_apply_bones_len(vj, bones.drop_last(), idx, vcount);
        let vj2 = apply_bones(vj, bones.drop_last(), idx, vcount);
        let b = bones.last();
        if (b.vertex_id as nat) < vcount {
            let vj3 = vj2.update(b.vertex_id as int, Some((idx, b.weight)));
            assert forall|i: int| 0 <= i < vj3.len() implies match #[trigger] vj3[i] {
                Some((j, _)) => j == 0 || (j as int) < n,
                None => true,
            } by {
                if i != b.vertex_id as int {
                    assert(vj3[i] == vj2[i]);
                }
            }
        }
    }
}

/// The walk never shortens the joint list, and keeps every joint index in the vertex map
/// 0 or below the list's length.
proof fn lemma_walk_joint_indices(n: NodeModel, parent: Option<usize>, st: WalkState, vcount: nat, is_root: bool)
    requires
        joint_indices_below(st.1, st.0.len()),
        st.0.len() + node_count(n) <= usize::MAX,
        vcount <= st.1.len(),
    ensures
        walk(n, parent, st, vcount, is_root).0.len() >= st.0.len(),
        walk(n, parent, st, vcount, is_root).1.len() == st.1.len(),
        joint_indices_below(walk(n, parent, st, vcount, is_root).1, walk(n, parent, st, vcount, is_root).0.len()),
    decreases n, 1int,
{
    let idx: usize = if is_root { 0 } else { st.0.len() as usize };
    let joints = if is_root { st.0 } else { st.0.push(joint_of(n, parent)) };
    lemma_apply_bones_below(st.1, n.bones, idx, vcount, joints.len());
    lemma_apply_bones_len(st.1, n.bones, idx, vcount);
    assert(node_count(n) == 1 + forest_count(n.children));
    let vj = apply_bones(st.1, n.bones, idx, vcount);
    let child_parent: Option<usize> = if is_root { None } else { Some(idx) };
    lemma_walk_children_joint_indices(n.children, child_parent, (joints, vj), vcount);
}

/// `lemma_walk_joint_indices` over a list of sibling subtrees.
proof fn lemma_walk_children_joint_indices(cs: Seq<NodeModel>, parent: Option<usize>, st: WalkState, vcount: nat)
    requires
        joint_indices_below(st.1, st.0.len()),
        st.0.len() + forest_count(cs) <= usize::MAX,
        vcount <= st.1.len(),
    ensures
        walk_children(cs, parent, st, vcount).0.len() >= st.0.len(),
        walk_children(cs, parent, st, vcount).1.len() == st.1.len(),
        joint_indices_below(walk_children(cs, parent, st, vcount).1, walk_children(cs, parent, st, vcount).0.len()),
    decreases cs, 0int,
{
    if cs.len() > 0 {
        lemma_walk_joint_indices(cs[0], parent, st, vcount, false);
        let st1 = walk(cs[0], parent, st, vcount, false);
        lemma_walk_length(cs[0], parent, st, vcount, false);
        assert(node_count(cs[0]) == 1 + forest_count(cs[0].children));
        lemma_walk_children_joint_indices(cs.subrange(1, cs.len() as int), parent, st1, vcount);
    }
}

/// The walk adds one joint per non-root node.
proof fn lemma_walk_length(n: NodeModel, parent: Option<usize>, st: WalkState, vcount: nat, is_root: bool)
    ensures
        walk(n, parent, st, vcount, is_root).0.len() == st.0.len() + (if is_root { 0int } else { 1int }) + forest_count(n.children),
    decreases n, 1int,
{
    let idx: usize = if is_root { 0 } else { st.0.len() as usize };
    let joints = if is_root { st.0 } else { st.0.push(joint_of(n, parent)) };
    let vj = apply_bones(st.1, n.bones, idx, vcount);
    let child_parent: Option<usize> = if is_root { None } else { Some(idx) };
    lemma_walk_children_length(n.children, child_parent, (joints, vj), vcount);
}

/// `lemma_walk_length` over a list of sibling subtrees.
proof fn lemma_walk_children_length(cs: Seq<NodeModel>, parent: Option<usize>, st: WalkState, vcount: nat)
    ensures
        walk_children(cs, parent, st, vcount).0.len() == st.0.len() + forest_count(cs),
    decreases cs, 0int,
{
    if cs.len() > 0 {
        lemma_walk_length(cs[0], parent, st, vcount, false);
        let st1 = walk(cs[0], parent, st, vcount, false);
        lemma_walk_children_length(cs.subrange(1, cs.len() as int), parent, st1, vcount);
        assert(node_count(cs[0]) == 1 + forest_count(cs[0].children));
    }
}

/// Law: started on the mesh node with no vertex assigned, `collect_joints` assigns each
/// vertex a joint index that names a joint of the list it gathers, or 0 (the index the
/// mesh node's own bones use, which names no joint only when the list stays empty).
pub proof fn lemma_collect_joints_vertex_joints_valid(n: NodeModel, vertex_joint: Seq<Option<(usize, u32)>>, vcount: nat)
    requires
        node_count(n) <= usize::MAX,
        vcount <= vertex_joint.len(),
        forall|i: int| 0 <= i < vertex_joint.len() ==> #[trigger] vertex_joint[i] is None,
    ensures
        joint_indices_below(
            walk(n, None, (Seq::empty(), vertex_joint), vcount, true).1,
            walk(n, None, (Seq::empty(), vertex_joint), vcount, true).0.len(),
        ),
{
    assert(joint_indices_below(vertex_joint, 0));
    lemma_walk_joint_indices(n, None, (Seq::empty(), vertex_joint), vcount, true);
}

/// The frame rate used when a node's animation gives none (30 frames per second).
pub const DEFAULT_FPS: u32 = 0x41F0_0000;

/// A node's clip frame rate: its animation's rate when greater than zero, else 30.
pub open spec fn clip_fps(n: NodeModel) -> u32 {
    if is_positive_bits(n.animation.fps) { n.animation.fps } else { DEFAULT_FPS }
}

/// The clip a sequence names.
pub open spec fn clip_of(q: SequenceModel, fps: u32) -> AnimClipModel {
    AnimClipModel { name: q.name, fps, first_frame: q.first_frame, last_frame: q.last_frame }
}

/// The clips of a node: one per sequence when it has sequences; otherwise one clip named
/// "default" over frames `0..=frames - 1` when the animation has more than one frame;
/// otherwise none.
pub open spec fn spec_anims(n: NodeModel) -> Seq<AnimClipModel> {
    let fps = clip_fps(n);
    if n.sequences.len() > 0 {
        n.sequences.map_values(|q: SequenceModel| clip_of(q, fps))
    } else if n.animation.frames > 1 {
        seq![AnimClipModel { name: "default"@, fps, first_frame: 0, last_frame: (n.animation.frames - 1) as u32 }]
    } else {
        Seq::empty()
    }
}

/// Collects the named animation clips of a node.
pub fn collect_anims(node: &Node) -> (anims: Vec<AnimClip>)
    ensures
        anims@.map_values(|a: AnimClip| a@) == spec_anims(node@),
{
    let mut anims: Vec<AnimClip> = Vec::new();
    let fps = if is_positive(node.animation.fps) { node.animation.fps } else { DEFAULT_FPS };
    let ghost seqs = node.sequences@.map_values(|q: Sequence| q@);
    assert(node@.sequences == seqs);

    if node.sequences.len() > 0 {
        let mut i: usize = 0;
        while i < node.sequences.len()
            invariant
                i <= node.sequences@.len(),
                seqs == node.sequences@.map_values(|q: Sequence| q@),
                fps == clip_fps(node@),
                anims@.map_values(|a: AnimClip| a@) =~= seqs.subrange(0, i as int).map_values(|q: SequenceModel| clip_of(q, fps)),
            decreases node.sequences@.len() - i,
        {
            let q = &node.sequences[i];
            let ghost before = anims@.map_values(|a: AnimClip| a@);
            anims.push(AnimClip { name: q.name.clone(), fps, first_frame: q.first_frame, last_frame: q.last_frame });
            proof {
                assert(anims@.map_values(|a: AnimClip| a@) =~= before.push(clip_of(seqs[i as int], fps)));
                assert(seqs.subrange(0, i + 1).map_values(|q: SequenceModel| clip_of(q, fps))
                    =~= seqs.subrange(0, i as int).map_values(|q: SequenceModel| clip_of(q, fps)).push(clip_of(seqs[i as int], fps)));
            }
            i = i + 1;
        }
        assert(seqs.subrange(0, seqs.len() as int) =~= seqs);
    } else if node.animation.frames > 1 {
        anims.push(AnimClip {
            name: String::from_str("default"),
            fps,
            first_frame: 0,
            last_frame: node.animation.frames - 1,
        });
        assert(anims@.map_values(|a: AnimClip| a@) =~= spec_anims(node@));
    } else {
        assert(anims@.map_values(|a: AnimClip| a@) =~= spec_anims(node@));
    }
    anims
}

/// A node with sequences has one clip per sequence, in order: the k-th clip has the k-th
/// sequence's name and frame range, at the animation's frame rate when that is greater
/// than zero and at 30 otherwise. A node without sequences has one clip, "default", over
/// frames `0..=frames - 1` when its animation has more than one frame, and none otherwise.
pub proof fn lemma_one_clip_per_sequence(n: NodeModel)
    ensures
        n.sequences.len() > 0 ==> spec_anims(n).len() == n.sequences.len(),
        n.sequences.len() > 0 ==> forall|k: int| 0 <= k < n.sequences.len() ==> {
            let a = #[trigger] spec_anims(n)[k];
            &&& a.name == n.sequences[k].name
            &&& a.first_frame == n.sequences[k].first_frame
            &&& a.last_frame == n.sequences[k].last_frame
            &&& a.fps == if 0 < n.animation.fps <= 0x7F80_0000 { n.animation.fps } else { DEFAULT_FPS }
        },
        n.sequences.len() == 0 && n.animation.frames > 1 ==> spec_anims(n) == seq![
            AnimClipModel {
                name: "default"@,
                fps: if 0 < n.animation.fps <= 0x7F80_0000 { n.animation.fps } else { DEFAULT_FPS },
                first_frame: 0,
                last_frame: (n.animation.frames - 1) as u32,
            },
        ],
        n.sequences.len() == 0 && n.animation.frames <= 1 ==> spec_anims(n).len() == 0,
{
}

pub ghost struct MeshDataModel {
    pub positions: Seq<[u32; 3]>,
    pub normals: Seq<[u32; 3]>,
    pub uvs: Seq<[u32; 2]>,
    pub tri_groups: Seq<TriGroupModel>,
    pub skin: Seq<Option<BoneWeight>>,
}

impl View for MeshData {
    type V = MeshDataModel;

    open spec fn view(&self) -> MeshDataModel {
        MeshDataModel {
            positions: self.positions@,
            normals: self.normals@,
            uvs: self.uvs@,
            tri_groups: self.tri_groups@.map_values(|t: TriGroup| t@),
            skin: self.skin@,
        }
    }
}

/// A B3D vector in glTF space: Z negated.
pub open spec fn flip_z(p: [u32; 3]) -> [u32; 3] {
    [p[0], p[1], neg_bits(p[2])]
}

/// Triangle indices with the winding flipped (B3D is clockwise, glTF counter-clockwise):
/// each face `[a, b, c]` becomes `a, c, b`.
pub open spec fn flip_winding(faces: Seq<[u32; 3]>) -> Seq<u32>
    decreases faces.len(),
{
    if faces.len() == 0 {
        Seq::empty()
    } else {
        flip_winding(faces.drop_last()) + seq![faces.last()[0], faces.last()[2], faces.last()[1]]
    }
}

/// The mesh geometry of a file's root node, in glTF space: positions and stored normals
/// with Z negated, the texture coordinates, one triangle group per triangle block with
/// the winding flipped, and no skinning.
pub open spec fn spec_mesh_data(b: crate::b3d_format::B3DModel) -> MeshDataModel {
    let vs = b.node.mesh.vertices.vertices;
    MeshDataModel {
        positions: vs.map_values(|v: Vertice| flip_z(v.position)),
        normals: vs.map_values(|v: Vertice| flip_z(v.normal)),
        uvs: vs.map_values(|v: Vertice| v.tex_coords),
        tri_groups: b.node.mesh.triangles.map_values(
            |t: crate::b3d_format::TrisModel| TriGroupModel { brush_id: t.brush_id, indices: flip_winding(t.indices) },
        ),
        skin: Seq::new(vs.len(), |i: int| None),
    }
}

/// Stored normals go to glTF space as the positions do: the i-th normal and the i-th
/// position of the mesh are the file's i-th vertex normal and position with Z negated,
/// one of each per vertex; the texture coordinates are kept as stored, and no vertex is
/// bound to a joint yet.
pub proof fn lemma_mesh_normals_flip_with_positions(b: crate::b3d_format::B3DModel)
    ensures
        spec_mesh_data(b).positions.len() == b.node.mesh.vertices.vertices.len(),
        spec_mesh_data(b).normals.len() == b.node.mesh.vertices.vertices.len(),
        spec_mesh_data(b).uvs.len() == b.node.mesh.vertices.vertices.len(),
        spec_mesh_data(b).skin.len() == b.node.mesh.vertices.vertices.len(),
        forall|i: int| 0 <= i < b.node.mesh.vertices.vertices.len() ==> {
            let v = b.node.mesh.vertices.vertices[i];
            &&& #[trigger] spec_mesh_data(b).normals[i] == [v.normal[0], v.normal[1], neg_bits(v.normal[2])]
            &&& spec_mesh_data(b).positions[i] == [v.position[0], v.position[1], neg_bits(v.position[2])]
            &&& spec_mesh_data(b).uvs[i] == v.tex_coords
            &&& spec_mesh_data(b).skin[i] is None
        },
{
}

/// The file stores no normals but has triangles: the normals must then be computed from
/// the faces, which takes float arithmetic and is done by the caller.
pub open spec fn spec_normals_missing(b: crate::b3d_format::B3DModel) -> bool {
    !has_normal(b.node.mesh.vertices.flags) && b.node.mesh.triangles.len() > 0
}

/// Whether the normals of `collect_mesh` must be computed from the faces.
pub fn normals_missing(b3d: &B3D) -> (r: bool)
    ensures
        r == spec_normals_missing(b3d@),
{
    b3d.node.mesh.vertices.flags & 1 == 0 && b3d.node.mesh.triangles.len() > 0
}

/// One triangle block's indices with the winding flipped.
fn flipped_indices(tris: &Tris) -> (r: Vec<u32>)
    ensures
        r@ == flip_winding(tris.indices@),
{
    let mut r: Vec<u32> = Vec::new();
    let mut i: usize = 0;
    while i < tris.indices.len()
        invariant
            i <= tris.indices@.len(),
            r@ == flip_winding(tris.indices@.subrange(0, i as int)),
        decreases tris.indices@.len() - i,
    {
        let f = tris.indices[i];
        proof {
            assert(tris.indices@.subrange(0, i + 1).drop_last() =~= tris.indices@.subrange(0, i as int));
        }
        r.push(f[0]);
        r.push(f[2]);
        r.push(f[1]);
        proof {
            assert(r@ =~= flip_winding(tris.indices@.subrange(0, i + 1)));
        }
        i = i + 1;
    }
    assert(tris.indices@.subrange(0, tris.indices@.len() as int) =~= tris.indices@);
    r
}

/// Extracts the mesh geometry of the root node (see `spec_mesh_data`). When the file
/// stores no normals and there are triangles, the normals returned are the zero vectors
/// read from the file, and `normals_missing` says they must be computed from the faces.
pub fn collect_mesh(b3d: &B3D) -> (m: MeshData)
    ensures
        m@ == spec_mesh_data(b3d@),
{
    let verts = &b3d.node.mesh.vertices;
    let vc = verts.vertices.len();
    let ghost vs = verts.vertices@;
    let mut positions: Vec<[u32; 3]> = Vec::new();
    let mut normals: Vec<[u32; 3]> = Vec::new();
    let mut uvs: Vec<[u32; 2]> = Vec::new();
    let mut skin: Vec<Option<BoneWeight>> = Vec::new();
    let mut i: usize = 0;
    while i < vc
        invariant
            vc == vs.len(),
            vs == verts.vertices@,
            i <= vc,
            positions@ =~= vs.subrange(0, i as int).map_values(|v: Vertice| flip_z(v.position)),
            normals@ =~= vs.subrange(0, i as int).map_values(|v: Vertice| flip_z(v.normal)),
            uvs@ =~= vs.subrange(0, i as int).map_values(|v: Vertice| v.tex_coords),
            skin@ =~= Seq::new(i as nat, |j: int| None::<BoneWeight>),
        decreases vc - i,
    {
        let v = verts.vertices[i];
        positions.push(root_pos(v.position));
        normals.push([v.normal[0], v.normal[1], neg(v.normal[2])]);
        uvs.push([v.tex_coords[0], v.tex_coords[1]]);
        skin.push(None);
        proof {
            assert([v.tex_coords[0], v.tex_coords[1]] =~= v.tex_coords);
        }
        i = i + 1;
    }
    proof {
        assert(vs.subrange(0, vc as int) =~= vs);
    }

    let mut tri_groups: Vec<TriGroup> = Vec::new();
    let ghost ts = b3d.node.mesh.triangles@;
    let mut k: usize = 0;
    while k < b3d.node.mesh.triangles.len()
        invariant
            ts == b3d.node.mesh.triangles@,
            k <= ts.len(),
            tri_groups@.map_values(|t: TriGroup| t@) =~= ts.subrange(0, k as int).map_values(
                |t: Tris| TriGroupModel { brush_id: t.brush_id, indices: flip_winding(t.indices@) },
            ),
        decreases ts.len() - k,
    {
        let tris = &b3d.node.mesh.triangles[k];
        let indices = flipped_indices(tris);
        let ghost before = tri_groups@.map_values(|t: TriGroup| t@);
        tri_groups.push(TriGroup { brush_id: tris.brush_id, indices });
        proof {
            assert(tri_groups@.map_values(|t: TriGroup| t@) =~= before.push(
                TriGroupModel { brush_id: tris.brush_id, indices: flip_winding(tris.indices@) },
            ));
        }
        k = k + 1;
    }
    proof {
        assert(ts.subrange(0, ts.len() as int) =~= ts);
        let a = ts.map_values(|t: Tris| TriGroupModel { brush_id: t.brush_id, indices: flip_winding(t.indices@) });
        let b = b3d@.node.mesh.triangles.map_values(
            |t: crate::b3d_format::TrisModel| TriGroupModel { brush_id: t.brush_id, indices: flip_winding(t.indices) },
        );
        assert(a =~= b);
    }
    MeshData { positions, normals, uvs, tri_groups, skin }
}

} // verus!