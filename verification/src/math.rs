//! Axis and component shuffles between B3D (left-handed, Y up) and glTF
//! (right-handed, Y up), on floats held as IEEE-754 bit patterns.
//!
//! Negating a float flips its sign bit and nothing else, so these conversions are
//! exact on the bit patterns. The conversions that multiply quaternions or build
//! matrices need float arithmetic and are not part of this library.
use vstd::prelude::*;

verus! {

/// The bit pattern of `-x` for the float with bit pattern `b`: the sign bit flipped.
pub open spec fn neg_bits(b: u32) -> u32 {
    if b >= 0x8000_0000 { (b - 0x8000_0000) as u32 } else { (b + 0x8000_0000) as u32 }
}

/// The float with bit pattern `b` is greater than zero: the sign bit is clear, the
/// pattern is not +0 and not a NaN (positive infinity counts).
pub open spec fn is_positive_bits(b: u32) -> bool {
    0 < b <= 0x7F80_0000
}

/// The float with bit pattern `b` differs from zero (`x != 0.0`): true of every
/// pattern except +0 and -0, NaNs included.
pub open spec fn is_nonzero_bits(b: u32) -> bool {
    b != 0 && b != 0x8000_0000
}

/// Bit pattern of `-x`.
pub fn neg(b: u32) -> (r: u32)
    ensures
        r == neg_bits(b),
{
    assert(b ^ 0x8000_0000u32 == (if b >= 0x8000_0000 { (b - 0x8000_0000) as u32 } else { (b + 0x8000_0000) as u32 })) by (bit_vector);
    b ^ 0x8000_0000u32
}

/// `x > 0.0` for the float with bit pattern `b`.
pub fn is_positive(b: u32) -> (r: bool)
    ensures
        r == is_positive_bits(b),
{
    0 < b && b <= 0x7F80_0000
}

/// `x != 0.0` for the float with bit pattern `b`.
pub fn is_nonzero(b: u32) -> (r: bool)
    ensures
        r == is_nonzero_bits(b),
{
    b != 0 && b != 0x8000_0000
}

/// A position with its Y and Z axes swapped.
pub open spec fn yz_swapped(p: [u32; 3]) -> [u32; 3] {
    [p[0], p[2], p[1]]
}

/// A position with Z negated.
pub open spec fn z_negated(p: [u32; 3]) -> [u32; 3] {
    [p[0], p[1], neg_bits(p[2])]
}

/// A `[w, x, y, z]` quaternion with its Y and Z components swapped.
pub open spec fn yz_swapped_quat(q: [u32; 4]) -> [u32; 4] {
    [q[0], q[1], q[3], q[2]]
}

/// A `[w, x, y, z]` quaternion in glTF's `[x, y, z, w]` order.
pub open spec fn gltf_order(q: [u32; 4]) -> [u32; 4] {
    [q[1], q[2], q[3], q[0]]
}

/// Converts a B3D position `[x, y, z]` to glTF by swapping the Y and Z axes.
pub fn swap_yz_pos(p: [u32; 3]) -> (r: [u32; 3])
    ensures
        r == yz_swapped(p),
{
    [p[0], p[2], p[1]]
}

/// Root-bone position: `[x, y, -z]`.
pub fn root_pos(p: [u32; 3]) -> (r: [u32; 3])
    ensures
        r == z_negated(p),
{
    [p[0], p[1], neg(p[2])]
}

/// Converts a B3D quaternion `[w, x, y, z]` by swapping its Y and Z components;
/// the result is still in `[w, x, y, z]` order.
pub fn swap_yz_quat(q: [u32; 4]) -> (r: [u32; 4])
    ensures
        r == yz_swapped_quat(q),
{
    [q[0], q[1], q[3], q[2]]
}

/// Reorders an internal `[w, x, y, z]` quaternion to glTF's `[x, y, z, w]`.
pub fn quat_to_gltf(q: [u32; 4]) -> (r: [u32; 4])
    ensures
        r == gltf_order(q),
{
    [q[1], q[2], q[3], q[0]]
}

/// The axis conversions undo themselves: swapping Y and Z twice, negating Z twice and
/// swapping a quaternion's Y and Z twice each give the input back, bit for bit.
pub proof fn lemma_conversions_are_involutions(p: [u32; 3], q: [u32; 4])
    ensures
        yz_swapped(yz_swapped(p)) == p,
        z_negated(z_negated(p)) == p,
        yz_swapped_quat(yz_swapped_quat(q)) == q,
{
    assert(yz_swapped(yz_swapped(p))@ =~= p@);
    assert(z_negated(z_negated(p))@ =~= p@);
    assert(yz_swapped_quat(yz_swapped_quat(q))@ =~= q@);
}

} // verus!
