use b3d2glb::math::{is_nonzero, is_positive, neg, quat_to_gltf, root_pos, swap_yz_pos, swap_yz_quat};

fn f(x: f32) -> u32 {
    x.to_bits()
}

fn v3(a: f32, b: f32, c: f32) -> [u32; 3] {
    [f(a), f(b), f(c)]
}

fn v4(a: f32, b: f32, c: f32, d: f32) -> [u32; 4] {
    [f(a), f(b), f(c), f(d)]
}

#[test]
fn test_swap_yz_pos() {
    assert_eq!(swap_yz_pos(v3(1.0, 2.0, 3.0)), v3(1.0, 3.0, 2.0));
    assert_eq!(swap_yz_pos(v3(0.0, -5.0, 10.0)), v3(0.0, 10.0, -5.0));
}

#[test]
fn test_root_pos() {
    assert_eq!(root_pos(v3(1.0, 2.0, 3.0)), v3(1.0, 2.0, -3.0));
    assert_eq!(root_pos(v3(0.0, 5.0, -10.0)), v3(0.0, 5.0, 10.0));
}

#[test]
fn test_swap_yz_quat() {
    assert_eq!(swap_yz_quat(v4(1.0, 0.0, 0.0, 0.0)), v4(1.0, 0.0, 0.0, 0.0));
    assert_eq!(swap_yz_quat(v4(0.0, 1.0, 2.0, 3.0)), v4(0.0, 1.0, 3.0, 2.0));
}

#[test]
fn test_quat_to_gltf() {
    assert_eq!(quat_to_gltf(v4(1.0, 0.0, 0.0, 0.0)), v4(0.0, 0.0, 0.0, 1.0));
    assert_eq!(quat_to_gltf(v4(0.0, 1.0, 0.0, 0.0)), v4(1.0, 0.0, 0.0, 0.0));
}

#[test]
fn test_neg_z_rotation_off_axis() {
    let q = v4(0.7071, 0.0, 0.7071, 0.0);
    let qn = swap_yz_quat(q);
    assert_eq!(qn, v4(0.7071, 0.0, 0.0, 0.7071));
}

#[test]
fn swap_twice_is_identity() {
    let p = v3(1.5, -2.5, 3.25);
    assert_eq!(swap_yz_pos(swap_yz_pos(p)), p);
    let q = v4(0.1, 0.2, 0.3, 0.4);
    assert_eq!(swap_yz_quat(swap_yz_quat(q)), q);
    assert_eq!(root_pos(root_pos(p)), p);
}

#[test]
fn sign_bit_helpers() {
    assert_eq!(neg(f(2.0)), f(-2.0));
    assert_eq!(neg(f(0.0)), f(-0.0));
    assert!(is_positive(f(0.5)));
    assert!(!is_positive(f(0.0)));
    assert!(!is_positive(f(-1.0)));
    assert!(!is_positive(f32::NAN.to_bits()));
    assert!(is_positive(f32::INFINITY.to_bits()));
    assert!(is_nonzero(f(-3.0)));
    assert!(!is_nonzero(f(-0.0)));
    assert!(!is_nonzero(f(0.0)));
}
