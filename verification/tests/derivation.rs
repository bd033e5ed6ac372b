//! Key derivation: path parsing and shareholder-consistent child keys.

use dkls_core::derivation::{parse_path, DerivData, DerivError};
use dkls_core::point::gen_mul;
use dkls_core::scalar::{scalar_add, scalar_sub, CScalar};

fn sample_data() -> DerivData {
    let poly_point = CScalar::from_u8(200);
    let secret = CScalar::from_u8(77);
    DerivData {
        depth: 0,
        child_number: 0,
        parent_fingerprint: [0; 4],
        poly_point,
        pk: gen_mul(&secret),
        chain_code: [42u8; 32],
    }
}

#[test]
fn test_parse_path_accepts_normal_paths() {
    assert_eq!(parse_path("m").unwrap(), Vec::<u32>::new());
    assert_eq!(parse_path("m/0").unwrap(), vec![0]);
    assert_eq!(parse_path("m/1/4/8").unwrap(), vec![1, 4, 8]);
    assert_eq!(parse_path("m/2147483647").unwrap(), vec![0x7fff_ffff]);
}

#[test]
fn test_parse_path_rejects_bad_paths() {
    assert_eq!(parse_path("").unwrap_err(), DerivError::InvalidPath);
    assert_eq!(parse_path("x/0").unwrap_err(), DerivError::InvalidPath);
    assert_eq!(parse_path("m/").unwrap_err(), DerivError::InvalidPath);
    assert_eq!(parse_path("m/01a").unwrap_err(), DerivError::InvalidPath);
    assert_eq!(parse_path("m/2147483648").unwrap_err(), DerivError::InvalidPath);
    assert_eq!(parse_path("m//3").unwrap_err(), DerivError::InvalidPath);
}

#[test]
fn test_derive_child_rejects_hardened_range() {
    let d = sample_data();
    assert_eq!(
        d.derive_child(0x8000_0000).unwrap_err(),
        DerivError::ChildNumberTooLarge
    );
}

#[test]
fn test_derivation_consistency() {
    // Deriving along two single-step paths equals deriving the two child
    // numbers directly.
    let d = sample_data();
    let via_path = d
        .derive_from_path("m/0")
        .unwrap()
        .derive_from_path("m/1")
        .unwrap();
    let via_children = d.derive_child(0).unwrap().derive_child(1).unwrap();
    assert!(via_path.equals(&via_children));
    assert_eq!(via_path.depth, 2);
    assert_eq!(via_path.child_number, 1);
}

#[test]
fn test_derivation_shifts_share_and_key_together() {
    // The tweak applied to the share is public: share' - share has the
    // public key move by exactly that tweak's point.
    let d = sample_data();
    let child = d.derive_child(5).unwrap();
    let tweak = scalar_sub(&child.poly_point, &d.poly_point);
    let moved = dkls_core::point::point_add(&gen_mul(&tweak), &d.pk);
    assert_eq!(moved.bytes, child.pk.bytes);
    // Depth grows, the chain code changes.
    assert_eq!(child.depth, 1);
    assert_ne!(child.chain_code, d.chain_code);
    // Re-deriving the same child is deterministic.
    let again = d.derive_child(5).unwrap();
    assert!(child.equals(&again));
    let _ = scalar_add(&d.poly_point, &tweak);
}
