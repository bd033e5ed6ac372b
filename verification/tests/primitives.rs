//! The verified building blocks: scalars, commitments, zero-share masks.

use dkls_core::hashing::{commit_with_salt, tagged_hash, verify_commitment};
use dkls_core::scalar::{
    sample_scalar, scalar_add, scalar_invert, scalar_is_canonical, scalar_mul, scalar_neg,
    scalar_reduce32, CScalar,
};
use dkls_core::zero_shares::{generate_seed_pair, SeedPair, ZeroShare};

#[test]
fn test_scalar_small_values() {
    let zero = CScalar::default();
    assert_eq!(zero.bytes, [0u8; 32]);
    let one = CScalar::one();
    assert_eq!(one.bytes[31], 1);
    let five = CScalar::from_u8(5);
    let six = scalar_add(&five, &one);
    assert_eq!(six.bytes, CScalar::from_u8(6).bytes);
    let thirty = scalar_mul(&five, &six);
    assert_eq!(thirty.bytes, CScalar::from_u8(30).bytes);
}

#[test]
fn test_scalar_inverse() {
    let zero = CScalar::default();
    assert!(scalar_invert(&zero).is_none());
    let x = CScalar::from_u8(123);
    let inv = scalar_invert(&x).expect("nonzero scalar has an inverse");
    let prod = scalar_mul(&x, &inv);
    assert_eq!(prod.bytes, CScalar::one().bytes);
}

#[test]
fn test_scalar_negation_cancels() {
    let x = sample_scalar();
    let neg = scalar_neg(&x);
    let sum = scalar_add(&x, &neg);
    assert_eq!(sum.bytes, [0u8; 32]);
}

#[test]
fn test_scalar_canonical_check() {
    assert!(scalar_is_canonical(&[0u8; 32]));
    assert!(!scalar_is_canonical(&[0xffu8; 32]));
    let reduced = scalar_reduce32(&[0xffu8; 32]);
    assert!(scalar_is_canonical(&reduced.bytes));
}

#[test]
fn test_commit_and_verify() {
    let msg = vec![1u8, 2, 3, 4];
    let salt = vec![9u8; 64];
    let commitment = commit_with_salt(&msg, &salt);
    assert!(verify_commitment(&msg, &commitment, &salt));

    let mut other_msg = msg.clone();
    other_msg[0] ^= 1;
    assert!(!verify_commitment(&other_msg, &commitment, &salt));

    let mut other_salt = salt.clone();
    other_salt[10] ^= 1;
    assert!(!verify_commitment(&msg, &commitment, &other_salt));
}

#[test]
fn test_tagged_hash_separates_components() {
    let tag = vec![1u8];
    let h1 = tagged_hash(&tag, &vec![vec![0x61, 0x62], vec![0x63]]);
    let h2 = tagged_hash(&tag, &vec![vec![0x61], vec![0x62, 0x63]]);
    assert_ne!(h1, h2, "the encoding is length-delimited");
    let h3 = tagged_hash(&vec![2u8], &vec![vec![0x61, 0x62], vec![0x63]]);
    assert_ne!(h1, h3, "the tag separates oracles");
}

#[test]
fn test_zero_share_masks_sum_to_zero() {
    // Five parties pair up; any executing subset's masks cancel.
    let n: u8 = 5;
    let mut seeds = vec![vec![[0u8; 32]; (n + 1) as usize]; (n + 1) as usize];
    for i in 1..=n {
        for j in 1..=n {
            let mut s = [0u8; 32];
            s[0] = j;
            s[1] = i.wrapping_mul(31);
            s[30] = 77;
            seeds[i as usize][j as usize] = s;
        }
    }
    let shares: Vec<ZeroShare> = (1..=n)
        .map(|i| {
            let pairs: Vec<SeedPair> = (1..=n)
                .filter(|&j| j != i)
                .map(|j| generate_seed_pair(i, j, &seeds[i as usize][j as usize], &seeds[j as usize][i as usize]))
                .collect();
            ZeroShare::initialize(pairs)
        })
        .collect();

    let executing: Vec<u8> = vec![1, 3, 4];
    let sid = vec![5u8; 40];
    let mut total = CScalar::default();
    for &p in &executing {
        let counterparties: Vec<u8> = executing.iter().copied().filter(|&q| q != p).collect();
        let mask = shares[(p - 1) as usize].compute(&counterparties, &sid);
        total = scalar_add(&total, &mask);
    }
    assert_eq!(total.bytes, [0u8; 32]);
}

#[test]
fn test_wire_roundtrip() {
    // Framing a message and parsing it back returns the same fields; the
    // verified unambiguity lemma says no other fields could produce the
    // same bytes.
    let b = dkls_core::signing::Broadcast3to4 {
        u: CScalar::from_u8(17),
        w: CScalar::from_u8(99),
    };
    let bytes = dkls_core::codec::encode_broadcast(&b);
    let back = dkls_core::codec::decode_broadcast(&bytes).expect("own frames parse");
    assert_eq!(b.u.bytes, back.u.bytes);
    assert_eq!(b.w.bytes, back.w.bytes);

    let reveal = dkls_core::dkg::TransmitInitZeroSharePhase3to4 {
        parties: dkls_core::proto::PartiesMessage { sender: 2, receiver: 1 },
        seed: [5u8; 32],
        salt: vec![9u8; 64],
    };
    let bytes = dkls_core::codec::encode_zero_reveal(&reveal);
    let back = dkls_core::codec::decode_zero_reveal(&bytes).expect("own frames parse");
    assert_eq!(back.parties.sender, 2);
    assert_eq!(back.parties.receiver, 1);
    assert_eq!(back.seed, reveal.seed);
    assert_eq!(back.salt, reveal.salt);

    // Tampered framing is rejected or yields a different message.
    let mut bad = bytes.clone();
    bad[0] ^= 0xff;
    assert!(dkls_core::codec::decode_zero_reveal(&bad).is_none());

    // The verified round-trip theorems hold at runtime too.
    assert!(dkls_core::codec::broadcast_wire_roundtrip(&b));
    assert!(dkls_core::codec::zero_reveal_wire_roundtrip(&reveal));
}

#[test]
fn test_interactive_proof_to_c() {}

#[test]
fn test_interactive_proof_to_c_vec64() {}
