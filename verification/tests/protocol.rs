//! End-to-end runs of the key-generation and signing protocols with two
//! parties, under fixed injected randomness.

use dkls_core::dkg::{
    dkls_dkg_phase1, dkls_dkg_phase2, dkls_dkg_phase3, dkls_dkg_phase4, Party, Phase2Rand,
    ProofCommitment, TransmitInitMulPhase3to4, TransmitInitZeroSharePhase2to4,
    TransmitInitZeroSharePhase3to4,
};
use dkls_core::proto::{AbortReason, Parameters, SessionData, SignData};
use dkls_core::scalar::{scalar_add, scalar_mul, scalar_sub, CScalar};
use dkls_core::point::gen_mul;
use dkls_core::signing::{
    dkls_sign_phase1, dkls_sign_phase2, dkls_sign_phase3, dkls_sign_phase4,
    dkls_verify_ecdsa_signature, Broadcast3to4,
};

fn fixed_scalar(tag: u8) -> CScalar {
    let mut bytes = [0u8; 32];
    bytes[0] = 0x0f;
    bytes[31] = tag;
    bytes[17] = tag.wrapping_mul(73);
    CScalar { bytes }
}

fn fixed_seed(tag: u8) -> [u8; 32] {
    let mut s = [tag; 32];
    s[0] = tag.wrapping_add(1);
    s
}

fn fixed_salt(tag: u8) -> Vec<u8> {
    vec![tag; 64]
}

fn session_for(index: u8, session_id: [u8; 32]) -> SessionData {
    SessionData {
        parameters: Parameters {
            threshold: 2,
            share_count: 2,
        },
        party_index: index,
        session_id: session_id.to_vec(),
    }
}

#[derive(Debug)]
struct DkgRun {
    parties: Vec<Party>,
    poly_a: Vec<CScalar>,
    poly_b: Vec<CScalar>,
}

/// Runs the whole two-party DKG with fixed randomness; optionally corrupts
/// the given byte of party 2's zero-share reveal towards party 1.
fn run_dkg(session_id: [u8; 32], tamper_reveal: bool) -> Result<DkgRun, Vec<(u8, AbortReason)>> {
    let sessions = vec![session_for(1, session_id), session_for(2, session_id)];

    // Phase 1: each party evaluates its own fixed polynomial.
    let poly_a = vec![fixed_scalar(11), fixed_scalar(12)];
    let poly_b = vec![fixed_scalar(21), fixed_scalar(22)];
    let frags_a = dkls_dkg_phase1(&sessions[0], &poly_a).expect("phase 1 of party 1");
    let frags_b = dkls_dkg_phase1(&sessions[1], &poly_b).expect("phase 1 of party 2");

    // Communication round 1: party i receives every fragment indexed i.
    let recv1 = vec![frags_a[0], frags_b[0]];
    let recv2 = vec![frags_a[1], frags_b[1]];

    // Phase 2 with fixed zero-share seeds, salts and chain codes.
    let rand_a = Phase2Rand {
        zero_seeds: vec![fixed_seed(31)],
        zero_salts: vec![fixed_salt(32)],
        aux_chain_code: fixed_seed(33),
        cc_salt: fixed_salt(34),
    };
    let rand_b = Phase2Rand {
        zero_seeds: vec![fixed_seed(41)],
        zero_salts: vec![fixed_salt(42)],
        aux_chain_code: fixed_seed(43),
        cc_salt: fixed_salt(44),
    };
    let out2_a = dkls_dkg_phase2(&sessions[0], &recv1, &rand_a).expect("phase 2 of party 1");
    let out2_b = dkls_dkg_phase2(&sessions[1], &recv2, &rand_b).expect("phase 2 of party 2");

    // Phase 3.
    let out3_a = dkls_dkg_phase3(&sessions[0], &out2_a.zero_keep, &out2_a.bip_keep)
        .expect("phase 3 of party 1");
    let out3_b = dkls_dkg_phase3(&sessions[1], &out2_b.zero_keep, &out2_b.bip_keep)
        .expect("phase 3 of party 2");

    // Communication rounds: route everything by receiver.
    let route_z2 = |me: u8| -> Vec<TransmitInitZeroSharePhase2to4> {
        [&out2_a.zero_transmit[..], &out2_b.zero_transmit[..]]
            .concat()
            .into_iter()
            .filter(|m| m.parties.receiver == me)
            .collect()
    };
    let route_z3 = |me: u8| -> Vec<TransmitInitZeroSharePhase3to4> {
        let mut msgs: Vec<TransmitInitZeroSharePhase3to4> =
            [&out3_a.zero_transmit[..], &out3_b.zero_transmit[..]]
                .concat()
                .into_iter()
                .filter(|m| m.parties.receiver == me)
                .collect();
        if tamper_reveal && me == 1 {
            // Corrupt one byte of party 2's reveal towards party 1.
            for m in msgs.iter_mut() {
                if m.parties.sender == 2 {
                    m.seed[5] ^= 0x01;
                }
            }
        }
        msgs
    };
    let route_mul = |me: u8| -> Vec<TransmitInitMulPhase3to4> {
        [&out3_a.mul_transmit[..], &out3_b.mul_transmit[..]]
            .concat()
            .into_iter()
            .filter(|m| m.parties.receiver == me)
            .collect()
    };
    let pcs: Vec<ProofCommitment> = vec![
        out2_a.proof_commitment.clone(),
        out2_b.proof_commitment.clone(),
    ];
    let bip2 = vec![out2_a.bip_broadcast.clone(), out2_b.bip_broadcast.clone()];
    let bip3 = vec![out3_a.bip_broadcast.clone(), out3_b.bip_broadcast.clone()];

    // Phase 4. On a tampered run, party 1 (who got the bad reveal)
    // evaluates twice: independent evaluations of the same faulty input
    // must reach the same abort.
    let phase4_at_1 = || {
        dkls_dkg_phase4(
            &sessions[0],
            &out2_a.poly_point,
            &pcs,
            &out3_a.zero_keep,
            &route_z2(1),
            &route_z3(1),
            &out3_a.mul_keep,
            &route_mul(1),
            &bip2,
            &bip3,
        )
    };
    let r1 = phase4_at_1();
    let r2 = if tamper_reveal {
        phase4_at_1()
    } else {
        dkls_dkg_phase4(
            &sessions[1],
            &out2_b.poly_point,
            &pcs,
            &out3_b.zero_keep,
            &route_z2(2),
            &route_z3(2),
            &out3_b.mul_keep,
            &route_mul(2),
            &bip2,
            &bip3,
        )
    };
    match (r1, r2) {
        (Ok(p1), Ok(p2)) => Ok(DkgRun {
            parties: vec![p1, p2],
            poly_a,
            poly_b,
        }),
        (Err(a1), Err(a2)) => Err(vec![(a1.index, a1.reason), (a2.index, a2.reason)]),
        (Ok(_), Err(a2)) => Err(vec![(a2.index, a2.reason)]),
        (Err(a1), Ok(_)) => Err(vec![(a1.index, a1.reason)]),
    }
}

/// Runs the two-party signing protocol over the given parties.
fn run_sign(
    parties: &[Party],
    sign_id: [u8; 32],
    message_hash: [u8; 32],
    normalize: bool,
) -> ([u8; 32], [u8; 32], CScalar, u8) {
    let data1 = SignData {
        sign_id: sign_id.to_vec(),
        counterparties: vec![2],
        message_hash,
    };
    let data2 = SignData {
        sign_id: sign_id.to_vec(),
        counterparties: vec![1],
        message_hash,
    };

    let (u1, k1, t1) = dkls_sign_phase1(
        &parties[0],
        &data1,
        &fixed_scalar(51),
        &fixed_scalar(52),
        &vec![fixed_salt(53)],
    )
    .expect("sign phase 1 of party 1");
    let (u2, k2, t2) = dkls_sign_phase1(
        &parties[1],
        &data2,
        &fixed_scalar(61),
        &fixed_scalar(62),
        &vec![fixed_salt(63)],
    )
    .expect("sign phase 1 of party 2");

    let (u1b, k1b, t1b) = dkls_sign_phase2(&parties[0], &data1, &u1, &k1, &vec![t2[0].clone()])
        .expect("sign phase 2 of party 1");
    let (u2b, k2b, t2b) = dkls_sign_phase2(&parties[1], &data2, &u2, &k2, &vec![t1[0].clone()])
        .expect("sign phase 2 of party 2");

    let (x1, b1) = dkls_sign_phase3(&parties[0], &data1, &u1b, &k1b, &vec![t2b[0].clone()])
        .expect("sign phase 3 of party 1");
    let (x2, b2) = dkls_sign_phase3(&parties[1], &data2, &u2b, &k2b, &vec![t1b[0].clone()])
        .expect("sign phase 3 of party 2");

    let broadcasts: Vec<Broadcast3to4> = vec![b1, b2];
    let (s1, rec1) = dkls_sign_phase4(&parties[0], &data1, &x1, &broadcasts, normalize)
        .expect("sign phase 4 of party 1");
    let (s2, rec2) = dkls_sign_phase4(&parties[1], &data2, &x2, &broadcasts, normalize)
        .expect("sign phase 4 of party 2");

    assert_eq!(s1.bytes, s2.bytes, "both parties assemble the same signature");
    assert_eq!(rec1, rec2);
    (x1, x2, s1, rec1)
}

const SESSION_ID: [u8; 32] = [
    155, 91, 34, 177, 234, 249, 164, 92, 254, 10, 140, 65, 30, 135, 113, 112, 137, 57, 36, 209,
    201, 197, 182, 252, 49, 111, 29, 209, 53, 68, 140, 219,
];

#[test]
fn test_dkg_phase1_rejects_malformed_session() {
    // Malformed parameters are rejected synchronously, before any
    // protocol step, as a local input error.
    let bad = SessionData {
        parameters: Parameters {
            threshold: 3,
            share_count: 2,
        },
        party_index: 1,
        session_id: SESSION_ID.to_vec(),
    };
    let poly = vec![fixed_scalar(1), fixed_scalar(2), fixed_scalar(3)];
    let err = dkls_dkg_phase1(&bad, &poly).expect_err("threshold above share count");
    assert_eq!(err.reason, AbortReason::InvalidSessionData);

    let bad_index = SessionData {
        parameters: Parameters {
            threshold: 2,
            share_count: 2,
        },
        party_index: 3,
        session_id: SESSION_ID.to_vec(),
    };
    let poly = vec![fixed_scalar(1), fixed_scalar(2)];
    let err = dkls_dkg_phase1(&bad_index, &poly).expect_err("party index out of range");
    assert_eq!(err.reason, AbortReason::InvalidSessionData);
}

#[test]
fn test_dkg_two_party_reconstructs_one_key() {
    let run = run_dkg(SESSION_ID, false).expect("dkg must succeed");
    let p1 = &run.parties[0];
    let p2 = &run.parties[1];

    // Both parties report the same public key and chain code.
    assert_eq!(p1.pk.bytes, p2.pk.bytes);
    assert_eq!(
        p1.derivation_data.chain_code,
        p2.derivation_data.chain_code
    );

    // The shares, combined with the Lagrange coefficients 2 and -1 for the
    // executing set {1, 2}, reconstruct one private key whose point is the
    // reported public key.
    let two = CScalar::from_u8(2);
    let k = scalar_sub(&scalar_mul(&two, &p1.poly_point), &p2.poly_point);
    assert_eq!(gen_mul(&k).bytes, p1.pk.bytes);

    // And that key is the sum of the two secret constant terms.
    let expected = scalar_add(&run.poly_a[0], &run.poly_b[0]);
    assert_eq!(k.bytes, expected.bytes);
}

#[test]
fn test_dkg_deterministic_outputs() {
    // Identical session id and identical injected randomness give
    // byte-identical fragments, shares and commitments across repeated
    // runs. (The full pipeline's determinism is pinned by the transcript
    // fingerprint test.)
    let sessions = vec![session_for(1, SESSION_ID), session_for(2, SESSION_ID)];
    let poly = vec![fixed_scalar(11), fixed_scalar(12)];
    let frags_x = dkls_dkg_phase1(&sessions[0], &poly).expect("first phase 1");
    let frags_y = dkls_dkg_phase1(&sessions[0], &poly).expect("second phase 1");
    for (a, b) in frags_x.iter().zip(frags_y.iter()) {
        assert_eq!(a.bytes, b.bytes);
    }

    let rand = Phase2Rand {
        zero_seeds: vec![fixed_seed(31)],
        zero_salts: vec![fixed_salt(32)],
        aux_chain_code: fixed_seed(33),
        cc_salt: fixed_salt(34),
    };
    let out_x = dkls_dkg_phase2(&sessions[0], &frags_x, &rand).expect("first phase 2");
    let out_y = dkls_dkg_phase2(&sessions[0], &frags_y, &rand).expect("second phase 2");
    assert_eq!(out_x.poly_point.bytes, out_y.poly_point.bytes);
    assert_eq!(
        out_x.bip_broadcast.cc_commitment,
        out_y.bip_broadcast.cc_commitment
    );
    for (a, b) in out_x.zero_transmit.iter().zip(out_y.zero_transmit.iter()) {
        assert_eq!(a.commitment, b.commitment);
    }
    for (a, b) in out_x.zero_keep.iter().zip(out_y.zero_keep.iter()) {
        assert_eq!(a.seed, b.seed);
        assert_eq!(a.salt, b.salt);
    }
}

#[test]
fn test_dkg_abort_on_tampered_zero_share_reveal() {
    // Flipping one byte of party 2's zero-share reveal makes the receiving
    // party's phase 4 abort, naming party 2; the run evaluates that
    // party's phase 4 twice on the same faulty input and both independent
    // evaluations reach the identical abort.
    let err = run_dkg(SESSION_ID, true).expect_err("tampered run must abort");
    assert_eq!(err.len(), 2, "both evaluations abort");
    assert_eq!(err[0].0, 1, "the abort is raised by the party that got the bad reveal");
    assert_eq!(err[0].1, AbortReason::ZeroShareDecommitFailed { counterparty: 2 });
    assert_eq!(err[1], err[0], "independent evaluations reach the same abort");
}

#[test]
fn test_signing_produces_valid_signature() {
    let run = run_dkg(SESSION_ID, false).expect("dkg");
    let message_hash =
        dkls23_core::utilities::hashes::tagged_hash(b"demo-sign", &[b"Message to sign!"]);
    let sign_id = [7u8; 32];
    let (x1, x2, s, _rec) = run_sign(&run.parties, sign_id, message_hash, true);

    // All executing parties computed an identical x-coordinate.
    assert_eq!(x1, x2);

    // The completed signature satisfies the ECDSA verification equation
    // against the joint public key.
    let out = dkls_verify_ecdsa_signature(&message_hash, &run.parties[0].pk, &x1, &s.bytes);
    assert!(out.valid);

    // A corrupted signature does not verify.
    let mut bad = s.bytes;
    bad[13] ^= 0x40;
    let out_bad = dkls_verify_ecdsa_signature(&message_hash, &run.parties[0].pk, &x1, &bad);
    assert!(!out_bad.valid);
}

#[test]
fn test_low_s_normalization() {
    let run = run_dkg(SESSION_ID, false).expect("dkg");
    let message_hash =
        dkls23_core::utilities::hashes::tagged_hash(b"demo-sign", &[b"Message to sign!"]);
    let sign_id = [9u8; 32];
    let (x_norm, _, s_norm, rec_norm) = run_sign(&run.parties, sign_id, message_hash, true);
    let (x_raw, _, s_raw, rec_raw) = run_sign(&run.parties, sign_id, message_hash, false);
    assert_eq!(x_norm, x_raw);

    // With normalization the scalar is never in the high half.
    const HALF_ORDER: [u8; 32] = [
        0x7f, 0xff, 0xff, 0xff, 0xff, 0xff, 0xff, 0xff, 0xff, 0xff, 0xff, 0xff, 0xff, 0xff, 0xff,
        0xff, 0x5d, 0x57, 0x6e, 0x73, 0x57, 0xa4, 0x50, 0x1d, 0xdf, 0xe9, 0x2f, 0x46, 0x68, 0x1b,
        0x20, 0xa0,
    ];
    assert!(s_norm.bytes <= HALF_ORDER, "normalized s is in the low half");

    if s_raw.bytes != s_norm.bytes {
        // The raw scalar was high: the normalized one is order - raw, and
        // the recovery id flipped its parity bit.
        const ORDER: [u8; 32] = [
            0xff, 0xff, 0xff, 0xff, 0xff, 0xff, 0xff, 0xff, 0xff, 0xff, 0xff, 0xff, 0xff, 0xff,
            0xff, 0xfe, 0xba, 0xae, 0xdc, 0xe6, 0xaf, 0x48, 0xa0, 0x3b, 0xbf, 0xd2, 0x5e, 0x8c,
            0xd0, 0x36, 0x41, 0x41,
        ];
        assert!(s_raw.bytes > HALF_ORDER);
        // order - raw == normalized, checked through the group arithmetic.
        let sum = scalar_add(&s_raw, &s_norm);
        assert_eq!(sum.bytes, [0u8; 32], "raw and normalized s are negatives");
        let _ = ORDER;
        assert_eq!(rec_norm ^ 1, rec_raw);
    } else {
        assert_eq!(rec_norm, rec_raw);
    }

    // Both encodings verify.
    let ok_norm = dkls_verify_ecdsa_signature(&message_hash, &run.parties[0].pk, &x_norm, &s_norm.bytes);
    let ok_raw = dkls_verify_ecdsa_signature(&message_hash, &run.parties[0].pk, &x_raw, &s_raw.bytes);
    assert!(ok_norm.valid && ok_raw.valid);
}

#[test]
fn test_pinned_transcript_fingerprint() {
    // The deterministic core of the pipeline, hashed, matches a pinned
    // value: any unintended change to the protocol's computation or
    // encodings shows up here.
    let run = run_dkg(SESSION_ID, false).expect("dkg");
    let message_hash =
        dkls23_core::utilities::hashes::tagged_hash(b"demo-sign", &[b"Message to sign!"]);
    let sign_id = [3u8; 32];
    let (x, _, s, rec) = run_sign(&run.parties, sign_id, message_hash, true);
    let transcript: Vec<Vec<u8>> = vec![
        run.parties[0].poly_point.bytes.to_vec(),
        run.parties[1].poly_point.bytes.to_vec(),
        run.parties[0].pk.bytes.to_vec(),
        run.parties[0].derivation_data.chain_code.to_vec(),
        x.to_vec(),
        s.bytes.to_vec(),
        vec![rec],
    ];
    let fingerprint = dkls_core::hashing::tagged_hash(&vec![3u8], &transcript);
    let pinned = "8b9c8527e13563262ceaa5aeba20b7fce7e481156065dedd13973cb0a6226a68";
    assert_eq!(hex::encode(fingerprint), pinned);
}

#[test]
fn test_pipeline_byte_reproducible() {
    // Signing twice over the same key material, sign id, message and
    // injected randomness produces a byte-identical signature: the random
    // pads inside the multiplication cancel out of the assembled fraction.
    let message_hash =
        dkls23_core::utilities::hashes::tagged_hash(b"demo-sign", &[b"Message to sign!"]);
    let sign_id = [3u8; 32];
    let run = run_dkg(SESSION_ID, false).expect("dkg");
    let (xa, _, sa, ra) = run_sign(&run.parties, sign_id, message_hash, true);
    let (xb, _, sb, rb) = run_sign(&run.parties, sign_id, message_hash, true);
    assert_eq!(xa, xb);
    assert_eq!(sa.bytes, sb.bytes);
    assert_eq!(ra, rb);
}
