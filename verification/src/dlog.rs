//! The discrete-log proof primitive.
//!
//! A party proves knowledge of the discrete log of its public polynomial
//! point. The proof object is consumed opaquely, as its serialized bytes;
//! proving and verifying are done by `dkls23_core`'s Fischlin-style proof
//! through trusted wrappers. Verification is a fixed function of the proof
//! bytes, the commitment and the session id, named [`spec_dlog_verify`].

use dkls23_core::utilities::proofs::DLogProof;
use vstd::prelude::*;
use crate::point::{spec_mul_g, CurvePoint};
use crate::scalar::CScalar;
use elliptic_curve::ops::Reduce;
use rustcrypto_group::GroupEncoding;

verus! {

/// The statement point a serialized proof carries, when the bytes parse.
pub uninterp spec fn spec_dlog_point(proof: Seq<u8>) -> Option<Seq<u8>>;

/// Whether a serialized proof verifies against a commitment for a session.
pub uninterp spec fn spec_dlog_verify(proof: Seq<u8>, commitment: Seq<u8>, sid: Seq<u8>) -> bool;

/// Relies on `dkls23_core::utilities::proofs::DLogProof::prove_commit`: the
/// proof's statement point is the generator times the secret, and the
/// serialized proof carries exactly that point. The proof and commitment
/// themselves are randomized, so nothing more is promised of them; `None`
/// only on the astronomically unlikely exhaustion of the proof search.
#[verifier::external_body]
pub fn dlog_prove_commit(secret: &CScalar, sid: &Vec<u8>) -> (r: Option<
    (Vec<u8>, CurvePoint, [u8; 32]),
>)
    requires
        secret.reduced(),
    ensures
        r is Some ==> {
            &&& (r->0).1.bytes@ =~= spec_mul_g(secret.val())
            &&& (r->0).1.valid()
            &&& spec_dlog_point((r->0).0@) == Some((r->0).1.bytes@)
        },
{
    let s = <k256::Scalar as Reduce<k256::FieldBytes>>::reduce(&k256::FieldBytes::from(secret.bytes));
    let (proof, commitment) = DLogProof::<k256::Secp256k1>::prove_commit(&s, sid.as_slice()).ok()?;
    let point = CurvePoint { bytes: proof.point.to_bytes().into() };
    let bytes = serde_json::to_vec(&proof).ok()?;
    Some((bytes, point, commitment))
}

/// Relies on `serde_json` deserialization of the proof: a fixed function of
/// the bytes, yielding the statement point the proof carries.
#[verifier::external_body]
pub fn dlog_proof_point(proof: &Vec<u8>) -> (r: Option<CurvePoint>)
    ensures
        r is Some <==> spec_dlog_point(proof@) is Some,
        r is Some ==> Some(r->0.bytes@) == spec_dlog_point(proof@) && r->0.valid(),
{
    let parsed: DLogProof<k256::Secp256k1> = serde_json::from_slice(proof.as_slice()).ok()?;
    Some(CurvePoint { bytes: parsed.point.to_bytes().into() })
}

/// Relies on `DLogProof::decommit_verify`: deterministic verification of the
/// proof bytes against the commitment for this session; false for bytes that
/// do not parse as a proof.
#[verifier::external_body]
pub fn dlog_decommit_verify(proof: &Vec<u8>, commitment: &[u8; 32], sid: &Vec<u8>) -> (r: bool)
    ensures
        r == spec_dlog_verify(proof@, commitment@, sid@),
        r ==> spec_dlog_point(proof@) is Some,
{
    let parsed: DLogProof<k256::Secp256k1> = match serde_json::from_slice(proof.as_slice()) {
        Ok(p) => p,
        Err(_) => return false,
    };
    DLogProof::decommit_verify(&parsed, commitment, sid.as_slice())
}

} // verus!
