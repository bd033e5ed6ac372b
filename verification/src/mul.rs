//! The oblivious-transfer based two-party multiplication primitive.
//!
//! A sender and a receiver turn a multiplicative relation into additive
//! shares without revealing their inputs. The bit-matrix machinery —
//! base OT, OT extension, cut-and-choose proofs — is a black box consumed
//! from `dkls23_core`; its wire messages travel as opaque serialized
//! bytes, and its long-lived state lives in types whose private fields
//! only the setup wrappers fill. The verified protocol checks the
//! primitive's outputs at runtime through the curve-point consistency
//! gates of the signing phases, so no contract here pins the shares.

use dkls23_core::utilities::multiplication::{MulDataToKeepReceiver, MulDataToReceiver, MulReceiver, MulSender};
use dkls23_core::utilities::ot::base::{OTReceiver, OTSender};
use dkls23_core::utilities::ot::extension::OTEDataToSender;
use dkls23_core::utilities::proofs::{DLogProof, EncProof};
use k256::{FieldBytes, Secp256k1};
use vstd::prelude::*;
use crate::scalar::CScalar;
use elliptic_curve::ops::Reduce;

verus! {

// The run functions below index the state's internal vectors (the public
// gadget of BATCH_SIZE scalars, the seed and pad lists of the OT
// extension) without length checks, so arbitrary bytes must not reach
// them. The state and keep types therefore have private fields: the only
// values in existence are the ones the trusted setup and `run_phase1`
// wrappers serialized, whose dimensions are exactly what the run
// functions index.

/// Finished receiver-side multiplication state. Only the setup produces
/// values of this type; the field is private on purpose.
#[derive(Clone, Debug)]
pub struct MulReceiverState {
    blob: Vec<u8>,
}

impl View for MulReceiverState {
    type V = Seq<u8>;

    closed spec fn view(&self) -> Seq<u8> {
        self.blob@
    }
}

impl MulReceiverState {
    /// An independent copy of the same state.
    pub fn fresh_copy(&self) -> (r: Self)
        ensures
            r@ =~= self@,
    {
        MulReceiverState { blob: self.blob.clone() }
    }
}

/// Finished sender-side multiplication state; private for the same reason.
#[derive(Clone, Debug)]
pub struct MulSenderState {
    blob: Vec<u8>,
}

impl View for MulSenderState {
    type V = Seq<u8>;

    closed spec fn view(&self) -> Seq<u8> {
        self.blob@
    }
}

impl MulSenderState {
    /// An independent copy of the same state.
    pub fn fresh_copy(&self) -> (r: Self)
        ensures
            r@ =~= self@,
    {
        MulSenderState { blob: self.blob.clone() }
    }
}

/// Receiver keep between the two online multiplication phases; private
/// for the same reason.
#[derive(Clone, Debug)]
pub struct MulKeepState {
    blob: Vec<u8>,
}

impl View for MulKeepState {
    type V = Seq<u8>;

    closed spec fn view(&self) -> Seq<u8> {
        self.blob@
    }
}

impl MulKeepState {
    /// An independent copy of the same keep.
    pub fn fresh_copy(&self) -> (r: Self)
        ensures
            r@ =~= self@,
    {
        MulKeepState { blob: self.blob.clone() }
    }
}

// Deterministic outcomes. The setup-finishing and multiplication-finishing
// calls draw no randomness: they parse, verify proofs and derive values
// from hashes, so their outcomes are functions of their arguments alone
// and can be named.

/// What finishing the receiver's setup returns: `None` exactly when the
/// bytes do not parse or the sender's cut-and-choose proofs reject, else
/// the serialized receiver state.
pub uninterp spec fn spec_mul_receiver_setup(sid: Seq<u8>, keep: Seq<u8>, msg: Seq<u8>) -> Option<
    Seq<u8>,
>;

/// What finishing the sender's setup returns: `None` exactly when the
/// bytes do not parse or the receiver's proof rejects, else the
/// serialized sender state.
pub uninterp spec fn spec_mul_sender_setup(sid: Seq<u8>, keep: Seq<u8>, msg: Seq<u8>) -> Option<
    Seq<u8>,
>;

/// What the receiver's multiplication finish returns: `None` exactly when
/// the bytes do not parse, the received data has wrong dimensions or the
/// self-consistency check rejects, else the two additive shares.
pub uninterp spec fn spec_mul_finish(
    sid: Seq<u8>,
    state: Seq<u8>,
    keep: Seq<u8>,
    msg: Seq<u8>,
) -> Option<(nat, nat)>;

/// Relies on `MulReceiver::init_phase1`: starts the receiver's side of the
/// multiplication setup. Both outputs are randomized; the first is kept,
/// the second transmitted.
#[verifier::external_body]
pub fn mul_receiver_init1(sid: &Vec<u8>) -> (r: Option<(Vec<u8>, Vec<u8>)>) {
    let (ot_sender, dlog_proof, nonce) = MulReceiver::<Secp256k1>::init_phase1(sid.as_slice());
    let keep = serde_json::to_vec(&(&ot_sender, &nonce)).ok()?;
    let msg = serde_json::to_vec(&(&dlog_proof, &nonce)).ok()?;
    Some((keep, msg))
}

/// Relies on `MulSender::init_phase1`: starts the sender's side of the
/// multiplication setup. Both outputs are randomized; the first is kept,
/// the second transmitted.
#[verifier::external_body]
pub fn mul_sender_init1(sid: &Vec<u8>) -> (r: Option<(Vec<u8>, Vec<u8>)>) {
    let (ot_receiver, correlation, vec_r, enc_proofs) = MulSender::<Secp256k1>::init_phase1(sid.as_slice());
    let keep = serde_json::to_vec(&(&ot_receiver, &correlation, &vec_r)).ok()?;
    let msg = serde_json::to_vec(&(&enc_proofs, &ot_receiver.seed)).ok()?;
    Some((keep, msg))
}

/// Relies on `MulReceiver::init_phase2`: verifies the sender's setup message
/// against the kept state and, on success, yields the finished receiver
/// state — a deterministic function of its arguments (gadget derivation
/// and proof verification draw no randomness), whose success is
/// [`spec_mul_receiver_setup`].
#[verifier::external_body]
pub fn mul_receiver_init2(sid: &Vec<u8>, keep: &Vec<u8>, msg: &Vec<u8>) -> (r: Result<
    MulReceiverState,
    (),
>)
    ensures
        r is Ok <==> spec_mul_receiver_setup(sid@, keep@, msg@) is Some,
        r is Ok ==> r->Ok_0@ =~= spec_mul_receiver_setup(sid@, keep@, msg@)->0,
{
    let (ot_sender, nonce): (OTSender<Secp256k1>, k256::Scalar) =
        serde_json::from_slice(keep).map_err(|_| ())?;
    let (enc_proofs, seed): (Vec<EncProof<Secp256k1>>, [u8; 32]) =
        serde_json::from_slice(msg).map_err(|_| ())?;
    let receiver = MulReceiver::<Secp256k1>::init_phase2(
        &ot_sender, sid.as_slice(), &seed, &enc_proofs, &nonce,
    ).map_err(|_| ())?;
    Ok(MulReceiverState { blob: serde_json::to_vec(&receiver).map_err(|_| ())? })
}

/// Relies on `MulSender::init_phase2`: verifies the receiver's setup message
/// against the kept state and, on success, yields the finished sender
/// state — deterministic for the same reason as the receiver side, with
/// success named [`spec_mul_sender_setup`].
#[verifier::external_body]
pub fn mul_sender_init2(sid: &Vec<u8>, keep: &Vec<u8>, msg: &Vec<u8>) -> (r: Result<
    MulSenderState,
    (),
>)
    ensures
        r is Ok <==> spec_mul_sender_setup(sid@, keep@, msg@) is Some,
        r is Ok ==> r->Ok_0@ =~= spec_mul_sender_setup(sid@, keep@, msg@)->0,
{
    let (ot_receiver, correlation, vec_r): (OTReceiver, Vec<bool>, Vec<k256::Scalar>) =
        serde_json::from_slice(keep).map_err(|_| ())?;
    let (dlog_proof, nonce): (DLogProof<Secp256k1>, k256::Scalar) =
        serde_json::from_slice(msg).map_err(|_| ())?;
    let sender = MulSender::<Secp256k1>::init_phase2(
        &ot_receiver, sid.as_slice(), correlation, &vec_r, &dlog_proof, &nonce,
    ).map_err(|_| ())?;
    Ok(MulSenderState { blob: serde_json::to_vec(&sender).map_err(|_| ())? })
}

/// Relies on `MulReceiver::run_phase1`: starts one multiplication as the
/// receiver, yielding its random pad as a canonical scalar, a keep for the
/// finishing phase, and the OT-extension message for the sender. The call
/// indexes the state's vectors without length checks, which the state
/// type's setup-only construction makes safe.
#[verifier::external_body]
pub fn mul_receiver_run1(receiver: &MulReceiverState, sid: &Vec<u8>) -> (r: Result<
    (CScalar, MulKeepState, Vec<u8>),
    (),
>)
    ensures
        r is Ok ==> (r->Ok_0).0.reduced(),
{
    let rec: MulReceiver<Secp256k1> = serde_json::from_slice(&receiver.blob).map_err(|_| ())?;
    let (chi, keep, transmit) = rec.run_phase1(sid.as_slice()).map_err(|_| ())?;
    let keep_bytes = serde_json::to_vec(&keep).map_err(|_| ())?;
    let transmit_bytes = serde_json::to_vec(&transmit).map_err(|_| ())?;
    Ok((CScalar { bytes: chi.to_bytes().into() }, MulKeepState { blob: keep_bytes }, transmit_bytes))
}

/// Relies on `MulSender::run`: runs the sender's side on two inputs against
/// the receiver's OT-extension message, yielding the sender's two additive
/// shares as canonical scalars and the reply for the receiver. Randomized
/// (it samples its pads); the unchecked indexing of the state's vectors is
/// safe because only the setup constructs the state type.
#[verifier::external_body]
pub fn mul_sender_run(
    sender: &MulSenderState,
    sid: &Vec<u8>,
    input0: &CScalar,
    input1: &CScalar,
    ote_msg: &Vec<u8>,
) -> (r: Result<(CScalar, CScalar, Vec<u8>), ()>)
    requires
        input0.reduced(),
        input1.reduced(),
    ensures
        r is Ok ==> (r->Ok_0).0.reduced() && (r->Ok_0).1.reduced(),
{
    let snd: MulSender<Secp256k1> = serde_json::from_slice(&sender.blob).map_err(|_| ())?;
    let data: OTEDataToSender = serde_json::from_slice(ote_msg).map_err(|_| ())?;
    let i0: k256::Scalar = Reduce::reduce(&FieldBytes::from(input0.bytes));
    let i1: k256::Scalar = Reduce::reduce(&FieldBytes::from(input1.bytes));
    let (c, reply) = snd.run(sid, &[i0, i1], &data).map_err(|_| ())?;
    let reply = serde_json::to_vec(&reply).map_err(|_| ())?;
    Ok((CScalar { bytes: c[0].to_bytes().into() }, CScalar { bytes: c[1].to_bytes().into() }, reply))
}

/// Relies on `MulReceiver::run_phase2`: finishes one multiplication as the
/// receiver, yielding its two additive shares as canonical scalars. It
/// draws no randomness — shared values come from hashes of the arguments —
/// so its outcome is the function [`spec_mul_finish`] of the arguments
/// alone. State and keep vectors are indexed without length checks, which
/// their setup-only construction makes safe.
#[verifier::external_body]
pub fn mul_receiver_run2(
    receiver: &MulReceiverState,
    sid: &Vec<u8>,
    keep: &MulKeepState,
    msg: &Vec<u8>,
) -> (r: Result<(CScalar, CScalar), ()>)
    ensures
        r is Ok <==> spec_mul_finish(sid@, receiver@, keep@, msg@) is Some,
        r is Ok ==> {
            let d = spec_mul_finish(sid@, receiver@, keep@, msg@)->0;
            &&& (r->Ok_0).0.reduced()
            &&& (r->Ok_0).1.reduced()
            &&& (r->Ok_0).0.val() == d.0
            &&& (r->Ok_0).1.val() == d.1
        },
{
    let rec: MulReceiver<Secp256k1> = serde_json::from_slice(&receiver.blob).map_err(|_| ())?;
    let kept: MulDataToKeepReceiver<Secp256k1> = serde_json::from_slice(&keep.blob).map_err(|_| ())?;
    let data: MulDataToReceiver<Secp256k1> = serde_json::from_slice(msg).map_err(|_| ())?;
    let d = rec.run_phase2(sid.as_slice(), &kept, &data).map_err(|_| ())?;
    Ok((CScalar { bytes: d[0].to_bytes().into() }, CScalar { bytes: d[1].to_bytes().into() }))
}

} // verus!
