//! Threshold signing.
//!
//! A quorum of `threshold` parties, each holding a finalized [`Party`],
//! runs four phases to produce a standard ECDSA signature over a message
//! digest. The joint nonce is never reconstructed: its inverse enters the
//! signature through additive shares obtained from the two-party
//! multiplication primitive, and every share is checked against curve-point
//! consistency gates before it is used. Randomness is an explicit input.

use vstd::prelude::*;
use crate::bytes::bytes32_eq;
use crate::dkg::{mul_sid, Party};
use crate::hashing::{commit_with_salt, spec_commitment, verify_commitment};
use crate::mul::{mul_receiver_run1, mul_receiver_run2, mul_sender_run};
use crate::point::{identity_enc, spec_mul_g, spec_point_add, spec_point_mul, gen_mul, point_add, point_check, point_mul, CurvePoint};
use crate::proto::{counterparties_valid, Abort, AbortReason, PartiesMessage, SignData};
use crate::scalar::{be_val, group_order, half_order, spec_inv, scalar_add, scalar_invert, scalar_is_canonical, scalar_is_high, scalar_mul, scalar_neg, scalar_reduce32, scalar_sub, CScalar};
use crate::zero_shares::{contains_index, signed_fragment_sum};

verus! {

/// Transmit - signing, phase 1 to phase 2: the commitment to our instance
/// point and our opaque OT-extension message.
#[derive(Clone, Debug)]
pub struct TransmitPhase1to2 {
    pub parties: PartiesMessage,
    pub commitment: [u8; 32],
    pub mul_transmit: Vec<u8>,
}

/// Keep - signing, phase 1 to phase 2, one per counterparty.
#[derive(Clone, Debug)]
pub struct KeepPhase1to2 {
    pub counterparty: u8,
    pub salt: Vec<u8>,
    pub chi: CScalar,
    pub mul_keep: crate::mul::MulKeepState,
}

/// Unique keep - signing, phase 1 to phase 2.
#[derive(Clone, Debug)]
pub struct UniqueKeep1to2 {
    pub instance_key: CScalar,
    pub instance_point: CurvePoint,
    pub inversion_mask: CScalar,
    pub zeta: CScalar,
}

/// Transmit - signing, phase 2 to phase 3: consistency points, the masked
/// inversion share, the opened instance point, and the multiplication
/// reply.
#[derive(Clone, Debug)]
pub struct TransmitPhase2to3 {
    pub parties: PartiesMessage,
    pub gamma_u: CurvePoint,
    pub gamma_v: CurvePoint,
    pub psi: CScalar,
    pub public_share: CurvePoint,
    pub instance_point: CurvePoint,
    pub salt: Vec<u8>,
    pub mul_transmit: Vec<u8>,
}

/// Keep - signing, phase 2 to phase 3, one per counterparty.
#[derive(Clone, Debug)]
pub struct KeepPhase2to3 {
    pub counterparty: u8,
    pub c_u: CScalar,
    pub c_v: CScalar,
    pub commitment: [u8; 32],
    pub mul_keep: crate::mul::MulKeepState,
    pub chi: CScalar,
}

/// Unique keep - signing, phase 2 to phase 3.
#[derive(Clone, Debug)]
pub struct UniqueKeep2to3 {
    pub instance_key: CScalar,
    pub instance_point: CurvePoint,
    pub inversion_mask: CScalar,
    pub key_share: CScalar,
    pub public_share: CurvePoint,
}

/// Broadcast - signing, phase 3 to phase 4: this party's additive shares of
/// the signature's denominator and numerator.
#[derive(Clone, Debug)]
pub struct Broadcast3to4 {
    pub u: CScalar,
    pub w: CScalar,
}

/// Domain-separation tag for the zero-share session identifier.
pub const ZERO_SID_TAG: u8 = 5;

/// The session identifier under which the signing quorum derives its
/// zero-sharing masks.
pub open spec fn spec_zero_sid(session_id: Seq<u8>, sign_id: Seq<u8>, chain_code: Seq<u8>) -> Seq<
    u8,
> {
    seq![ZERO_SID_TAG] + session_id + sign_id + chain_code
}

/// Concatenates the three identifier parts shared by both directions.
fn sign_sid_parts(session_id: &Vec<u8>, sign_id: &Vec<u8>, chain_code: &[u8; 32]) -> (r: Vec<u8>)
    ensures
        r@ =~= session_id@ + sign_id@ + chain_code@,
{
    let mut r = session_id.clone();
    let mut i: usize = 0;
    while i < sign_id.len()
        invariant
            i <= sign_id@.len(),
            r@.len() == session_id@.len() + i,
            r@ =~= session_id@ + sign_id@.take(i as int),
        decreases sign_id@.len() - i,
    {
        r.push(sign_id[i]);
        i += 1;
        proof {
            assert(r@ =~= session_id@ + sign_id@.take(i as int));
        }
    }
    proof {
        assert(sign_id@.take(sign_id@.len() as int) =~= sign_id@);
    }
    let mut i: usize = 0;
    while i < 32
        invariant
            i <= 32,
            r@.len() == session_id@.len() + sign_id@.len() + i,
            r@ =~= session_id@ + sign_id@ + chain_code@.take(i as int),
        decreases 32 - i,
    {
        r.push(chain_code[i]);
        i += 1;
        proof {
            assert(r@ =~= session_id@ + sign_id@ + chain_code@.take(i as int));
        }
    }
    proof {
        assert(chain_code@.take(32) =~= chain_code@);
    }
    r
}

/// Builds the zero-share session identifier.
fn zero_sid(session_id: &Vec<u8>, sign_id: &Vec<u8>, chain_code: &[u8; 32]) -> (r: Vec<u8>)
    ensures
        r@ =~= spec_zero_sid(session_id@, sign_id@, chain_code@),
{
    let parts = sign_sid_parts(session_id, sign_id, chain_code);
    let mut r: Vec<u8> = Vec::new();
    r.push(ZERO_SID_TAG);
    let mut i: usize = 0;
    while i < parts.len()
        invariant
            i <= parts@.len(),
            r@.len() == 1 + i,
            r@[0] == ZERO_SID_TAG,
            forall|k: int| 0 <= k < i ==> r@[1 + k] == parts@[k],
        decreases parts@.len() - i,
    {
        r.push(parts[i]);
        i += 1;
    }
    proof {
        assert(r@ =~= seq![ZERO_SID_TAG] + parts@);
        assert(r@ =~= spec_zero_sid(session_id@, sign_id@, chain_code@));
    }
    r
}

/// Looks up the receiver-side multiplication state for a counterparty.
pub open spec fn spec_find_receiver(
    s: Seq<(u8, crate::mul::MulReceiverState)>,
    idx: u8,
) -> Option<crate::mul::MulReceiverState>
    decreases s.len(),
{
    if s.len() == 0 {
        None
    } else if s.first().0 == idx {
        Some(s.first().1)
    } else {
        spec_find_receiver(s.drop_first(), idx)
    }
}

/// Finds the receiver-side multiplication state kept for a counterparty.
fn find_receiver(s: &Vec<(u8, crate::mul::MulReceiverState)>, idx: u8) -> (r: Option<
    crate::mul::MulReceiverState,
>)
    ensures
        r is Some <==> spec_find_receiver(s@, idx) is Some,
        r is Some ==> r->0@ =~= spec_find_receiver(s@, idx)->0@,
{
    let mut i: usize = 0;
    proof {
        assert(s@.skip(0) =~= s@);
    }
    while i < s.len()
        invariant
            i <= s@.len(),
            spec_find_receiver(s@, idx) == spec_find_receiver(s@.skip(i as int), idx),
        decreases s@.len() - i,
    {
        proof {
            assert(s@.skip(i as int).first() == s@[i as int]);
            assert(s@.skip(i as int).drop_first() =~= s@.skip(i as int + 1));
        }
        if s[i].0 == idx {
            return Some(s[i].1.fresh_copy());
        }
        i += 1;
    }
    proof {
        assert(s@.skip(s@.len() as int) =~= Seq::<(u8, crate::mul::MulReceiverState)>::empty());
    }
    None
}

/// Looks up the sender-side multiplication state for a counterparty.
pub open spec fn spec_find_sender(
    s: Seq<(u8, crate::mul::MulSenderState)>,
    idx: u8,
) -> Option<crate::mul::MulSenderState>
    decreases s.len(),
{
    if s.len() == 0 {
        None
    } else if s.first().0 == idx {
        Some(s.first().1)
    } else {
        spec_find_sender(s.drop_first(), idx)
    }
}

/// Finds the sender-side multiplication state kept for a counterparty.
fn find_sender(s: &Vec<(u8, crate::mul::MulSenderState)>, idx: u8) -> (r: Option<
    crate::mul::MulSenderState,
>)
    ensures
        r is Some <==> spec_find_sender(s@, idx) is Some,
        r is Some ==> r->0@ =~= spec_find_sender(s@, idx)->0@,
{
    let mut i: usize = 0;
    proof {
        assert(s@.skip(0) =~= s@);
    }
    while i < s.len()
        invariant
            i <= s@.len(),
            spec_find_sender(s@, idx) == spec_find_sender(s@.skip(i as int), idx),
        decreases s@.len() - i,
    {
        proof {
            assert(s@.skip(i as int).first() == s@[i as int]);
            assert(s@.skip(i as int).drop_first() =~= s@.skip(i as int + 1));
        }
        if s[i].0 == idx {
            return Some(s[i].1.fresh_copy());
        }
        i += 1;
    }
    proof {
        assert(s@.skip(s@.len() as int) =~= Seq::<(u8, crate::mul::MulSenderState)>::empty());
    }
    None
}

/// The first `j` phase-1 keeps and transmits are correctly formed.
pub open spec fn spec_sign1_out_ok(
    keeps: Seq<KeepPhase1to2>,
    transmits: Seq<TransmitPhase1to2>,
    cps: Seq<u8>,
    me: u8,
    salts: Seq<Vec<u8>>,
    instance_point: Seq<u8>,
    j: int,
) -> bool
    decreases j,
{
    j <= 0 || {
        let k = j - 1;
        &&& spec_sign1_out_ok(keeps, transmits, cps, me, salts, instance_point, k)
        &&& keeps[k].counterparty == cps[k]
        &&& keeps[k].salt@ =~= salts[k]@
        &&& keeps[k].chi.reduced()
        &&& transmits[k].parties == (PartiesMessage { sender: me, receiver: cps[k] })
        &&& transmits[k].commitment@ =~= spec_commitment(salts[k]@, instance_point)
    }
}

/// Phase 1 of signing: validate the quorum, take the fresh nonce share and
/// inversion mask as explicit randomness, commit to the nonce share's
/// instance point towards each counterparty, start one multiplication per
/// counterparty as the receiver, and derive the zero-share mask.
///
/// Fails exactly on an invalid quorum description, except that the
/// multiplication primitive may also reject.
pub fn dkls_sign_phase1(
    party: &Party,
    sign_data: &SignData,
    instance_key: &CScalar,
    inversion_mask: &CScalar,
    commit_salts: &Vec<Vec<u8>>,
) -> (r: Result<(UniqueKeep1to2, Vec<KeepPhase1to2>, Vec<TransmitPhase1to2>), Abort>)
    requires
        party.wf(),
        instance_key.reduced(),
        inversion_mask.reduced(),
        commit_salts@.len() == party.parameters.threshold - 1,
        sign_data.sign_id@.len() == crate::proto::ID_LEN,
    ensures
        match r {
            Ok(out) => {
                let me = party.party_index;
                let cps = sign_data.counterparties@;
                &&& sign_data.valid(party.parameters, me)
                &&& out.0.instance_key.bytes@ =~= instance_key.bytes@
                &&& out.0.instance_point.bytes@ =~= spec_mul_g(instance_key.val())
                &&& out.0.instance_point.valid()
                &&& out.0.inversion_mask.bytes@ =~= inversion_mask.bytes@
                &&& out.0.zeta.reduced()
                &&& out.0.zeta.val() as int == signed_fragment_sum(
                    party.zero_share.seeds@,
                    cps,
                    spec_zero_sid(
                        party.session_id@,
                        sign_data.sign_id@,
                        party.derivation_data.chain_code@,
                    ),
                ) % (group_order() as int)
                &&& out.1@.len() == cps.len()
                &&& out.2@.len() == cps.len()
                &&& spec_sign1_out_ok(
                    out.1@,
                    out.2@,
                    cps,
                    me,
                    commit_salts@,
                    spec_mul_g(instance_key.val()),
                    cps.len() as int,
                )
            },
            Err(a) => {
                &&& a.index == party.party_index
                &&& match a.reason {
                    AbortReason::WrongCounterpartyCount { expected, got: _ } => expected
                        == party.parameters.threshold - 1 && sign_data.counterparties@.len()
                        != party.parameters.threshold - 1,
                    AbortReason::InvalidPartyIndex { index } => sign_data.counterparties@.contains(
                        index,
                    ) && !(1 <= index <= party.parameters.share_count),
                    AbortReason::SelfInCounterparties => sign_data.counterparties@.contains(
                        party.party_index,
                    ),
                    AbortReason::DuplicateCounterparty { index } => exists|k: int, l: int|
                        0 <= k < l < sign_data.counterparties@.len() && (
                        #[trigger] sign_data.counterparties@[k]) == index && (
                        #[trigger] sign_data.counterparties@[l]) == index,
                    AbortReason::MultiplicationFailed { counterparty } => sign_data.valid(
                        party.parameters,
                        party.party_index,
                    ) && sign_data.counterparties@.contains(counterparty),
                    _ => false,
                }
            },
        },
{
    let me = party.party_index;
    let t = party.parameters.threshold;
    let n = party.parameters.share_count;
    let cps = &sign_data.counterparties;

    // Validate the quorum description before any protocol step.
    if cps.len() != (t - 1) as usize {
        return Err(
            Abort::new(
                me,
                AbortReason::WrongCounterpartyCount {
                    expected: t - 1,
                    got: if cps.len() > 255 {
                        255
                    } else {
                        cps.len() as u8
                    },
                },
            ),
        );
    }
    let mut i: usize = 0;
    while i < cps.len()
        invariant
            i <= cps@.len(),
            me == party.party_index,
            n == party.parameters.share_count,
            cps@ == sign_data.counterparties@,
            cps@.len() == party.parameters.threshold - 1,
            forall|k: int| 0 <= k < i ==> 1 <= #[trigger] cps@[k] <= n,
            forall|k: int| 0 <= k < i ==> #[trigger] cps@[k] != me,
            forall|k: int, l: int| 0 <= k < l < i ==> cps@[k] != cps@[l],
        decreases cps@.len() - i,
    {
        let cp = cps[i];
        if cp < 1 || cp > n {
            proof {
                assert(cps@[i as int] == cp);
                assert(cps@.contains(cp));
            }
            return Err(Abort::new(me, AbortReason::InvalidPartyIndex { index: cp }));
        }
        if cp == me {
            proof {
                assert(cps@[i as int] == me);
                assert(cps@.contains(me));
            }
            return Err(Abort::new(me, AbortReason::SelfInCounterparties));
        }
        let mut k: usize = 0;
        while k < i
            invariant
                k <= i,
                i < cps@.len(),
                me == party.party_index,
                cp == cps@[i as int],
                cps@ == sign_data.counterparties@,
                forall|l: int| 0 <= l < k ==> #[trigger] cps@[l] != cps@[i as int],
            decreases i - k,
        {
            if cps[k] == cp {
                proof {
                    assert(0 <= (k as int) && (k as int) < (i as int) && (i as int) < cps@.len());
                    assert(cps@[k as int] == cp && cps@[i as int] == cp);
                    assert(exists|x: int, y: int|
                        0 <= x < y < sign_data.counterparties@.len() && (
                        #[trigger] sign_data.counterparties@[x]) == cp && (
                        #[trigger] sign_data.counterparties@[y]) == cp) by {
                        assert((sign_data.counterparties@[k as int]) == cp && (
                        sign_data.counterparties@[i as int]) == cp);
                    }
                }
                return Err(Abort::new(me, AbortReason::DuplicateCounterparty { index: cp }));
            }
            k += 1;
        }
        i += 1;
    }
    proof {
        assert(counterparties_valid(cps@, party.parameters, me));
    }

    let instance_point = gen_mul(instance_key);

    // One commitment and one multiplication instance per counterparty.
    let mut keep: Vec<KeepPhase1to2> = Vec::new();
    let mut transmit: Vec<TransmitPhase1to2> = Vec::new();
    let mut i: usize = 0;
    while i < cps.len()
        invariant
            i <= cps@.len(),
            me == party.party_index,
            party.wf(),
            cps@ == sign_data.counterparties@,
            commit_salts@.len() == cps@.len(),
            instance_point.bytes@ =~= spec_mul_g(instance_key.val()),
            keep@.len() == i,
            transmit@.len() == i,
            sign_data.sign_id@.len() == crate::proto::ID_LEN,
            counterparties_valid(cps@, party.parameters, me),
            spec_sign1_out_ok(
                keep@,
                transmit@,
                cps@,
                me,
                commit_salts@,
                spec_mul_g(instance_key.val()),
                i as int,
            ),
        decreases cps@.len() - i,
    {
        let cp = cps[i];
        let salt = commit_salts[i].clone();
        let point_vec = crate::bytes::array33_to_vec(&instance_point.bytes);
        let commitment = commit_with_salt(&point_vec, &salt);
        let sid_parts = sign_sid_parts(
            &party.session_id,
            &sign_data.sign_id,
            &party.derivation_data.chain_code,
        );
        let sid = mul_sid(me, cp, &sid_parts);
        proof {
            assert(cps@[i as int] == cp);
            assert(cps@.contains(cp));
        }
        let receiver_blob = match find_receiver(&party.mul_receivers, cp) {
            Some(b) => b,
            None => {
                return Err(
                    Abort::new(me, AbortReason::MultiplicationFailed { counterparty: cp }),
                );
            },
        };
        let (chi, mul_keep, mul_transmit) = match mul_receiver_run1(&receiver_blob, &sid) {
            Ok(v) => v,
            Err(_) => {
                return Err(
                    Abort::new(me, AbortReason::MultiplicationFailed { counterparty: cp }),
                );
            },
        };
        let ghost old_keep = keep@;
        let ghost old_transmit = transmit@;
        keep.push(KeepPhase1to2 { counterparty: cp, salt, chi, mul_keep });
        transmit.push(
            TransmitPhase1to2 {
                parties: PartiesMessage { sender: me, receiver: cp },
                commitment,
                mul_transmit,
            },
        );
        proof {
            lemma_sign1_push(
                old_keep,
                keep@,
                old_transmit,
                transmit@,
                cps@,
                me,
                commit_salts@,
                spec_mul_g(instance_key.val()),
                i as int,
            );
            assert(keep@[i as int].salt@ =~= commit_salts@[i as int]@);
            assert(point_vec@ =~= spec_mul_g(instance_key.val()));
            assert(transmit@[i as int].commitment@ =~= spec_commitment(
                commit_salts@[i as int]@,
                spec_mul_g(instance_key.val()),
            ));
            assert(spec_sign1_out_ok(
                keep@,
                transmit@,
                cps@,
                me,
                commit_salts@,
                spec_mul_g(instance_key.val()),
                i as int + 1,
            ));
        }
        i += 1;
    }

    // The zero-share mask for this quorum and session.
    let zsid = zero_sid(
        &party.session_id,
        &sign_data.sign_id,
        &party.derivation_data.chain_code,
    );
    let zeta = party.zero_share.compute(cps, &zsid);

    let unique_keep = UniqueKeep1to2 {
        instance_key: *instance_key,
        instance_point,
        inversion_mask: *inversion_mask,
        zeta,
    };
    Ok((unique_keep, keep, transmit))
}

/// Product of the counterparty indices, modulo the group order: the
/// numerator of this party's own Lagrange coefficient.
pub open spec fn spec_cps_num(cs: Seq<u8>) -> nat
    decreases cs.len(),
{
    if cs.len() == 0 {
        1
    } else {
        (spec_cps_num(cs.drop_last()) * cs.last() as nat) % group_order()
    }
}

/// Product of `(counterparty - me)`, modulo the group order: the
/// denominator of this party's own Lagrange coefficient.
pub open spec fn spec_cps_den(cs: Seq<u8>, me: u8) -> nat
    decreases cs.len(),
{
    if cs.len() == 0 {
        1
    } else {
        (spec_cps_den(cs.drop_last(), me) * crate::dkg::spec_small_diff(
            cs.last() as nat,
            me as nat,
        )) % group_order()
    }
}

/// This party's Lagrange coefficient for the executing quorum.
pub open spec fn spec_own_lagrange(cs: Seq<u8>, me: u8) -> nat {
    (spec_cps_num(cs) * spec_inv(spec_cps_den(cs, me))) % group_order()
}

/// First phase-1 transmit whose sender is `idx`, if any.
pub open spec fn spec_find_sign1(s: Seq<TransmitPhase1to2>, idx: u8) -> Option<TransmitPhase1to2>
    decreases s.len(),
{
    if s.len() == 0 {
        None
    } else if s.first().parties.sender == idx {
        Some(s.first())
    } else {
        spec_find_sign1(s.drop_first(), idx)
    }
}

/// Finds the first phase-1 transmit from the given sender.
fn find_sign1(s: &Vec<TransmitPhase1to2>, idx: u8) -> (r: Option<TransmitPhase1to2>)
    ensures
        r is Some <==> spec_find_sign1(s@, idx) is Some,
        r is Some ==> {
            let f = spec_find_sign1(s@, idx)->0;
            &&& r->0.parties == f.parties
            &&& r->0.commitment@ =~= f.commitment@
            &&& r->0.mul_transmit@ =~= f.mul_transmit@
        },
{
    let mut i: usize = 0;
    proof {
        assert(s@.skip(0) =~= s@);
    }
    while i < s.len()
        invariant
            i <= s@.len(),
            spec_find_sign1(s@, idx) == spec_find_sign1(s@.skip(i as int), idx),
        decreases s@.len() - i,
    {
        proof {
            assert(s@.skip(i as int).first() == s@[i as int]);
            assert(s@.skip(i as int).drop_first() =~= s@.skip(i as int + 1));
        }
        if s[i].parties.sender == idx {
            return Some(
                TransmitPhase1to2 {
                    parties: s[i].parties,
                    commitment: s[i].commitment,
                    mul_transmit: s[i].mul_transmit.clone(),
                },
            );
        }
        i += 1;
    }
    proof {
        assert(s@.skip(s@.len() as int) =~= Seq::<TransmitPhase1to2>::empty());
    }
    None
}

/// The first `j` phase-2 keeps and transmits are correctly formed: the
/// consistency points open the multiplication shares in the exponent, and
/// the masked inversion share is exact.
pub open spec fn spec_sign2_out_ok(
    keeps: Seq<KeepPhase2to3>,
    transmits: Seq<TransmitPhase2to3>,
    cps: Seq<u8>,
    me: u8,
    rcv: Seq<TransmitPhase1to2>,
    kept1: Seq<KeepPhase1to2>,
    inversion_mask: nat,
    instance_point: Seq<u8>,
    public_share: Seq<u8>,
    j: int,
) -> bool
    decreases j,
{
    j <= 0 || {
        let k = j - 1;
        &&& spec_sign2_out_ok(
            keeps,
            transmits,
            cps,
            me,
            rcv,
            kept1,
            inversion_mask,
            instance_point,
            public_share,
            k,
        )
        &&& keeps[k].counterparty == cps[k]
        &&& keeps[k].c_u.reduced()
        &&& keeps[k].c_v.reduced()
        &&& spec_find_sign1(rcv, cps[k]) is Some
        &&& keeps[k].commitment@ =~= spec_find_sign1(rcv, cps[k])->0.commitment@
        &&& keeps[k].chi.bytes@ =~= kept1[k].chi.bytes@
        &&& keeps[k].mul_keep@ =~= kept1[k].mul_keep@
        &&& transmits[k].parties == (PartiesMessage { sender: me, receiver: cps[k] })
        &&& transmits[k].gamma_u.bytes@ =~= spec_mul_g(keeps[k].c_u.val())
        &&& transmits[k].gamma_v.bytes@ =~= spec_mul_g(keeps[k].c_v.val())
        &&& transmits[k].psi.reduced()
        &&& (transmits[k].psi.val() + kept1[k].chi.val()) % group_order() == inversion_mask
        &&& transmits[k].public_share.bytes@ =~= public_share
        &&& transmits[k].instance_point.bytes@ =~= instance_point
        &&& transmits[k].salt@ =~= kept1[k].salt@
    }
}

/// Growing the phase-2 lists does not disturb the checked prefix.
proof fn lemma_sign2_push(
    keeps: Seq<KeepPhase2to3>,
    keeps2: Seq<KeepPhase2to3>,
    transmits: Seq<TransmitPhase2to3>,
    transmits2: Seq<TransmitPhase2to3>,
    cps: Seq<u8>,
    me: u8,
    rcv: Seq<TransmitPhase1to2>,
    kept1: Seq<KeepPhase1to2>,
    inversion_mask: nat,
    instance_point: Seq<u8>,
    public_share: Seq<u8>,
    j: int,
)
    requires
        spec_sign2_out_ok(
            keeps,
            transmits,
            cps,
            me,
            rcv,
            kept1,
            inversion_mask,
            instance_point,
            public_share,
            j,
        ),
        j <= keeps.len(),
        j <= transmits.len(),
        keeps2.len() == keeps.len() + 1,
        transmits2.len() == transmits.len() + 1,
        forall|k: int| 0 <= k < keeps.len() ==> #[trigger] keeps2[k] == keeps[k],
        forall|k: int| 0 <= k < transmits.len() ==> #[trigger] transmits2[k] == transmits[k],
    ensures
        spec_sign2_out_ok(
            keeps2,
            transmits2,
            cps,
            me,
            rcv,
            kept1,
            inversion_mask,
            instance_point,
            public_share,
            j,
        ),
    decreases j,
{
    if j > 0 {
        lemma_sign2_push(
            keeps,
            keeps2,
            transmits,
            transmits2,
            cps,
            me,
            rcv,
            kept1,
            inversion_mask,
            instance_point,
            public_share,
            j - 1,
        );
    }
}

/// Phase 2 of signing: derive this party's additive key share (its secret
/// share scaled by its Lagrange coefficient, masked by the zero share),
/// answer every counterparty's multiplication message as the sender, open
/// the committed instance point, and send the consistency points.
pub fn dkls_sign_phase2(
    party: &Party,
    sign_data: &SignData,
    unique_kept: &UniqueKeep1to2,
    kept: &Vec<KeepPhase1to2>,
    received: &Vec<TransmitPhase1to2>,
) -> (r: Result<(UniqueKeep2to3, Vec<KeepPhase2to3>, Vec<TransmitPhase2to3>), Abort>)
    requires
        party.wf(),
        sign_data.valid(party.parameters, party.party_index),
        unique_kept.instance_key.reduced(),
        unique_kept.inversion_mask.reduced(),
        unique_kept.zeta.reduced(),
        unique_kept.instance_point.valid(),
        kept@.len() == sign_data.counterparties@.len(),
        forall|k: int|
            0 <= k < kept@.len() ==> (#[trigger] kept@[k]).counterparty
                == sign_data.counterparties@[k] && kept@[k].chi.reduced(),
    ensures
        match r {
            Ok(out) => {
                let me = party.party_index;
                let cps = sign_data.counterparties@;
                let l = spec_own_lagrange(cps, me);
                let key_share = (party.poly_point.val() * l + unique_kept.zeta.val())
                    % group_order();
                &&& spec_cps_den(cps, me) != 0
                &&& out.0.instance_key.bytes@ =~= unique_kept.instance_key.bytes@
                &&& out.0.instance_point.bytes@ =~= unique_kept.instance_point.bytes@
                &&& out.0.inversion_mask.bytes@ =~= unique_kept.inversion_mask.bytes@
                &&& out.0.key_share.reduced()
                &&& out.0.key_share.val() == key_share
                &&& out.0.public_share.bytes@ =~= spec_mul_g(key_share)
                &&& out.0.public_share.valid()
                &&& out.1@.len() == cps.len()
                &&& out.2@.len() == cps.len()
                &&& spec_sign2_out_ok(
                    out.1@,
                    out.2@,
                    cps,
                    me,
                    received@,
                    kept@,
                    unique_kept.inversion_mask.val(),
                    unique_kept.instance_point.bytes@,
                    spec_mul_g(key_share),
                    cps.len() as int,
                )
            },
            Err(a) => {
                &&& a.index == party.party_index
                &&& match a.reason {
                    AbortReason::LagrangeCoefficientFailed => spec_cps_den(
                        sign_data.counterparties@,
                        party.party_index,
                    ) == 0,
                    AbortReason::WrongMessageCount { expected, got: _ } => received@.len()
                        != sign_data.counterparties@.len() && expected
                        == sign_data.counterparties@.len(),
                    AbortReason::MissingMessageFromParty { party: p } => sign_data.counterparties@.contains(
                        p,
                    ) && spec_find_sign1(received@, p) is None,
                    AbortReason::MisroutedMessage { actual_receiver } => actual_receiver
                        != party.party_index,
                    AbortReason::MultiplicationFailed { counterparty } => {
                        &&& sign_data.counterparties@.contains(counterparty)
                        &&& received@.len() == sign_data.counterparties@.len()
                        &&& spec_cps_den(sign_data.counterparties@, party.party_index) != 0
                        &&& spec_find_sign1(received@, counterparty) is Some
                        &&& spec_find_sign1(received@, counterparty)->0.parties.receiver
                            == party.party_index
                    },
                    _ => false,
                }
            },
        },
{
    let me = party.party_index;
    let cps = &sign_data.counterparties;

    // This party's Lagrange coefficient for the executing set.
    let mut num = CScalar::one();
    let mut den = CScalar::one();
    let mut i: usize = 0;
    proof {
        assert(cps@.take(0) =~= Seq::<u8>::empty());
    }
    while i < cps.len()
        invariant
            i <= cps@.len(),
            me == party.party_index,
            cps@ == sign_data.counterparties@,
            counterparties_valid(cps@, party.parameters, me),
            num.reduced(),
            den.reduced(),
            num.val() == spec_cps_num(cps@.take(i as int)),
            den.val() == spec_cps_den(cps@.take(i as int), me),
        decreases cps@.len() - i,
    {
        let cp = cps[i];
        let cs = CScalar::from_u8(cp);
        let ms = CScalar::from_u8(me);
        let next_num = scalar_mul(&num, &cs);
        let diff = scalar_sub(&cs, &ms);
        proof {
            crate::dkg::lemma_sub_small(diff.val(), cp as nat, me as nat);
            assert(cps@.take(i as int + 1).drop_last() =~= cps@.take(i as int));
            assert(cps@.take(i as int + 1).last() == cp);
        }
        let next_den = scalar_mul(&den, &diff);
        num = next_num;
        den = next_den;
        i += 1;
    }
    proof {
        assert(cps@.take(cps@.len() as int) =~= cps@);
    }
    let den_inv = match scalar_invert(&den) {
        Some(v) => v,
        None => {
            return Err(Abort::new(me, AbortReason::LagrangeCoefficientFailed));
        },
    };
    let l = scalar_mul(&num, &den_inv);

    // This party's additive share of the secret key for this quorum.
    let scaled = scalar_mul(&party.poly_point, &l);
    let key_share = scalar_add(&scaled, &unique_kept.zeta);
    proof {
        lemma_scaled_share(
            party.poly_point.val(),
            l.val(),
            unique_kept.zeta.val(),
            scaled.val(),
            key_share.val(),
        );
    }
    let public_share = gen_mul(&key_share);

    if received.len() != cps.len() {
        return Err(
            Abort::new(
                me,
                AbortReason::WrongMessageCount {
                    expected: if cps.len() > 255 {
                        255
                    } else {
                        cps.len() as u8
                    },
                    got: if received.len() > 255 {
                        255
                    } else {
                        received.len() as u8
                    },
                },
            ),
        );
    }

    let mut keep: Vec<KeepPhase2to3> = Vec::new();
    let mut transmit: Vec<TransmitPhase2to3> = Vec::new();
    let mut i: usize = 0;
    while i < cps.len()
        invariant
            i <= cps@.len(),
            me == party.party_index,
            party.wf(),
            cps@ == sign_data.counterparties@,
            counterparties_valid(cps@, party.parameters, me),
            sign_data.sign_id@.len() == crate::proto::ID_LEN,
            received@.len() == cps@.len(),
            spec_cps_den(sign_data.counterparties@, party.party_index) != 0,
            kept@.len() == cps@.len(),
            forall|k: int|
                0 <= k < kept@.len() ==> (#[trigger] kept@[k]).counterparty == cps@[k]
                    && kept@[k].chi.reduced(),
            unique_kept.instance_key.reduced(),
            unique_kept.inversion_mask.reduced(),
            unique_kept.instance_point.valid(),
            key_share.reduced(),
            public_share.bytes@ =~= spec_mul_g(key_share.val()),
            keep@.len() == i,
            transmit@.len() == i,
            spec_sign2_out_ok(
                keep@,
                transmit@,
                cps@,
                me,
                received@,
                kept@,
                unique_kept.inversion_mask.val(),
                unique_kept.instance_point.bytes@,
                spec_mul_g(key_share.val()),
                i as int,
            ),
        decreases cps@.len() - i,
    {
        let cp = cps[i];
        let msg = match find_sign1(received, cp) {
            Some(m) => m,
            None => {
                proof {
                    assert(cps@[i as int] == cp);
                    assert(cps@.contains(cp));
                }
                return Err(
                    Abort::new(
                        party.party_index,
                        AbortReason::MissingMessageFromParty { party: cp },
                    ),
                );
            },
        };
        if msg.parties.receiver != me {
            return Err(
                Abort::new(
                    party.party_index,
                    AbortReason::MisroutedMessage { actual_receiver: msg.parties.receiver },
                ),
            );
        }
        proof {
            assert(cps@[i as int] == cp);
            assert(cps@.contains(cp));
            assert(msg.parties == spec_find_sign1(received@, cp)->0.parties);
        }
        let sid_parts = sign_sid_parts(
            &party.session_id,
            &sign_data.sign_id,
            &party.derivation_data.chain_code,
        );
        let sid = mul_sid(cp, me, &sid_parts);
        let sender_blob = match find_sender(&party.mul_senders, cp) {
            Some(b) => b,
            None => {
                return Err(
                    Abort::new(
                        party.party_index,
                        AbortReason::MultiplicationFailed { counterparty: cp },
                    ),
                );
            },
        };
        let (c_u, c_v, mul_transmit) = match mul_sender_run(
            &sender_blob,
            &sid,
            &unique_kept.instance_key,
            &key_share,
            &msg.mul_transmit,
        ) {
            Ok(v) => v,
            Err(_) => {
                return Err(
                    Abort::new(
                        party.party_index,
                        AbortReason::MultiplicationFailed { counterparty: cp },
                    ),
                );
            },
        };
        let gamma_u = gen_mul(&c_u);
        let gamma_v = gen_mul(&c_v);
        let psi = scalar_sub(&unique_kept.inversion_mask, &kept[i].chi);
        let ghost old_keep = keep@;
        let ghost old_transmit = transmit@;
        keep.push(
            KeepPhase2to3 {
                counterparty: cp,
                c_u,
                c_v,
                commitment: msg.commitment,
                mul_keep: kept[i].mul_keep.fresh_copy(),
                chi: kept[i].chi,
            },
        );
        transmit.push(
            TransmitPhase2to3 {
                parties: PartiesMessage { sender: me, receiver: cp },
                gamma_u,
                gamma_v,
                psi,
                public_share,
                instance_point: unique_kept.instance_point,
                salt: kept[i].salt.clone(),
                mul_transmit,
            },
        );
        proof {
            lemma_sign2_push(
                old_keep,
                keep@,
                old_transmit,
                transmit@,
                cps@,
                me,
                received@,
                kept@,
                unique_kept.inversion_mask.val(),
                unique_kept.instance_point.bytes@,
                spec_mul_g(key_share.val()),
                i as int,
            );
            let gm = spec_find_sign1(received@, cps@[i as int])->0;
            assert(msg.commitment@ =~= gm.commitment@);
            assert(spec_sign2_out_ok(
                keep@,
                transmit@,
                cps@,
                me,
                received@,
                kept@,
                unique_kept.inversion_mask.val(),
                unique_kept.instance_point.bytes@,
                spec_mul_g(key_share.val()),
                i as int + 1,
            ));
        }
        i += 1;
    }

    let unique_keep = UniqueKeep2to3 {
        instance_key: unique_kept.instance_key,
        instance_point: unique_kept.instance_point,
        inversion_mask: unique_kept.inversion_mask,
        key_share,
        public_share,
    };
    Ok((unique_keep, keep, transmit))
}

/// Modular bookkeeping for the additive key share.
proof fn lemma_scaled_share(poly: nat, l: nat, zeta: nat, scaled: nat, key_share: nat)
    requires
        scaled == (poly * l) % group_order(),
        key_share == (scaled + zeta) % group_order(),
        zeta < group_order(),
    ensures
        key_share == (poly * l + zeta) % group_order(),
{
    let n = group_order() as int;
    vstd::arithmetic::div_mod::lemma_add_mod_noop((poly * l) as int, zeta as int, n);
    vstd::arithmetic::div_mod::lemma_mod_twice((poly * l) as int, n);
    vstd::arithmetic::div_mod::lemma_small_mod(zeta, group_order());
}

/// First phase-2 transmit whose sender is `idx`, if any.
pub open spec fn spec_find_sign2(s: Seq<TransmitPhase2to3>, idx: u8) -> Option<TransmitPhase2to3>
    decreases s.len(),
{
    if s.len() == 0 {
        None
    } else if s.first().parties.sender == idx {
        Some(s.first())
    } else {
        spec_find_sign2(s.drop_first(), idx)
    }
}

/// Finds the first phase-2 transmit from the given sender.
fn find_sign2(s: &Vec<TransmitPhase2to3>, idx: u8) -> (r: Option<TransmitPhase2to3>)
    ensures
        r is Some <==> spec_find_sign2(s@, idx) is Some,
        r is Some ==> {
            let f = spec_find_sign2(s@, idx)->0;
            &&& r->0.parties == f.parties
            &&& r->0.gamma_u.bytes@ =~= f.gamma_u.bytes@
            &&& r->0.gamma_v.bytes@ =~= f.gamma_v.bytes@
            &&& r->0.psi.bytes@ =~= f.psi.bytes@
            &&& r->0.public_share.bytes@ =~= f.public_share.bytes@
            &&& r->0.instance_point.bytes@ =~= f.instance_point.bytes@
            &&& r->0.salt@ =~= f.salt@
            &&& r->0.mul_transmit@ =~= f.mul_transmit@
        },
{
    let mut i: usize = 0;
    proof {
        assert(s@.skip(0) =~= s@);
    }
    while i < s.len()
        invariant
            i <= s@.len(),
            spec_find_sign2(s@, idx) == spec_find_sign2(s@.skip(i as int), idx),
        decreases s@.len() - i,
    {
        proof {
            assert(s@.skip(i as int).first() == s@[i as int]);
            assert(s@.skip(i as int).drop_first() =~= s@.skip(i as int + 1));
        }
        if s[i].parties.sender == idx {
            return Some(
                TransmitPhase2to3 {
                    parties: s[i].parties,
                    gamma_u: s[i].gamma_u,
                    gamma_v: s[i].gamma_v,
                    psi: s[i].psi,
                    public_share: s[i].public_share,
                    instance_point: s[i].instance_point,
                    salt: s[i].salt.clone(),
                    mul_transmit: s[i].mul_transmit.clone(),
                },
            );
        }
        i += 1;
    }
    proof {
        assert(s@.skip(s@.len() as int) =~= Seq::<TransmitPhase2to3>::empty());
    }
    None
}

/// Which of the parties `1..=n` execute this signing session.
pub open spec fn spec_incl(me: u8, cps: Seq<u8>, n: u8) -> Seq<bool> {
    Seq::new(n as nat, |i: int| i + 1 == me || cps.contains((i + 1) as u8))
}

/// The instance point each party opened, zero-based by party index: our own
/// for ourselves, the one in the sender's message for everyone else.
pub open spec fn spec_inst_points(
    own: Seq<u8>,
    rcv: Seq<TransmitPhase2to3>,
    me: u8,
    n: u8,
) -> Seq<Seq<u8>> {
    Seq::new(
        n as nat,
        |i: int|
            if i + 1 == me {
                own
            } else {
                spec_find_sign2(rcv, (i + 1) as u8)->0.instance_point.bytes@
            },
    )
}

/// The public share each party sent, zero-based by party index.
pub open spec fn spec_share_points(
    own: Seq<u8>,
    rcv: Seq<TransmitPhase2to3>,
    me: u8,
    n: u8,
) -> Seq<Seq<u8>> {
    Seq::new(
        n as nat,
        |i: int|
            if i + 1 == me {
                own
            } else {
                spec_find_sign2(rcv, (i + 1) as u8)->0.public_share.bytes@
            },
    )
}

/// Sum of the included points among the first `i`, in ascending party
/// order; `None` while no point has been included yet.
pub open spec fn spec_masked_sum(points: Seq<Seq<u8>>, incl: Seq<bool>, i: nat) -> Option<Seq<u8>>
    decreases i,
{
    if i == 0 {
        None
    } else {
        let prev = spec_masked_sum(points, incl, (i - 1) as nat);
        if incl[i - 1] {
            match prev {
                None => Some(points[i - 1]),
                Some(p) => Some(spec_point_add(p, points[i - 1])),
            }
        } else {
            prev
        }
    }
}

/// The first `j` counterparties' phase-3 messages pass every deterministic
/// check: present, routed to us, canonically encoded, non-trivial, opening
/// the phase-1 commitment, with an accepted multiplication finish whose
/// shares are consistent in the exponent.
pub open spec fn spec_sign3_checks_ok(
    kept: Seq<KeepPhase2to3>,
    rcv: Seq<TransmitPhase2to3>,
    cps: Seq<u8>,
    me: u8,
    parts: Seq<u8>,
    receivers: Seq<(u8, crate::mul::MulReceiverState)>,
    j: int,
) -> bool
    decreases j,
{
    j <= 0 || {
        let k = j - 1;
        let cp = cps[k];
        let m = spec_find_sign2(rcv, cp);
        let finish = crate::mul::spec_mul_finish(
            crate::dkg::spec_mul_sid(me, cp, parts),
            spec_find_receiver(receivers, cp)->0@,
            kept[k].mul_keep@,
            m->0.mul_transmit@,
        );
        &&& spec_sign3_checks_ok(kept, rcv, cps, me, parts, receivers, k)
        &&& m is Some
        &&& m->0.parties.receiver == me
        &&& crate::point::spec_is_point(m->0.instance_point.bytes@)
        &&& crate::point::spec_is_point(m->0.gamma_u.bytes@)
        &&& crate::point::spec_is_point(m->0.gamma_v.bytes@)
        &&& crate::point::spec_is_point(m->0.public_share.bytes@)
        &&& be_val(m->0.psi.bytes@) < group_order()
        &&& !(m->0.instance_point.bytes@ =~= identity_enc())
        &&& kept[k].commitment@ =~= spec_commitment(m->0.salt@, m->0.instance_point.bytes@)
        &&& spec_find_receiver(receivers, cp) is Some
        &&& finish is Some
        &&& spec_point_mul(kept[k].chi.val(), m->0.instance_point.bytes@) =~= spec_point_add(
            spec_mul_g((finish->0).0),
            m->0.gamma_u.bytes@,
        )
        &&& spec_point_mul(kept[k].chi.val(), m->0.public_share.bytes@) =~= spec_point_add(
            spec_mul_g((finish->0).1),
            m->0.gamma_v.bytes@,
        )
    }
}

/// A later prefix of checks contains every earlier one.
pub proof fn lemma_sign3_checks_prefix(
    kept: Seq<KeepPhase2to3>,
    rcv: Seq<TransmitPhase2to3>,
    cps: Seq<u8>,
    me: u8,
    parts: Seq<u8>,
    receivers: Seq<(u8, crate::mul::MulReceiverState)>,
    lo: int,
    hi: int,
)
    requires
        lo <= hi,
        spec_sign3_checks_ok(kept, rcv, cps, me, parts, receivers, hi),
    ensures
        spec_sign3_checks_ok(kept, rcv, cps, me, parts, receivers, lo),
    decreases hi,
{
    if lo < hi && hi > 0 {
        lemma_sign3_checks_prefix(kept, rcv, cps, me, parts, receivers, lo, hi - 1);
    }
}

/// Every deterministic check of signing phase 3 passes on these inputs.
/// The multiplication finish is itself deterministic, so success is owed
/// exactly here.
pub open spec fn spec_sign3_accepts(
    party: Party,
    sign_data: SignData,
    unique_kept: UniqueKeep2to3,
    kept: Seq<KeepPhase2to3>,
    rcv: Seq<TransmitPhase2to3>,
) -> bool {
    let me = party.party_index;
    let n = party.parameters.share_count;
    let cps = sign_data.counterparties@;
    let parts = party.session_id@ + sign_data.sign_id@ + party.derivation_data.chain_code@;
    let ipoints = spec_inst_points(unique_kept.instance_point.bytes@, rcv, me, n);
    let spoints = spec_share_points(unique_kept.public_share.bytes@, rcv, me, n);
    let incl = spec_incl(me, cps, n);
    &&& rcv.len() == cps.len()
    &&& spec_sign3_checks_ok(kept, rcv, cps, me, parts, party.mul_receivers@, cps.len() as int)
    &&& spec_masked_sum(ipoints, incl, n as nat) is Some
    &&& spec_masked_sum(spoints, incl, n as nat) is Some
    &&& spec_masked_sum(spoints, incl, n as nat)->0 =~= party.pk.bytes@
    &&& !(spec_masked_sum(ipoints, incl, n as nat)->0 =~= identity_enc())
}

/// Phase 3 of signing: open and check every counterparty's instance point
/// against its commitment, finish every multiplication as the receiver,
/// check the resulting shares in the exponent, recombine all instance
/// points into the joint nonce point, and broadcast this party's additive
/// shares of the signature fraction. The first output is the x-coordinate
/// of the joint nonce point: the `r` component of the signature, identical
/// at every executing party.
#[verifier::rlimit(60)]
pub fn dkls_sign_phase3(
    party: &Party,
    sign_data: &SignData,
    unique_kept: &UniqueKeep2to3,
    kept: &Vec<KeepPhase2to3>,
    received: &Vec<TransmitPhase2to3>,
) -> (r: Result<([u8; 32], Broadcast3to4), Abort>)
    requires
        party.wf(),
        sign_data.valid(party.parameters, party.party_index),
        unique_kept.instance_key.reduced(),
        unique_kept.inversion_mask.reduced(),
        unique_kept.key_share.reduced(),
        unique_kept.instance_point.valid(),
        !unique_kept.instance_point.spec_is_identity(),
        unique_kept.public_share.valid(),
        kept@.len() == sign_data.counterparties@.len(),
        forall|k: int|
            0 <= k < kept@.len() ==> {
                let kk = #[trigger] kept@[k];
                &&& kk.counterparty == sign_data.counterparties@[k]
                &&& kk.chi.reduced()
                &&& kk.c_u.reduced()
                &&& kk.c_v.reduced()
            },
    ensures
        r is Ok <==> spec_sign3_accepts(*party, *sign_data, *unique_kept, kept@, received@),
        match r {
            Ok(out) => {
                let me = party.party_index;
                let n = party.parameters.share_count;
                let cps = sign_data.counterparties@;
                let ipoints = spec_inst_points(
                    unique_kept.instance_point.bytes@,
                    received@,
                    me,
                    n,
                );
                let spoints = spec_share_points(
                    unique_kept.public_share.bytes@,
                    received@,
                    me,
                    n,
                );
                let incl = spec_incl(me, cps, n);
                let total = spec_masked_sum(ipoints, incl, n as nat);
                &&& spec_sign3_checks_ok(
                    kept@,
                    received@,
                    cps,
                    me,
                    party.session_id@ + sign_data.sign_id@ + party.derivation_data.chain_code@,
                    party.mul_receivers@,
                    cps.len() as int,
                )
                &&& total is Some
                &&& !(total->0 =~= identity_enc())
                &&& out.0@ =~= crate::point::spec_x_of(total->0)
                &&& spec_masked_sum(spoints, incl, n as nat) == Some(party.pk.bytes@)
                &&& out.1.u.reduced()
                &&& out.1.w.reduced()
            },
            Err(a) => {
                &&& a.index == party.party_index
                &&& match a.reason {
                    AbortReason::CommitmentMismatch { counterparty } => {
                        let m = spec_find_sign2(received@, counterparty);
                        exists|k: int|
                            0 <= k < kept@.len() && (#[trigger] kept@[k]).counterparty
                                == counterparty && m is Some && !(kept@[k].commitment@
                                =~= spec_commitment(m->0.salt@, m->0.instance_point.bytes@))
                    },
                    AbortReason::TrivialInstancePoint { counterparty } => {
                        let m = spec_find_sign2(received@, counterparty);
                        m is Some && m->0.instance_point.bytes@ =~= identity_enc()
                    },
                    AbortReason::MissingMessageFromParty { party: p } => sign_data.counterparties@.contains(
                        p,
                    ) && spec_find_sign2(received@, p) is None,
                    AbortReason::MisroutedMessage { actual_receiver } => actual_receiver
                        != party.party_index,
                    AbortReason::WrongMessageCount { expected: _, got: _ } => received@.len()
                        != sign_data.counterparties@.len(),
                    AbortReason::InvalidEncoding { party: p } => {
                        let m = spec_find_sign2(received@, p);
                        m is Some && !(crate::point::spec_is_point(m->0.instance_point.bytes@)
                            && crate::point::spec_is_point(m->0.gamma_u.bytes@)
                            && crate::point::spec_is_point(m->0.gamma_v.bytes@)
                            && crate::point::spec_is_point(m->0.public_share.bytes@) && be_val(
                            m->0.psi.bytes@,
                        ) < group_order())
                    },
                    AbortReason::MultiplicationFailed { counterparty } => exists|k: int|
                        0 <= k < sign_data.counterparties@.len() && (
                        #[trigger] sign_data.counterparties@[k]) == counterparty && (
                        spec_find_receiver(party.mul_receivers@, counterparty) is None || (
                        spec_find_sign2(received@, counterparty) is Some
                            && crate::mul::spec_mul_finish(
                            crate::dkg::spec_mul_sid(
                                party.party_index,
                                counterparty,
                                party.session_id@ + sign_data.sign_id@
                                    + party.derivation_data.chain_code@,
                            ),
                            spec_find_receiver(party.mul_receivers@, counterparty)->0@,
                            kept@[k].mul_keep@,
                            spec_find_sign2(received@, counterparty)->0.mul_transmit@,
                        ) is None)),
                    AbortReason::GammaInconsistency { counterparty } => exists|k: int|
                        0 <= k < sign_data.counterparties@.len() && (
                        #[trigger] sign_data.counterparties@[k]) == counterparty && {
                            let m = spec_find_sign2(received@, counterparty);
                            let finish = crate::mul::spec_mul_finish(
                                crate::dkg::spec_mul_sid(
                                    party.party_index,
                                    counterparty,
                                    party.session_id@ + sign_data.sign_id@
                                        + party.derivation_data.chain_code@,
                                ),
                                spec_find_receiver(party.mul_receivers@, counterparty)->0@,
                                kept@[k].mul_keep@,
                                m->0.mul_transmit@,
                            );
                            m is Some && finish is Some && !(spec_point_mul(
                                kept@[k].chi.val(),
                                m->0.instance_point.bytes@,
                            ) =~= spec_point_add(spec_mul_g((finish->0).0), m->0.gamma_u.bytes@)
                                && spec_point_mul(kept@[k].chi.val(), m->0.public_share.bytes@)
                                =~= spec_point_add(spec_mul_g((finish->0).1), m->0.gamma_v.bytes@))
                        },
                    AbortReason::PolynomialInconsistency => {
                        let ipoints = spec_inst_points(
                            unique_kept.instance_point.bytes@,
                            received@,
                            party.party_index,
                            party.parameters.share_count,
                        );
                        let spoints = spec_share_points(
                            unique_kept.public_share.bytes@,
                            received@,
                            party.party_index,
                            party.parameters.share_count,
                        );
                        let incl = spec_incl(
                            party.party_index,
                            sign_data.counterparties@,
                            party.parameters.share_count,
                        );
                        let nn = party.parameters.share_count as nat;
                        ||| spec_masked_sum(ipoints, incl, nn) is None
                        ||| spec_masked_sum(spoints, incl, nn) is None
                        ||| !(spec_masked_sum(spoints, incl, nn)->0 =~= party.pk.bytes@)
                        ||| spec_masked_sum(ipoints, incl, nn)->0 =~= identity_enc()
                    },
                    _ => false,
                }
            },
        },
{
    let me = party.party_index;
    let n = party.parameters.share_count;
    let cps = &sign_data.counterparties;

    let ghost gparts = party.session_id@ + sign_data.sign_id@
        + party.derivation_data.chain_code@;
    if received.len() != cps.len() {
        proof {
            assert(!spec_sign3_accepts(*party, *sign_data, *unique_kept, kept@, received@));
        }
        return Err(
            Abort::new(
                me,
                AbortReason::WrongMessageCount {
                    expected: if cps.len() > 255 {
                        255
                    } else {
                        cps.len() as u8
                    },
                    got: if received.len() > 255 {
                        255
                    } else {
                        received.len() as u8
                    },
                },
            ),
        );
    }

    // Check every counterparty's reveal, finish its multiplication, and
    // accumulate the scalar sums.
    let mut first_sum = unique_kept.inversion_mask;
    let mut second_u = CScalar::default();
    let mut second_v = CScalar::default();
    let mut i: usize = 0;
    while i < cps.len()
        invariant
            i <= cps@.len(),
            me == party.party_index,
            party.wf(),
            cps@ == sign_data.counterparties@,
            sign_data.sign_id@.len() == crate::proto::ID_LEN,
            kept@.len() == cps@.len(),
            forall|k: int|
                0 <= k < kept@.len() ==> {
                    let kk = #[trigger] kept@[k];
                    &&& kk.counterparty == cps@[k]
                    &&& kk.chi.reduced()
                    &&& kk.c_u.reduced()
                    &&& kk.c_v.reduced()
                },
            first_sum.reduced(),
            second_u.reduced(),
            second_v.reduced(),
            received@.len() == cps@.len(),
            gparts == party.session_id@ + sign_data.sign_id@
                + party.derivation_data.chain_code@,
            spec_sign3_checks_ok(
                kept@,
                received@,
                cps@,
                me,
                gparts,
                party.mul_receivers@,
                i as int,
            ),
        decreases cps@.len() - i,
    {
        let cp = cps[i];
        proof {
            assert(cps@[i as int] == cp);
            assert(cps@.contains(cp));
        }
        let msg = match find_sign2(received, cp) {
            Some(m) => m,
            None => {
                proof {
                    assert(spec_find_sign2(received@, cp) is None);
                    if spec_sign3_accepts(*party, *sign_data, *unique_kept, kept@, received@) {
                        lemma_sign3_checks_prefix(
                            kept@,
                            received@,
                            cps@,
                            me,
                            gparts,
                            party.mul_receivers@,
                            i as int + 1,
                            cps@.len() as int,
                        );
                    }
                    assert(!spec_sign3_accepts(*party, *sign_data, *unique_kept, kept@, received@));
                }
                return Err(
                    Abort::new(
                        party.party_index,
                        AbortReason::MissingMessageFromParty { party: cp },
                    ),
                );
            },
        };
        proof {
            assert(msg.parties == spec_find_sign2(received@, cp)->0.parties);
        }
        if msg.parties.receiver != me {
            proof {
                if spec_sign3_accepts(*party, *sign_data, *unique_kept, kept@, received@) {
                    lemma_sign3_checks_prefix(
                            kept@,
                            received@,
                            cps@,
                            me,
                            gparts,
                            party.mul_receivers@,
                            i as int + 1,
                            cps@.len() as int,
                        );
                }
                assert(!spec_sign3_accepts(*party, *sign_data, *unique_kept, kept@, received@));
            }
            return Err(
                Abort::new(
                    party.party_index,
                    AbortReason::MisroutedMessage { actual_receiver: msg.parties.receiver },
                ),
            );
        }
        proof {
            let gm = spec_find_sign2(received@, cp)->0;
            assert(msg.instance_point.bytes@ =~= gm.instance_point.bytes@);
            assert(msg.gamma_u.bytes@ =~= gm.gamma_u.bytes@);
            assert(msg.gamma_v.bytes@ =~= gm.gamma_v.bytes@);
            assert(msg.public_share.bytes@ =~= gm.public_share.bytes@);
            assert(msg.psi.bytes@ =~= gm.psi.bytes@);
        }
        // Every received value must be canonically encoded before any use.
        if !point_check(&msg.instance_point.bytes) || !point_check(&msg.gamma_u.bytes)
            || !point_check(&msg.gamma_v.bytes) || !point_check(&msg.public_share.bytes) {
            proof {
                if spec_sign3_accepts(*party, *sign_data, *unique_kept, kept@, received@) {
                    lemma_sign3_checks_prefix(
                            kept@,
                            received@,
                            cps@,
                            me,
                            gparts,
                            party.mul_receivers@,
                            i as int + 1,
                            cps@.len() as int,
                        );
                }
                assert(!spec_sign3_accepts(*party, *sign_data, *unique_kept, kept@, received@));
            }
            return Err(
                Abort::new(party.party_index, AbortReason::InvalidEncoding { party: cp }),
            );
        }
        if !scalar_is_canonical(&msg.psi.bytes) {
            proof {
                if spec_sign3_accepts(*party, *sign_data, *unique_kept, kept@, received@) {
                    lemma_sign3_checks_prefix(
                            kept@,
                            received@,
                            cps@,
                            me,
                            gparts,
                            party.mul_receivers@,
                            i as int + 1,
                            cps@.len() as int,
                        );
                }
                assert(!spec_sign3_accepts(*party, *sign_data, *unique_kept, kept@, received@));
            }
            return Err(
                Abort::new(party.party_index, AbortReason::InvalidEncoding { party: cp }),
            );
        }
        if msg.instance_point.is_identity() {
            proof {
                if spec_sign3_accepts(*party, *sign_data, *unique_kept, kept@, received@) {
                    lemma_sign3_checks_prefix(
                            kept@,
                            received@,
                            cps@,
                            me,
                            gparts,
                            party.mul_receivers@,
                            i as int + 1,
                            cps@.len() as int,
                        );
                }
                assert(!spec_sign3_accepts(*party, *sign_data, *unique_kept, kept@, received@));
            }
            return Err(
                Abort::new(
                    party.party_index,
                    AbortReason::TrivialInstancePoint { counterparty: cp },
                ),
            );
        }
        // The committed instance point must match the reveal.
        let point_vec = crate::bytes::array33_to_vec(&msg.instance_point.bytes);
        if !verify_commitment(&point_vec, &kept[i].commitment, &msg.salt) {
            proof {
                let gm = spec_find_sign2(received@, cp);
                assert(kept@[i as int].counterparty == cp);
                assert(msg.salt@ =~= gm->0.salt@);
                assert(msg.instance_point.bytes@ =~= gm->0.instance_point.bytes@);
                assert(point_vec@ =~= gm->0.instance_point.bytes@);
                if spec_sign3_accepts(*party, *sign_data, *unique_kept, kept@, received@) {
                    lemma_sign3_checks_prefix(
                            kept@,
                            received@,
                            cps@,
                            me,
                            gparts,
                            party.mul_receivers@,
                            i as int + 1,
                            cps@.len() as int,
                        );
                }
                assert(!spec_sign3_accepts(*party, *sign_data, *unique_kept, kept@, received@));
            }
            return Err(
                Abort::new(
                    party.party_index,
                    AbortReason::CommitmentMismatch { counterparty: cp },
                ),
            );
        }
        // Finish this multiplication as the receiver.
        let sid_parts = sign_sid_parts(
            &party.session_id,
            &sign_data.sign_id,
            &party.derivation_data.chain_code,
        );
        let sid = mul_sid(me, cp, &sid_parts);
        let receiver_blob = match find_receiver(&party.mul_receivers, cp) {
            Some(b) => b,
            None => {
                proof {
                    assert(spec_find_receiver(party.mul_receivers@, cp) is None);
                    if spec_sign3_accepts(*party, *sign_data, *unique_kept, kept@, received@) {
                        lemma_sign3_checks_prefix(
                            kept@,
                            received@,
                            cps@,
                            me,
                            gparts,
                            party.mul_receivers@,
                            i as int + 1,
                            cps@.len() as int,
                        );
                    }
                    assert(!spec_sign3_accepts(*party, *sign_data, *unique_kept, kept@, received@));
                }
                return Err(
                    Abort::new(
                        party.party_index,
                        AbortReason::MultiplicationFailed { counterparty: cp },
                    ),
                );
            },
        };
        proof {
            assert(receiver_blob@ =~= spec_find_receiver(party.mul_receivers@, cp)->0@);
            assert(sid@ =~= crate::dkg::spec_mul_sid(me, cp, gparts));
        }
        let (d_u, d_v) = match mul_receiver_run2(&receiver_blob, &sid, &kept[i].mul_keep, &msg.mul_transmit) {
            Ok(v) => v,
            Err(_) => {
                proof {
                    let gm = spec_find_sign2(received@, cp)->0;
                    assert(msg.mul_transmit@ =~= gm.mul_transmit@);
                    assert(crate::mul::spec_mul_finish(
                        crate::dkg::spec_mul_sid(me, cp, gparts),
                        spec_find_receiver(party.mul_receivers@, cp)->0@,
                        kept@[i as int].mul_keep@,
                        gm.mul_transmit@,
                    ) is None);
                    if spec_sign3_accepts(*party, *sign_data, *unique_kept, kept@, received@) {
                        lemma_sign3_checks_prefix(
                            kept@,
                            received@,
                            cps@,
                            me,
                            gparts,
                            party.mul_receivers@,
                            i as int + 1,
                            cps@.len() as int,
                        );
                    }
                    assert(!spec_sign3_accepts(*party, *sign_data, *unique_kept, kept@, received@));
                }
                return Err(
                    Abort::new(
                        party.party_index,
                        AbortReason::MultiplicationFailed { counterparty: cp },
                    ),
                );
            },
        };
        proof {
            let gm = spec_find_sign2(received@, cp)->0;
            assert(msg.mul_transmit@ =~= gm.mul_transmit@);
            assert(crate::mul::spec_mul_finish(
                crate::dkg::spec_mul_sid(me, cp, gparts),
                spec_find_receiver(party.mul_receivers@, cp)->0@,
                kept@[i as int].mul_keep@,
                gm.mul_transmit@,
            ) is Some);
        }
        // The opened shares must be consistent in the exponent.
        let chi = kept[i].chi;
        let ghost gfinish = crate::mul::spec_mul_finish(
            crate::dkg::spec_mul_sid(me, cp, gparts),
            spec_find_receiver(party.mul_receivers@, cp)->0@,
            kept@[i as int].mul_keep@,
            spec_find_sign2(received@, cp)->0.mul_transmit@,
        );
        proof {
            assert(d_u.val() == (gfinish->0).0 && d_v.val() == (gfinish->0).1);
        }
        let lhs_u = point_mul(&chi, &msg.instance_point);
        let rhs_u = point_add(&gen_mul(&d_u), &msg.gamma_u);
        if !lhs_u.same_as(&rhs_u) {
            proof {
                let gm = spec_find_sign2(received@, cp)->0;
                assert(!(spec_point_mul(chi.val(), gm.instance_point.bytes@) =~= spec_point_add(
                    spec_mul_g((gfinish->0).0),
                    gm.gamma_u.bytes@,
                )));
                if spec_sign3_accepts(*party, *sign_data, *unique_kept, kept@, received@) {
                    lemma_sign3_checks_prefix(
                            kept@,
                            received@,
                            cps@,
                            me,
                            gparts,
                            party.mul_receivers@,
                            i as int + 1,
                            cps@.len() as int,
                        );
                }
                assert(!spec_sign3_accepts(*party, *sign_data, *unique_kept, kept@, received@));
            }
            return Err(
                Abort::new(
                    party.party_index,
                    AbortReason::GammaInconsistency { counterparty: cp },
                ),
            );
        }
        let lhs_v = point_mul(&chi, &msg.public_share);
        let rhs_v = point_add(&gen_mul(&d_v), &msg.gamma_v);
        if !lhs_v.same_as(&rhs_v) {
            proof {
                let gm = spec_find_sign2(received@, cp)->0;
                assert(!(spec_point_mul(chi.val(), gm.public_share.bytes@) =~= spec_point_add(
                    spec_mul_g((gfinish->0).1),
                    gm.gamma_v.bytes@,
                )));
                if spec_sign3_accepts(*party, *sign_data, *unique_kept, kept@, received@) {
                    lemma_sign3_checks_prefix(
                            kept@,
                            received@,
                            cps@,
                            me,
                            gparts,
                            party.mul_receivers@,
                            i as int + 1,
                            cps@.len() as int,
                        );
                }
                assert(!spec_sign3_accepts(*party, *sign_data, *unique_kept, kept@, received@));
            }
            return Err(
                Abort::new(
                    party.party_index,
                    AbortReason::GammaInconsistency { counterparty: cp },
                ),
            );
        }
        first_sum = scalar_add(&first_sum, &msg.psi);
        second_u = scalar_add(&second_u, &scalar_add(&kept[i].c_u, &d_u));
        second_v = scalar_add(&second_v, &scalar_add(&kept[i].c_v, &d_v));
        proof {
            let gm = spec_find_sign2(received@, cp)->0;
            assert(spec_point_mul(chi.val(), gm.instance_point.bytes@) =~= spec_point_add(
                spec_mul_g((gfinish->0).0),
                gm.gamma_u.bytes@,
            ));
            assert(spec_point_mul(chi.val(), gm.public_share.bytes@) =~= spec_point_add(
                spec_mul_g((gfinish->0).1),
                gm.gamma_v.bytes@,
            ));
            assert(spec_sign3_checks_ok(
                kept@,
                received@,
                cps@,
                me,
                gparts,
                party.mul_receivers@,
                i as int + 1,
            ));
        }
        i += 1;
    }

    // Recombine the instance points and public shares in ascending party
    // order, so that every executing party computes the same sums.
    let ghost gipoints = spec_inst_points(unique_kept.instance_point.bytes@, received@, me, n);
    let ghost gspoints = spec_share_points(unique_kept.public_share.bytes@, received@, me, n);
    let ghost gincl = spec_incl(me, cps@, n);
    let mut total_instance: Option<CurvePoint> = None;
    let mut expected_pk: Option<CurvePoint> = None;
    let mut idx: usize = 1;
    while idx <= n as usize
        invariant
            1 <= idx <= n as usize + 1,
            me == party.party_index,
            party.wf(),
            n == party.parameters.share_count,
            cps@ == sign_data.counterparties@,
            unique_kept.instance_point.valid(),
            unique_kept.public_share.valid(),
            gipoints == spec_inst_points(unique_kept.instance_point.bytes@, received@, me, n),
            gspoints == spec_share_points(unique_kept.public_share.bytes@, received@, me, n),
            gincl == spec_incl(me, cps@, n),
            gparts == party.session_id@ + sign_data.sign_id@
                + party.derivation_data.chain_code@,
            received@.len() == cps@.len(),
            spec_sign3_checks_ok(
                kept@,
                received@,
                cps@,
                me,
                gparts,
                party.mul_receivers@,
                cps@.len() as int,
            ),
            total_instance is Some <==> spec_masked_sum(gipoints, gincl, (idx - 1) as nat)
                is Some,
            total_instance is Some ==> total_instance->0.valid() && total_instance->0.bytes@
                =~= spec_masked_sum(gipoints, gincl, (idx - 1) as nat)->0,
            expected_pk is Some <==> spec_masked_sum(gspoints, gincl, (idx - 1) as nat) is Some,
            expected_pk is Some ==> expected_pk->0.valid() && expected_pk->0.bytes@
                =~= spec_masked_sum(gspoints, gincl, (idx - 1) as nat)->0,
        decreases n as int + 1 - idx,
    {
        let included = idx == me as usize || contains_index(cps, idx as u8);
        proof {
            assert(gincl[idx - 1] == included);
        }
        if included {
            let (inst, share) = if idx == me as usize {
                (unique_kept.instance_point, unique_kept.public_share)
            } else {
                proof {
                    assert(cps@.contains(idx as u8));
                    let kk = choose|kk: int|
                        0 <= kk < cps@.len() && cps@[kk] == idx as u8;
                    lemma_sign3_checks_prefix(
                        kept@,
                        received@,
                        cps@,
                        me,
                        gparts,
                        party.mul_receivers@,
                        kk + 1,
                        cps@.len() as int,
                    );
                    assert(spec_find_sign2(received@, idx as u8) is Some);
                    assert(crate::point::spec_is_point(
                        spec_find_sign2(received@, idx as u8)->0.instance_point.bytes@,
                    ));
                    assert(crate::point::spec_is_point(
                        spec_find_sign2(received@, idx as u8)->0.public_share.bytes@,
                    ));
                }
                let m = match find_sign2(received, idx as u8) {
                    Some(m) => m,
                    None => {
                        return Err(
                            Abort::new(
                                party.party_index,
                                AbortReason::MissingMessageFromParty { party: idx as u8 },
                            ),
                        );
                    },
                };
                if !point_check(&m.instance_point.bytes) || !point_check(&m.public_share.bytes) {
                    proof {
                        let gm = spec_find_sign2(received@, idx as u8)->0;
                        assert(m.instance_point.bytes@ =~= gm.instance_point.bytes@);
                        assert(m.public_share.bytes@ =~= gm.public_share.bytes@);
                        assert(false);
                    }
                    return Err(
                        Abort::new(
                            party.party_index,
                            AbortReason::InvalidEncoding { party: idx as u8 },
                        ),
                    );
                }
                (m.instance_point, m.public_share)
            };
            proof {
                assert(inst.bytes@ =~= gipoints[idx - 1]);
                assert(share.bytes@ =~= gspoints[idx - 1]);
            }
            total_instance = match total_instance {
                None => Some(inst),
                Some(acc) => Some(point_add(&acc, &inst)),
            };
            expected_pk = match expected_pk {
                None => Some(share),
                Some(acc) => Some(point_add(&acc, &share)),
            };
        }
        idx += 1;
    }
    let total_instance = match total_instance {
        Some(p) => p,
        None => {
            proof {
                assert(spec_masked_sum(gipoints, gincl, n as nat) is None);
                assert(!spec_sign3_accepts(*party, *sign_data, *unique_kept, kept@, received@));
            }
            return Err(Abort::new(party.party_index, AbortReason::PolynomialInconsistency));
        },
    };
    let expected_pk = match expected_pk {
        Some(p) => p,
        None => {
            proof {
                assert(spec_masked_sum(gspoints, gincl, n as nat) is None);
                assert(!spec_sign3_accepts(*party, *sign_data, *unique_kept, kept@, received@));
            }
            return Err(Abort::new(party.party_index, AbortReason::PolynomialInconsistency));
        },
    };
    if !expected_pk.same_as(&party.pk) {
        proof {
            assert(!(spec_masked_sum(gspoints, gincl, n as nat)->0 =~= party.pk.bytes@));
            assert(!spec_sign3_accepts(*party, *sign_data, *unique_kept, kept@, received@));
        }
        return Err(Abort::new(party.party_index, AbortReason::PolynomialInconsistency));
    }
    if total_instance.is_identity() {
        proof {
            assert(spec_masked_sum(gipoints, gincl, n as nat)->0 =~= identity_enc());
            assert(!spec_sign3_accepts(*party, *sign_data, *unique_kept, kept@, received@));
        }
        return Err(Abort::new(party.party_index, AbortReason::PolynomialInconsistency));
    }

    // The x-coordinate of the joint nonce point: the signature's `r`.
    let x_coord = total_instance.x_bytes();

    // This party's additive shares of the signature fraction.
    let u = scalar_add(&scalar_mul(&unique_kept.instance_key, &first_sum), &second_u);
    let v = scalar_add(&scalar_mul(&unique_kept.key_share, &first_sum), &second_v);
    let msg_scalar = scalar_reduce32(&sign_data.message_hash);
    let rx_scalar = scalar_reduce32(&x_coord);
    let w = scalar_add(&scalar_mul(&msg_scalar, &unique_kept.inversion_mask), &scalar_mul(&v, &rx_scalar));

    proof {
        assert(spec_sign3_accepts(*party, *sign_data, *unique_kept, kept@, received@));
    }
    Ok((x_coord, Broadcast3to4 { u, w }))
}

/// Sum of the denominator shares, modulo the group order.
pub open spec fn spec_sum_u(msgs: Seq<Broadcast3to4>) -> nat
    decreases msgs.len(),
{
    if msgs.len() == 0 {
        0
    } else {
        (spec_sum_u(msgs.drop_last()) + msgs.last().u.val()) % group_order()
    }
}

/// Sum of the numerator shares, modulo the group order.
pub open spec fn spec_sum_w(msgs: Seq<Broadcast3to4>) -> nat
    decreases msgs.len(),
{
    if msgs.len() == 0 {
        0
    } else {
        (spec_sum_w(msgs.drop_last()) + msgs.last().w.val()) % group_order()
    }
}

/// The raw signature scalar before normalization.
pub open spec fn spec_raw_s(msgs: Seq<Broadcast3to4>) -> nat {
    (spec_sum_w(msgs) * spec_inv(spec_sum_u(msgs))) % group_order()
}

/// The signature scalar after optional low-S normalization.
pub open spec fn spec_final_s(msgs: Seq<Broadcast3to4>, normalize: bool) -> nat {
    let raw = spec_raw_s(msgs);
    if normalize && raw > half_order() {
        ((group_order() - raw) % (group_order() as int)) as nat
    } else {
        raw
    }
}

/// The standard ECDSA acceptance condition for a message digest, public
/// key, x-coordinate and signature scalar, all in canonical bytes: both
/// scalars must be canonical and nonzero, and the x-coordinate of
/// `(m/s)G + (r/s)P` must reduce to `r`.
pub open spec fn spec_ecdsa_verify(
    msg: Seq<u8>,
    pk: Seq<u8>,
    rx_bytes: Seq<u8>,
    s_bytes: Seq<u8>,
) -> bool {
    let rx = be_val(rx_bytes);
    let s = be_val(s_bytes);
    if rx >= group_order() || s >= group_order() || rx == 0 || s == 0 {
        false
    } else {
        let si = spec_inv(s);
        let u1 = ((be_val(msg) % group_order()) * si) % group_order();
        let u2 = (rx * si) % group_order();
        let point = spec_point_add(spec_mul_g(u1), spec_point_mul(u2, pk));
        if point =~= identity_enc() {
            false
        } else {
            be_val(crate::point::spec_x_of(point)) % group_order() == rx
        }
    }
}

/// Outcome of a signature check.
#[derive(Clone, Copy, Debug, PartialEq, Eq, Structural)]
pub struct VerifyOut {
    pub valid: bool,
}

/// Stateless ECDSA verification against the joint public key, accepting
/// exactly the encoding the signing phases produce.
pub fn dkls_verify_ecdsa_signature(
    msg: &[u8; 32],
    pk: &CurvePoint,
    x_coord: &[u8; 32],
    signature: &[u8; 32],
) -> (r: VerifyOut)
    requires
        pk.valid(),
    ensures
        r.valid == spec_ecdsa_verify(msg@, pk.bytes@, x_coord@, signature@),
{
    if !scalar_is_canonical(x_coord) || !scalar_is_canonical(signature) {
        return VerifyOut { valid: false };
    }
    let zero = CScalar::default();
    proof {
        crate::scalar::lemma_be_val_zero(zero.bytes@);
    }
    if bytes32_eq(x_coord, &zero.bytes) {
        proof {
            crate::scalar::lemma_be_val_zero(x_coord@);
        }
        return VerifyOut { valid: false };
    }
    if bytes32_eq(signature, &zero.bytes) {
        proof {
            crate::scalar::lemma_be_val_zero(signature@);
        }
        return VerifyOut { valid: false };
    }
    proof {
        if be_val(x_coord@) == 0 {
            crate::scalar::lemma_be_val_injective(x_coord@, zero.bytes@);
        }
        if be_val(signature@) == 0 {
            crate::scalar::lemma_be_val_injective(signature@, zero.bytes@);
        }
    }
    let rx = CScalar { bytes: *x_coord };
    let s = CScalar { bytes: *signature };
    let s_inv = match scalar_invert(&s) {
        Some(v) => v,
        None => {
            return VerifyOut { valid: false };
        },
    };
    let msg_scalar = scalar_reduce32(msg);
    let u1 = scalar_mul(&msg_scalar, &s_inv);
    let u2 = scalar_mul(&rx, &s_inv);
    let point = point_add(&gen_mul(&u1), &point_mul(&u2, pk));
    if point.is_identity() {
        return VerifyOut { valid: false };
    }
    let x_bytes = point.x_bytes();
    let x_check = scalar_reduce32(&x_bytes);
    let valid = bytes32_eq(&x_check.bytes, &rx.bytes);
    proof {
        if valid {
            crate::scalar::lemma_be_val_injective(x_check.bytes@, rx.bytes@);
        } else {
            if be_val(crate::point::spec_x_of(point.bytes@)) % group_order() == be_val(
                x_coord@,
            ) {
                crate::scalar::lemma_be_val_injective(x_check.bytes@, rx.bytes@);
            }
        }
    }
    VerifyOut { valid }
}

/// Phase 4 of signing: sum the broadcast shares into the signature
/// fraction, normalize to low-S if asked (the BIP-62 malleability rule),
/// check the assembled signature, and compute the recovery id. The result
/// is deterministic in the received broadcasts; a failed check is final —
/// resilience means a fresh session with a fresh identifier.
pub fn dkls_sign_phase4(
    party: &Party,
    sign_data: &SignData,
    x_coord: &[u8; 32],
    received: &Vec<Broadcast3to4>,
    normalize: bool,
) -> (r: Result<(CScalar, u8), Abort>)
    requires
        party.wf(),
        forall|k: int|
            0 <= k < received@.len() ==> (#[trigger] received@[k]).u.reduced()
                && received@[k].w.reduced(),
    ensures
        match r {
            Ok(out) => {
                let raw = spec_raw_s(received@);
                let sig_point = spec_point_add(
                    spec_mul_g((be_val(sign_data.message_hash@) % group_order()) * spec_inv(
                        spec_final_s(received@, normalize),
                    ) % group_order()),
                    spec_point_mul(
                        (be_val(x_coord@) % group_order()) * spec_inv(
                            spec_final_s(received@, normalize),
                        ) % group_order(),
                        party.pk.bytes@,
                    ),
                );
                &&& spec_sum_u(received@) != 0
                &&& out.0.reduced()
                &&& out.0.val() == spec_final_s(received@, normalize)
                &&& (normalize ==> out.0.val() <= half_order())
                &&& (!normalize ==> out.0.val() == raw)
                &&& (normalize && raw > half_order() ==> out.0.val() == ((group_order() - raw) % (
                group_order() as int)) as nat)
                &&& spec_ecdsa_verify(
                    sign_data.message_hash@,
                    party.pk.bytes@,
                    x_coord@,
                    out.0.bytes@,
                )
                &&& out.1 == (if sig_point[0] == 3 {
                    1u8
                } else {
                    0u8
                }) + (if be_val(x_coord@) >= group_order() {
                    2u8
                } else {
                    0u8
                })
            },
            Err(a) => {
                &&& a.index == party.party_index
                &&& match a.reason {
                    AbortReason::ZeroDenominator => spec_sum_u(received@) == 0,
                    AbortReason::SignatureVerificationFailed => !spec_ecdsa_verify(
                        sign_data.message_hash@,
                        party.pk.bytes@,
                        x_coord@,
                        crate::scalar::be_enc_of(spec_final_s(received@, normalize)),
                    ) || spec_sum_u(received@) == 0,
                    _ => false,
                }
            },
        },
{
    let me = party.party_index;

    // Sum the shares.
    let mut numerator = CScalar::default();
    let mut denominator = CScalar::default();
    let mut i: usize = 0;
    proof {
        assert(received@.take(0) =~= Seq::<Broadcast3to4>::empty());
    }
    while i < received.len()
        invariant
            i <= received@.len(),
            me == party.party_index,
            forall|k: int|
                0 <= k < received@.len() ==> (#[trigger] received@[k]).u.reduced()
                    && received@[k].w.reduced(),
            numerator.reduced(),
            denominator.reduced(),
            numerator.val() == spec_sum_w(received@.take(i as int)),
            denominator.val() == spec_sum_u(received@.take(i as int)),
        decreases received@.len() - i,
    {
        let next_num = scalar_add(&numerator, &received[i].w);
        let next_den = scalar_add(&denominator, &received[i].u);
        proof {
            assert(received@.take(i as int + 1).drop_last() =~= received@.take(i as int));
            assert(received@.take(i as int + 1).last() == received@[i as int]);
        }
        numerator = next_num;
        denominator = next_den;
        i += 1;
    }
    proof {
        assert(received@.take(received@.len() as int) =~= received@);
    }

    let den_inv = match scalar_invert(&denominator) {
        Some(v) => v,
        None => {
            return Err(Abort::new(me, AbortReason::ZeroDenominator));
        },
    };
    let mut s = scalar_mul(&numerator, &den_inv);

    // BIP-62 low-S normalization.
    if normalize && scalar_is_high(&s) {
        s = scalar_neg(&s);
        proof {
            lemma_neg_is_low(spec_raw_s(received@), s.val());
        }
    }
    proof {
        assert(s.val() == spec_final_s(received@, normalize));
        crate::scalar::lemma_be_enc_of(s.bytes@);
    }

    // The assembled signature must verify against the joint public key.
    let check = dkls_verify_ecdsa_signature(&sign_data.message_hash, &party.pk, x_coord, &s.bytes);
    if !check.valid {
        return Err(Abort::new(me, AbortReason::SignatureVerificationFailed));
    }

    // Recovery id: y-parity of the signature point, and whether the
    // x-coordinate was reduced by the group order.
    let rx_scalar = scalar_reduce32(x_coord);
    let msg_scalar = scalar_reduce32(&sign_data.message_hash);
    let s_inv = match scalar_invert(&s) {
        Some(v) => v,
        None => {
            return Err(Abort::new(me, AbortReason::SignatureVerificationFailed));
        },
    };
    let u1 = scalar_mul(&msg_scalar, &s_inv);
    let u2 = scalar_mul(&rx_scalar, &s_inv);
    let signature_point = point_add(&gen_mul(&u1), &point_mul(&u2, &party.pk));
    let is_y_odd = signature_point.bytes[0] == 3;
    let is_x_reduced = !scalar_is_canonical(x_coord);
    let rec_id = (if is_y_odd {
        1u8
    } else {
        0u8
    }) + (if is_x_reduced {
        2u8
    } else {
        0u8
    });
    Ok((s, rec_id))
}

/// Negating a scalar in the high half lands it in the low half.
proof fn lemma_neg_is_low(raw: nat, neg: nat)
    requires
        raw < group_order(),
        raw > half_order(),
        (neg + raw) % group_order() == 0,
        neg < group_order(),
    ensures
        neg == ((group_order() - raw) % (group_order() as int)) as nat,
        neg <= half_order(),
{
    let n = group_order() as int;
    // 0 < neg + raw < 2n and it is divisible by n, so neg + raw == n.
    if neg + raw < group_order() {
        vstd::arithmetic::div_mod::lemma_small_mod((neg + raw) as nat, group_order());
    } else {
        vstd::arithmetic::div_mod::lemma_mod_sub_multiples_vanish((neg + raw) as int, n);
        vstd::arithmetic::div_mod::lemma_small_mod(
            (neg + raw - group_order()) as nat,
            group_order(),
        );
    }
    vstd::arithmetic::div_mod::lemma_small_mod((group_order() - raw) as nat, group_order());
}

/// Growing the keep and transmit lists does not disturb the checked prefix.
proof fn lemma_sign1_push(
    keeps: Seq<KeepPhase1to2>,
    keeps2: Seq<KeepPhase1to2>,
    transmits: Seq<TransmitPhase1to2>,
    transmits2: Seq<TransmitPhase1to2>,
    cps: Seq<u8>,
    me: u8,
    salts: Seq<Vec<u8>>,
    instance_point: Seq<u8>,
    j: int,
)
    requires
        spec_sign1_out_ok(keeps, transmits, cps, me, salts, instance_point, j),
        j <= keeps.len(),
        j <= transmits.len(),
        keeps2.len() == keeps.len() + 1,
        transmits2.len() == transmits.len() + 1,
        forall|k: int| 0 <= k < keeps.len() ==> #[trigger] keeps2[k] == keeps[k],
        forall|k: int| 0 <= k < transmits.len() ==> #[trigger] transmits2[k] == transmits[k],
    ensures
        spec_sign1_out_ok(keeps2, transmits2, cps, me, salts, instance_point, j),
    decreases j,
{
    if j > 0 {
        lemma_sign1_push(keeps, keeps2, transmits, transmits2, cps, me, salts, instance_point, j - 1);
    }
}

} // verus!
