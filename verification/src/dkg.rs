//! Distributed key generation.
//!
//! Four phases, separated by communication rounds, leave each of `n`
//! parties with a [`Party`]: a share of a joint secret key (a point on a
//! random degree `t-1` polynomial), the joint public key, a common chain
//! code, and the per-counterparty state that signing reuses. Randomness is
//! an explicit input to every phase, so the phases themselves are pure.

use vstd::prelude::*;
use crate::bytes::array32_to_vec;
use crate::derivation::DerivData;
use crate::dlog::{dlog_decommit_verify, dlog_proof_point, dlog_prove_commit, spec_dlog_point, spec_dlog_verify};
use crate::hashing::{commit_with_salt, spec_commitment, verify_commitment};
use crate::mul::{mul_receiver_init1, mul_receiver_init2, mul_sender_init1, mul_sender_init2};
use crate::point::{identity_enc, spec_mul_g, spec_point_add, spec_point_mul, gen_mul, point_add, point_mul, CurvePoint};
use crate::proto::{Abort, AbortReason, PartiesMessage, SessionData};
use crate::scalar::{group_order, spec_inv, scalar_add, scalar_invert, scalar_mul, scalar_sub, CScalar};
use crate::zero_shares::{generate_seed_pair, spec_xor32, SeedPair, ZeroShare};

verus! {

/// A party's committed discrete-log proof over its polynomial point.
/// The commitment is broadcast first; the proof is opened later.
#[derive(Clone, Debug)]
pub struct ProofCommitment {
    pub index: u8,
    /// Serialized proof, opaque to the protocol layer.
    pub proof: Vec<u8>,
    pub commitment: [u8; 32],
}

/// Keep - zero-share setup, phase 2 to phase 3.
#[derive(Clone, Debug)]
pub struct KeepInitZeroSharePhase2to3 {
    pub counterparty: u8,
    pub seed: [u8; 32],
    pub salt: Vec<u8>,
}

/// Transmit - zero-share setup, phase 2 to phase 4.
#[derive(Clone, Debug)]
pub struct TransmitInitZeroSharePhase2to4 {
    pub parties: PartiesMessage,
    pub commitment: [u8; 32],
}

/// Keep - zero-share setup, phase 3 to phase 4.
#[derive(Clone, Debug)]
pub struct KeepInitZeroSharePhase3to4 {
    pub counterparty: u8,
    pub seed: [u8; 32],
}

/// Transmit - zero-share setup, phase 3 to phase 4.
#[derive(Clone, Debug)]
pub struct TransmitInitZeroSharePhase3to4 {
    pub parties: PartiesMessage,
    pub seed: [u8; 32],
    pub salt: Vec<u8>,
}

/// Keep - multiplication setup, phase 3 to phase 4. The two blobs are the
/// opaque receiver-side and sender-side OT state.
#[derive(Clone, Debug)]
pub struct KeepInitMulPhase3to4 {
    pub counterparty: u8,
    pub receiver_keep: Vec<u8>,
    pub sender_keep: Vec<u8>,
}

/// Transmit - multiplication setup, phase 3 to phase 4. The two blobs are
/// the opaque setup messages of our receiver and sender roles.
#[derive(Clone, Debug)]
pub struct TransmitInitMulPhase3to4 {
    pub parties: PartiesMessage,
    pub receiver_msg: Vec<u8>,
    pub sender_msg: Vec<u8>,
}

/// Unique keep - chain-code agreement, phase 2 to phase 3.
#[derive(Clone, Debug)]
pub struct UniqueKeepDerivationPhase2to3 {
    pub aux_chain_code: [u8; 32],
    pub cc_salt: Vec<u8>,
}

/// Broadcast - chain-code agreement, phase 2 to phase 4.
#[derive(Clone, Debug)]
pub struct BroadcastDerivationPhase2to4 {
    pub sender_index: u8,
    pub cc_commitment: [u8; 32],
}

/// Broadcast - chain-code agreement, phase 3 to phase 4.
#[derive(Clone, Debug)]
pub struct BroadcastDerivationPhase3to4 {
    pub sender_index: u8,
    pub aux_chain_code: [u8; 32],
    pub cc_salt: Vec<u8>,
}

/// A finalized key share: the durable output of key generation, input to
/// every later signing or derivation call, never mutated in place.
#[derive(Clone, Debug)]
pub struct Party {
    pub parameters: crate::proto::Parameters,
    pub party_index: u8,
    pub session_id: Vec<u8>,
    /// This party's secret key share.
    pub poly_point: CScalar,
    /// The joint public key.
    pub pk: CurvePoint,
    /// Seeds for the zero-sharing masks used while signing.
    pub zero_share: ZeroShare,
    /// Reusable OT multiplication state, keyed by counterparty: our
    /// sender role towards each, and our receiver role towards each.
    /// Only the setup constructs the state values, so they always carry
    /// the dimensions the signing phases rely on.
    pub mul_senders: Vec<(u8, crate::mul::MulSenderState)>,
    pub mul_receivers: Vec<(u8, crate::mul::MulReceiverState)>,
    /// Data for BIP-32 style derivation.
    pub derivation_data: DerivData,
}

impl Party {
    /// The structural invariant every finalized party satisfies.
    pub open spec fn wf(self) -> bool {
        &&& self.parameters.valid()
        &&& 1 <= self.party_index <= self.parameters.share_count
        &&& self.session_id@.len() == crate::proto::ID_LEN
        &&& self.poly_point.reduced()
        &&& self.pk.valid()
        &&& !self.pk.spec_is_identity()
        &&& self.derivation_data.wf()
        &&& self.derivation_data.pk.bytes@ =~= self.pk.bytes@
        &&& self.mul_senders@.len() == self.parameters.share_count - 1
        &&& self.mul_receivers@.len() == self.parameters.share_count - 1
        &&& forall|j: int|
            0 <= j < self.mul_senders@.len() ==> #[trigger] self.mul_senders@[j].0
                == spec_others(self.parameters.share_count, self.party_index)[j]
        &&& forall|j: int|
            0 <= j < self.mul_receivers@.len() ==> #[trigger] self.mul_receivers@[j].0
                == spec_others(self.parameters.share_count, self.party_index)[j]
    }
}

/// A successful child derivation never yields the identity public key.
proof fn lemma_derived_pk_nontrivial(d: DerivData)
    requires
        exists|m: crate::derivation::DerivModel, c: u32|
            #[trigger] crate::derivation::spec_derive_child(m, c) == Ok::<
                crate::derivation::DerivModel,
                crate::derivation::DerivError,
            >(d.model()),
    ensures
        !d.pk.spec_is_identity(),
{
    let (m, c) = choose|m: crate::derivation::DerivModel, c: u32|
        #[trigger] crate::derivation::spec_derive_child(m, c) == Ok::<
            crate::derivation::DerivModel,
            crate::derivation::DerivError,
        >(d.model());
    assert(!(d.model().pk_enc =~= crate::point::identity_enc()));
}

/// A successful path derivation from a non-identity key never yields the
/// identity public key.
proof fn lemma_derived_path_pk_nontrivial(
    m: crate::derivation::DerivModel,
    children: Seq<u32>,
    d: DerivData,
    start_identity: bool,
)
    requires
        crate::derivation::spec_derive_path(m, children) == Ok::<
            crate::derivation::DerivModel,
            crate::derivation::DerivError,
        >(d.model()),
        !start_identity,
        !(m.pk_enc =~= crate::point::identity_enc()),
    ensures
        !d.pk.spec_is_identity(),
    decreases children.len(),
{
    if children.len() == 0 {
        assert(m == d.model());
    } else {
        let step = crate::derivation::spec_derive_child(m, children.first());
        match step {
            Err(_) => {},
            Ok(next) => {
                assert(!(next.pk_enc =~= crate::point::identity_enc()));
                lemma_derived_path_pk_nontrivial(next, children.drop_first(), d, false);
            },
        }
    }
}

/// Copies the per-counterparty sender states.
fn clone_senders(s: &Vec<(u8, crate::mul::MulSenderState)>) -> (r: Vec<
    (u8, crate::mul::MulSenderState),
>)
    ensures
        r@.len() == s@.len(),
        forall|i: int|
            0 <= i < s@.len() ==> (#[trigger] r@[i]).0 == s@[i].0 && r@[i].1@ =~= s@[i].1@,
{
    let mut r: Vec<(u8, crate::mul::MulSenderState)> = Vec::new();
    let mut i: usize = 0;
    while i < s.len()
        invariant
            i <= s@.len(),
            r@.len() == i,
            forall|k: int|
                0 <= k < i ==> (#[trigger] r@[k]).0 == s@[k].0 && r@[k].1@ =~= s@[k].1@,
        decreases s@.len() - i,
    {
        r.push((s[i].0, s[i].1.fresh_copy()));
        i += 1;
    }
    r
}

/// Copies the per-counterparty receiver states.
fn clone_receivers(s: &Vec<(u8, crate::mul::MulReceiverState)>) -> (r: Vec<
    (u8, crate::mul::MulReceiverState),
>)
    ensures
        r@.len() == s@.len(),
        forall|i: int|
            0 <= i < s@.len() ==> (#[trigger] r@[i]).0 == s@[i].0 && r@[i].1@ =~= s@[i].1@,
{
    let mut r: Vec<(u8, crate::mul::MulReceiverState)> = Vec::new();
    let mut i: usize = 0;
    while i < s.len()
        invariant
            i <= s@.len(),
            r@.len() == i,
            forall|k: int|
                0 <= k < i ==> (#[trigger] r@[k]).0 == s@[k].0 && r@[k].1@ =~= s@[k].1@,
        decreases s@.len() - i,
    {
        r.push((s[i].0, s[i].1.fresh_copy()));
        i += 1;
    }
    r
}

/// Copies a list of zero-share seed pairs.
fn clone_seed_pairs(s: &Vec<SeedPair>) -> (r: Vec<SeedPair>)
    ensures
        r@ =~= s@,
{
    let mut r: Vec<SeedPair> = Vec::new();
    let mut i: usize = 0;
    while i < s.len()
        invariant
            i <= s@.len(),
            r@.len() == i,
            forall|k: int| 0 <= k < i ==> #[trigger] r@[k] == s@[k],
        decreases s@.len() - i,
    {
        r.push(s[i]);
        i += 1;
    }
    proof {
        assert(r@ =~= s@);
    }
    r
}

impl Party {
    /// Derives the party state for one child key: only the key share, the
    /// public key and the derivation data change; a new value is returned,
    /// never the original mutated, so the parent share stays usable.
    pub fn derive_child(&self, child_number: u32) -> (r: Result<Party, crate::derivation::DerivError>)
        requires
            self.wf(),
        ensures
            match r {
                Ok(p) => {
                    &&& crate::derivation::spec_derive_child(
                        self.derivation_data.model(),
                        child_number,
                    ) == Ok::<crate::derivation::DerivModel, crate::derivation::DerivError>(
                        p.derivation_data.model(),
                    )
                    &&& p.poly_point.bytes@ =~= p.derivation_data.poly_point.bytes@
                    &&& p.pk.bytes@ =~= p.derivation_data.pk.bytes@
                    &&& p.parameters == self.parameters
                    &&& p.party_index == self.party_index
                    &&& p.session_id@ =~= self.session_id@
                    &&& p.zero_share.seeds@ =~= self.zero_share.seeds@
                    &&& p.wf()
                },
                Err(e) => crate::derivation::spec_derive_child(
                    self.derivation_data.model(),
                    child_number,
                ) == Err::<crate::derivation::DerivModel, crate::derivation::DerivError>(e),
            },
    {
        let new_data = match self.derivation_data.derive_child(child_number) {
            Ok(d) => d,
            Err(e) => {
                return Err(e);
            },
        };
        proof {
            lemma_derived_pk_nontrivial(new_data);
        }
        Ok(self.with_derivation(new_data))
    }

    /// Derives the party state along a whole path such as `m/0/1`.
    pub fn derive_from_path(&self, path: &str) -> (r: Result<Party, crate::derivation::DerivError>)
        requires
            self.wf(),
        ensures
            match r {
                Ok(p) => {
                    &&& crate::derivation::spec_parse_path(
                        vstd::string::StringSliceAdditionalSpecFns::spec_bytes(path),
                    ) is Some
                    &&& crate::derivation::spec_derive_path(
                        self.derivation_data.model(),
                        crate::derivation::spec_parse_path(
                            vstd::string::StringSliceAdditionalSpecFns::spec_bytes(path),
                        )->0,
                    ) == Ok::<crate::derivation::DerivModel, crate::derivation::DerivError>(
                        p.derivation_data.model(),
                    )
                    &&& p.poly_point.bytes@ =~= p.derivation_data.poly_point.bytes@
                    &&& p.pk.bytes@ =~= p.derivation_data.pk.bytes@
                    &&& p.parameters == self.parameters
                    &&& p.party_index == self.party_index
                    &&& p.wf()
                },
                Err(_) => true,
            },
    {
        let new_data = match self.derivation_data.derive_from_path(path) {
            Ok(d) => d,
            Err(e) => {
                return Err(e);
            },
        };
        proof {
            lemma_derived_path_pk_nontrivial(
                self.derivation_data.model(),
                crate::derivation::spec_parse_path(
                    vstd::string::StringSliceAdditionalSpecFns::spec_bytes(path),
                )->0,
                new_data,
                self.derivation_data.pk.spec_is_identity(),
            );
        }
        Ok(self.with_derivation(new_data))
    }

    /// A copy of this party with new key material.
    fn with_derivation(&self, new_data: DerivData) -> (r: Party)
        requires
            self.wf(),
            new_data.wf(),
        ensures
            r.poly_point.bytes@ =~= new_data.poly_point.bytes@,
            r.pk.bytes@ =~= new_data.pk.bytes@,
            r.derivation_data == new_data,
            r.parameters == self.parameters,
            r.party_index == self.party_index,
            r.session_id@ =~= self.session_id@,
            r.zero_share.seeds@ =~= self.zero_share.seeds@,
            r.wf() <== !new_data.pk.spec_is_identity(),
            r.mul_senders@.len() == self.mul_senders@.len(),
            r.mul_receivers@.len() == self.mul_receivers@.len(),
            forall|j: int|
                0 <= j < self.mul_senders@.len() ==> (#[trigger] r.mul_senders@[j]).0
                    == self.mul_senders@[j].0 && r.mul_senders@[j].1@ =~= self.mul_senders@[j].1@,
            forall|j: int|
                0 <= j < self.mul_receivers@.len() ==> (#[trigger] r.mul_receivers@[j]).0
                    == self.mul_receivers@[j].0 && r.mul_receivers@[j].1@
                    =~= self.mul_receivers@[j].1@,
    {
        Party {
            parameters: self.parameters,
            party_index: self.party_index,
            session_id: self.session_id.clone(),
            poly_point: new_data.poly_point,
            pk: new_data.pk,
            zero_share: ZeroShare { seeds: clone_seed_pairs(&self.zero_share.seeds) },
            mul_senders: clone_senders(&self.mul_senders),
            mul_receivers: clone_receivers(&self.mul_receivers),
            derivation_data: new_data,
        }
    }
}

/// The indices of the other parties, ascending: `1..=n` without `me`.
pub open spec fn spec_others(n: u8, me: u8) -> Seq<u8> {
    Seq::new((n - 1) as nat, |i: int| if i + 1 < me { (i + 1) as u8 } else { (i + 2) as u8 })
}

/// Builds the list of other party indices, ascending.
pub fn others(n: u8, me: u8) -> (r: Vec<u8>)
    requires
        1 <= me <= n,
    ensures
        r@ =~= spec_others(n, me),
{
    let mut r: Vec<u8> = Vec::new();
    let mut i: usize = 1;
    while i <= n as usize
        invariant
            1 <= me <= n,
            1 <= i <= n as usize + 1,
            r@.len() == if i <= me as usize { i - 1 } else { i - 2 },
            forall|j: int| 0 <= j < r@.len() ==> r@[j] == spec_others(n, me)[j],
        decreases n as int + 1 - i,
    {
        if i != me as usize {
            r.push(i as u8);
        }
        i += 1;
    }
    proof {
        assert(r@ =~= spec_others(n, me));
    }
    r
}

/// Evaluation of the polynomial with the given coefficients (constant term
/// first) at `x`, modulo the group order.
pub open spec fn spec_poly_eval(coeffs: Seq<CScalar>, x: nat) -> nat
    decreases coeffs.len(),
{
    if coeffs.len() == 0 {
        0
    } else {
        (coeffs.first().val() + x * spec_poly_eval(coeffs.drop_first(), x)) % group_order()
    }
}

/// Sum of the fragments, modulo the group order.
pub open spec fn spec_sum_frags(frags: Seq<CScalar>) -> nat
    decreases frags.len(),
{
    if frags.len() == 0 {
        0
    } else {
        (spec_sum_frags(frags.drop_last()) + frags.last().val()) % group_order()
    }
}

/// Phase 1: evaluate this party's random polynomial at every party index.
/// The fragment at position `j` must be sent to party `j + 1`; the one at
/// our own position is kept. Purely local; the polynomial is this party's
/// injected randomness. A malformed session description is rejected here,
/// synchronously, before any protocol step; the later phases then take the
/// session's validity as their established invariant.
pub fn dkls_dkg_phase1(session: &SessionData, polynomial: &Vec<CScalar>) -> (r: Result<
    Vec<CScalar>,
    Abort,
>)
    requires
        polynomial@.len() == session.parameters.threshold,
        forall|i: int| 0 <= i < polynomial@.len() ==> (#[trigger] polynomial@[i]).reduced(),
    ensures
        r is Ok <==> session.valid(),
        match r {
            Ok(frags) => {
                &&& frags@.len() == session.parameters.share_count
                &&& forall|j: int|
                    0 <= j < frags@.len() ==> (#[trigger] frags@[j]).reduced() && frags@[j].val()
                        == spec_poly_eval(polynomial@, (j + 1) as nat)
            },
            Err(a) => a == (Abort {
                index: session.party_index,
                reason: AbortReason::InvalidSessionData,
            }),
        },
{
    if !session.check() {
        return Err(Abort::new(session.party_index, AbortReason::InvalidSessionData));
    }
    let n = session.parameters.share_count;
    let mut points: Vec<CScalar> = Vec::new();
    let mut j: usize = 1;
    while j <= n as usize
        invariant
            1 <= j <= n as usize + 1,
            points@.len() == j - 1,
            polynomial@.len() >= 1,
            forall|i: int| 0 <= i < polynomial@.len() ==> (#[trigger] polynomial@[i]).reduced(),
            forall|i: int|
                0 <= i < points@.len() ==> (#[trigger] points@[i]).reduced() && points@[i].val()
                    == spec_poly_eval(polynomial@, (i + 1) as nat),
        decreases n as int + 1 - j,
    {
        let e = poly_eval_at(polynomial, j as u8);
        points.push(e);
        j += 1;
    }
    Ok(points)
}

/// Horner evaluation of the polynomial at `x`, modulo the group order.
fn poly_eval_at(coeffs: &Vec<CScalar>, x: u8) -> (r: CScalar)
    requires
        coeffs@.len() >= 1,
        forall|i: int| 0 <= i < coeffs@.len() ==> (#[trigger] coeffs@[i]).reduced(),
    ensures
        r.reduced(),
        r.val() == spec_poly_eval(coeffs@, x as nat),
{
    let xs = CScalar::from_u8(x);
    let mut acc = CScalar::default();
    let mut idx: usize = coeffs.len();
    proof {
        assert(coeffs@.skip(coeffs@.len() as int) =~= Seq::<CScalar>::empty());
    }
    while idx > 0
        invariant
            idx <= coeffs@.len(),
            xs.val() == x as nat,
            xs.reduced(),
            acc.reduced(),
            forall|i: int| 0 <= i < coeffs@.len() ==> (#[trigger] coeffs@[i]).reduced(),
            acc.val() == spec_poly_eval(coeffs@.skip(idx as int), x as nat),
        decreases idx,
    {
        idx -= 1;
        let c = coeffs[idx];
        let prod = scalar_mul(&xs, &acc);
        let next = scalar_add(&c, &prod);
        proof {
            lemma_poly_step(coeffs@, idx as int, x as nat, acc.val(), prod.val(), next.val());
        }
        acc = next;
    }
    proof {
        assert(coeffs@.skip(0) =~= coeffs@);
    }
    acc
}

proof fn lemma_poly_step(coeffs: Seq<CScalar>, idx: int, x: nat, acc: nat, prod: nat, next: nat)
    requires
        0 <= idx < coeffs.len(),
        acc == spec_poly_eval(coeffs.skip(idx + 1), x),
        acc < group_order(),
        prod == (x * acc) % group_order(),
        next == (coeffs[idx].val() + prod) % group_order(),
        coeffs[idx].reduced(),
    ensures
        next == spec_poly_eval(coeffs.skip(idx), x),
{
    let n = group_order() as int;
    let s = coeffs.skip(idx);
    assert(s.first() == coeffs[idx]);
    assert(s.drop_first() =~= coeffs.skip(idx + 1));
    assert(spec_poly_eval(s, x) == (coeffs[idx].val() + x * acc) % group_order());
    // Adding the reduced product in place of the full product does not
    // change the residue.
    vstd::arithmetic::div_mod::lemma_add_mod_noop(coeffs[idx].val() as int, (x * acc) as int, n);
    vstd::arithmetic::div_mod::lemma_small_mod(coeffs[idx].val(), group_order());
    vstd::arithmetic::div_mod::lemma_mod_twice((x * acc) as int, n);
    vstd::arithmetic::div_mod::lemma_add_mod_noop(coeffs[idx].val() as int, prod as int, n);
    vstd::arithmetic::div_mod::lemma_small_mod(prod, group_order());
}

/// The randomness phase 2 consumes: one commit-reveal seed and salt per
/// counterparty for the zero-sharing setup, and an auxiliary chain code
/// with its commitment salt.
#[derive(Clone, Debug)]
pub struct Phase2Rand {
    pub zero_seeds: Vec<[u8; 32]>,
    pub zero_salts: Vec<Vec<u8>>,
    pub aux_chain_code: [u8; 32],
    pub cc_salt: Vec<u8>,
}

impl Phase2Rand {
    /// One seed and one salt per counterparty.
    pub open spec fn wf(self, n: u8) -> bool {
        &&& self.zero_seeds@.len() == n - 1
        &&& self.zero_salts@.len() == n - 1
    }
}

/// Everything phase 2 produces.
#[derive(Clone, Debug)]
pub struct Phase2Out {
    /// This party's secret share: the sum of all received fragments.
    pub poly_point: CScalar,
    /// Commitment to the proof of knowledge of the share's discrete log;
    /// the commitment is broadcast now, the proof opened after phase 3.
    pub proof_commitment: ProofCommitment,
    pub zero_keep: Vec<KeepInitZeroSharePhase2to3>,
    pub zero_transmit: Vec<TransmitInitZeroSharePhase2to4>,
    pub bip_keep: UniqueKeepDerivationPhase2to3,
    pub bip_broadcast: BroadcastDerivationPhase2to4,
}

/// Phase 2: sum the received fragments into the secret share, commit to
/// its discrete-log proof, and commit to the zero-share seeds and the
/// auxiliary chain code. Nothing is verified yet. Fails only if the
/// randomized proof search is exhausted.
pub fn dkls_dkg_phase2(
    session: &SessionData,
    poly_fragments: &Vec<CScalar>,
    rand: &Phase2Rand,
) -> (r: Result<Phase2Out, Abort>)
    requires
        session.valid(),
        poly_fragments@.len() == session.parameters.share_count,
        forall|i: int| 0 <= i < poly_fragments@.len() ==> (#[trigger] poly_fragments@[i]).reduced(),
        rand.wf(session.parameters.share_count),
    ensures
        match r {
            Ok(out) => {
                let n = session.parameters.share_count;
                let me = session.party_index;
                let cps = spec_others(n, me);
                &&& out.poly_point.reduced()
                &&& out.poly_point.val() == spec_sum_frags(poly_fragments@)
                &&& out.proof_commitment.index == me
                &&& spec_dlog_point(out.proof_commitment.proof@) == Some(
                    spec_mul_g(out.poly_point.val()),
                )
                &&& out.zero_keep@.len() == n - 1
                &&& out.zero_transmit@.len() == n - 1
                &&& forall|j: int|
                    0 <= j < n - 1 ==> {
                        let k = #[trigger] out.zero_keep@[j];
                        &&& k.counterparty == cps[j]
                        &&& k.seed@ =~= rand.zero_seeds@[j]@
                        &&& k.salt@ =~= rand.zero_salts@[j]@
                    }
                &&& forall|j: int|
                    0 <= j < n - 1 ==> {
                        let t = #[trigger] out.zero_transmit@[j];
                        &&& t.parties == (PartiesMessage { sender: me, receiver: cps[j] })
                        &&& t.commitment@ =~= spec_commitment(
                            rand.zero_salts@[j]@,
                            rand.zero_seeds@[j]@,
                        )
                    }
                &&& out.bip_keep.aux_chain_code@ =~= rand.aux_chain_code@
                &&& out.bip_keep.cc_salt@ =~= rand.cc_salt@
                &&& out.bip_broadcast.sender_index == me
                &&& out.bip_broadcast.cc_commitment@ =~= spec_commitment(
                    rand.cc_salt@,
                    rand.aux_chain_code@,
                )
            },
            Err(a) => a == (Abort {
                index: session.party_index,
                reason: AbortReason::ProofSearchExhausted,
            }),
        },
{
    let me = session.party_index;
    let n = session.parameters.share_count;
    let poly_point = sum_fragments(poly_fragments);

    let (proof, _point, commitment) = match dlog_prove_commit(&poly_point, &session.session_id) {
        Some(p) => p,
        None => {
            return Err(Abort::new(me, AbortReason::ProofSearchExhausted));
        },
    };
    let proof_commitment = ProofCommitment { index: me, proof, commitment };

    let cps = others(n, me);
    let mut zero_keep: Vec<KeepInitZeroSharePhase2to3> = Vec::new();
    let mut zero_transmit: Vec<TransmitInitZeroSharePhase2to4> = Vec::new();
    let mut j: usize = 0;
    while j < cps.len()
        invariant
            j <= cps@.len(),
            cps@ =~= spec_others(n, me),
            cps@.len() == n - 1,
            rand.zero_seeds@.len() == n - 1,
            rand.zero_salts@.len() == n - 1,
            zero_keep@.len() == j,
            zero_transmit@.len() == j,
            forall|i: int|
                0 <= i < j ==> {
                    let k = #[trigger] zero_keep@[i];
                    &&& k.counterparty == cps@[i]
                    &&& k.seed@ =~= rand.zero_seeds@[i]@
                    &&& k.salt@ =~= rand.zero_salts@[i]@
                },
            forall|i: int|
                0 <= i < j ==> {
                    let t = #[trigger] zero_transmit@[i];
                    &&& t.parties == (PartiesMessage { sender: me, receiver: cps@[i] })
                    &&& t.commitment@ =~= spec_commitment(
                        rand.zero_salts@[i]@,
                        rand.zero_seeds@[i]@,
                    )
                },
        decreases cps@.len() - j,
    {
        let seed = rand.zero_seeds[j];
        let salt = rand.zero_salts[j].clone();
        let seed_vec = array32_to_vec(&seed);
        let c = commit_with_salt(&seed_vec, &salt);
        zero_keep.push(KeepInitZeroSharePhase2to3 { counterparty: cps[j], seed, salt });
        zero_transmit.push(
            TransmitInitZeroSharePhase2to4 {
                parties: PartiesMessage { sender: me, receiver: cps[j] },
                commitment: c,
            },
        );
        j += 1;
    }

    let aux_vec = array32_to_vec(&rand.aux_chain_code);
    let cc_commitment = commit_with_salt(&aux_vec, &rand.cc_salt);
    let bip_keep = UniqueKeepDerivationPhase2to3 {
        aux_chain_code: rand.aux_chain_code,
        cc_salt: rand.cc_salt.clone(),
    };
    let bip_broadcast = BroadcastDerivationPhase2to4 { sender_index: me, cc_commitment };

    Ok(
        Phase2Out {
            poly_point,
            proof_commitment,
            zero_keep,
            zero_transmit,
            bip_keep,
            bip_broadcast,
        },
    )
}

/// Everything phase 3 produces.
#[derive(Clone, Debug)]
pub struct Phase3Out {
    pub zero_keep: Vec<KeepInitZeroSharePhase3to4>,
    pub zero_transmit: Vec<TransmitInitZeroSharePhase3to4>,
    pub mul_keep: Vec<KeepInitMulPhase3to4>,
    pub mul_transmit: Vec<TransmitInitMulPhase3to4>,
    pub bip_broadcast: BroadcastDerivationPhase3to4,
}

/// The per-direction session identifier of one two-party multiplication
/// instance inside this key-generation session.
pub open spec fn spec_mul_sid(receiver: u8, sender: u8, sid: Seq<u8>) -> Seq<u8> {
    seq![MUL_SID_TAG, receiver, sender] + sid
}

/// Domain-separation tag for multiplication-instance identifiers.
pub const MUL_SID_TAG: u8 = 4;

/// Builds the session identifier of one multiplication instance.
pub fn mul_sid(receiver: u8, sender: u8, sid: &Vec<u8>) -> (r: Vec<u8>)
    ensures
        r@ =~= spec_mul_sid(receiver, sender, sid@),
{
    let mut r: Vec<u8> = Vec::new();
    r.push(MUL_SID_TAG);
    r.push(receiver);
    r.push(sender);
    let mut i: usize = 0;
    while i < sid.len()
        invariant
            i <= sid@.len(),
            r@.len() == 3 + i,
            r@[0] == MUL_SID_TAG,
            r@[1] == receiver,
            r@[2] == sender,
            forall|k: int| 0 <= k < i ==> r@[3 + k] == sid@[k],
        decreases sid@.len() - i,
    {
        r.push(sid[i]);
        i += 1;
    }
    proof {
        assert(r@ =~= spec_mul_sid(receiver, sender, sid@));
    }
    r
}

/// Phase 3: reveal the committed zero-share seeds, start the two-party
/// multiplication setup with every counterparty (once in each role), and
/// reveal the committed auxiliary chain code. Nothing is verified yet;
/// the only failure is the randomized multiplication setup's own
/// rejection, which on sound randomness does not happen.
pub fn dkls_dkg_phase3(
    session: &SessionData,
    zero_kept: &Vec<KeepInitZeroSharePhase2to3>,
    bip_kept: &UniqueKeepDerivationPhase2to3,
) -> (r: Result<Phase3Out, Abort>)
    requires
        session.valid(),
        zero_kept@.len() == session.parameters.share_count - 1,
        forall|j: int|
            0 <= j < zero_kept@.len() ==> (#[trigger] zero_kept@[j]).counterparty == spec_others(
                session.parameters.share_count,
                session.party_index,
            )[j],
    ensures
        match r {
            Ok(out) => {
                let n = session.parameters.share_count;
                let me = session.party_index;
                let cps = spec_others(n, me);
                &&& out.zero_keep@.len() == n - 1
                &&& out.zero_transmit@.len() == n - 1
                &&& out.mul_keep@.len() == n - 1
                &&& out.mul_transmit@.len() == n - 1
                &&& forall|j: int|
                    0 <= j < n - 1 ==> {
                        let k = #[trigger] out.zero_keep@[j];
                        &&& k.counterparty == cps[j]
                        &&& k.seed@ =~= zero_kept@[j].seed@
                    }
                &&& forall|j: int|
                    0 <= j < n - 1 ==> {
                        let t = #[trigger] out.zero_transmit@[j];
                        &&& t.parties == (PartiesMessage { sender: me, receiver: cps[j] })
                        &&& t.seed@ =~= zero_kept@[j].seed@
                        &&& t.salt@ =~= zero_kept@[j].salt@
                    }
                &&& forall|j: int|
                    0 <= j < n - 1 ==> (#[trigger] out.mul_keep@[j]).counterparty == cps[j]
                &&& forall|j: int|
                    0 <= j < n - 1 ==> (#[trigger] out.mul_transmit@[j]).parties
                        == (PartiesMessage { sender: me, receiver: cps[j] })
                &&& out.bip_broadcast.sender_index == me
                &&& out.bip_broadcast.aux_chain_code@ =~= bip_kept.aux_chain_code@
                &&& out.bip_broadcast.cc_salt@ =~= bip_kept.cc_salt@
            },
            Err(a) => a.index == session.party_index && a.reason matches
                AbortReason::MultiplicationFailed { counterparty: _ },
        },
{
    let me = session.party_index;
    let n = session.parameters.share_count;
    let cps = others(n, me);

    let mut zero_keep: Vec<KeepInitZeroSharePhase3to4> = Vec::new();
    let mut zero_transmit: Vec<TransmitInitZeroSharePhase3to4> = Vec::new();
    let mut mul_keep: Vec<KeepInitMulPhase3to4> = Vec::new();
    let mut mul_transmit: Vec<TransmitInitMulPhase3to4> = Vec::new();
    let mut j: usize = 0;
    while j < cps.len()
        invariant
            j <= cps@.len(),
            cps@ =~= spec_others(n, me),
            cps@.len() == n - 1,
            zero_kept@.len() == n - 1,
            forall|i: int|
                0 <= i < zero_kept@.len() ==> (#[trigger] zero_kept@[i]).counterparty == cps@[i],
            zero_keep@.len() == j,
            zero_transmit@.len() == j,
            mul_keep@.len() == j,
            mul_transmit@.len() == j,
            forall|i: int|
                0 <= i < j ==> {
                    let k = #[trigger] zero_keep@[i];
                    &&& k.counterparty == cps@[i]
                    &&& k.seed@ =~= zero_kept@[i].seed@
                },
            forall|i: int|
                0 <= i < j ==> {
                    let t = #[trigger] zero_transmit@[i];
                    &&& t.parties == (PartiesMessage { sender: me, receiver: cps@[i] })
                    &&& t.seed@ =~= zero_kept@[i].seed@
                    &&& t.salt@ =~= zero_kept@[i].salt@
                },
            forall|i: int| 0 <= i < j ==> (#[trigger] mul_keep@[i]).counterparty == cps@[i],
            forall|i: int|
                0 <= i < j ==> (#[trigger] mul_transmit@[i]).parties == (PartiesMessage {
                    sender: me,
                    receiver: cps@[i],
                }),
        decreases cps@.len() - j,
    {
        let cp = cps[j];
        zero_keep.push(
            KeepInitZeroSharePhase3to4 { counterparty: cp, seed: zero_kept[j].seed },
        );
        zero_transmit.push(
            TransmitInitZeroSharePhase3to4 {
                parties: PartiesMessage { sender: me, receiver: cp },
                seed: zero_kept[j].seed,
                salt: zero_kept[j].salt.clone(),
            },
        );

        // As the receiver we face `cp` as sender, and vice versa; the two
        // directions get distinct instance identifiers.
        let sid_recv = mul_sid(me, cp, &session.session_id);
        let sid_send = mul_sid(cp, me, &session.session_id);
        let (recv_keep, recv_msg) = match mul_receiver_init1(&sid_recv) {
            Some(p) => p,
            None => {
                return Err(
                    Abort::new(
                        session.party_index,
                        AbortReason::MultiplicationFailed { counterparty: cp },
                    ),
                );
            },
        };
        let (send_keep, send_msg) = match mul_sender_init1(&sid_send) {
            Some(p) => p,
            None => {
                return Err(
                    Abort::new(
                        session.party_index,
                        AbortReason::MultiplicationFailed { counterparty: cp },
                    ),
                );
            },
        };
        mul_keep.push(
            KeepInitMulPhase3to4 { counterparty: cp, receiver_keep: recv_keep, sender_keep: send_keep },
        );
        mul_transmit.push(
            TransmitInitMulPhase3to4 {
                parties: PartiesMessage { sender: me, receiver: cp },
                receiver_msg: recv_msg,
                sender_msg: send_msg,
            },
        );
        j += 1;
    }

    let bip_broadcast = BroadcastDerivationPhase3to4 {
        sender_index: me,
        aux_chain_code: bip_kept.aux_chain_code,
        cc_salt: bip_kept.cc_salt.clone(),
    };

    Ok(Phase3Out { zero_keep, zero_transmit, mul_keep, mul_transmit, bip_broadcast })
}

// Phase 4 helpers: finding messages, validating routing, and the
// Shamir-in-the-exponent reconstruction of the public key.

/// First proof-commitment with the given index, if any.
pub open spec fn spec_find_pc(s: Seq<ProofCommitment>, idx: u8) -> Option<ProofCommitment>
    decreases s.len(),
{
    if s.len() == 0 {
        None
    } else if s.first().index == idx {
        Some(s.first())
    } else {
        spec_find_pc(s.drop_first(), idx)
    }
}

/// Finds the first proof-commitment with the given index.
fn find_pc(s: &Vec<ProofCommitment>, idx: u8) -> (r: Option<ProofCommitment>)
    ensures
        r is Some <==> spec_find_pc(s@, idx) is Some,
        r is Some ==> {
            let f = spec_find_pc(s@, idx)->0;
            &&& r->0.index == f.index
            &&& r->0.proof@ =~= f.proof@
            &&& r->0.commitment@ =~= f.commitment@
        },
{
    let mut i: usize = 0;
    proof {
        assert(s@.skip(0) =~= s@);
    }
    while i < s.len()
        invariant
            i <= s@.len(),
            spec_find_pc(s@, idx) == spec_find_pc(s@.skip(i as int), idx),
        decreases s@.len() - i,
    {
        proof {
            assert(s@.skip(i as int).first() == s@[i as int]);
            assert(s@.skip(i as int).drop_first() =~= s@.skip(i as int + 1));
        }
        if s[i].index == idx {
            return Some(
                ProofCommitment {
                    index: s[i].index,
                    proof: s[i].proof.clone(),
                    commitment: s[i].commitment,
                },
            );
        }
        i += 1;
    }
    proof {
        assert(s@.skip(s@.len() as int) =~= Seq::<ProofCommitment>::empty());
    }
    None
}

/// First zero-share reveal whose sender is `idx`, if any.
pub open spec fn spec_find_zero3(s: Seq<TransmitInitZeroSharePhase3to4>, idx: u8) -> Option<
    TransmitInitZeroSharePhase3to4,
>
    decreases s.len(),
{
    if s.len() == 0 {
        None
    } else if s.first().parties.sender == idx {
        Some(s.first())
    } else {
        spec_find_zero3(s.drop_first(), idx)
    }
}

/// Finds the first zero-share reveal from the given sender.
fn find_zero3(s: &Vec<TransmitInitZeroSharePhase3to4>, idx: u8) -> (r: Option<
    TransmitInitZeroSharePhase3to4,
>)
    ensures
        r is Some <==> spec_find_zero3(s@, idx) is Some,
        r is Some ==> {
            let f = spec_find_zero3(s@, idx)->0;
            &&& r->0.parties == f.parties
            &&& r->0.seed@ =~= f.seed@
            &&& r->0.salt@ =~= f.salt@
        },
{
    let mut i: usize = 0;
    proof {
        assert(s@.skip(0) =~= s@);
    }
    while i < s.len()
        invariant
            i <= s@.len(),
            spec_find_zero3(s@, idx) == spec_find_zero3(s@.skip(i as int), idx),
        decreases s@.len() - i,
    {
        proof {
            assert(s@.skip(i as int).first() == s@[i as int]);
            assert(s@.skip(i as int).drop_first() =~= s@.skip(i as int + 1));
        }
        if s[i].parties.sender == idx {
            return Some(
                TransmitInitZeroSharePhase3to4 {
                    parties: s[i].parties,
                    seed: s[i].seed,
                    salt: s[i].salt.clone(),
                },
            );
        }
        i += 1;
    }
    proof {
        assert(s@.skip(s@.len() as int) =~= Seq::<TransmitInitZeroSharePhase3to4>::empty());
    }
    None
}

/// First zero-share commitment whose sender is `idx`, if any.
pub open spec fn spec_find_zero2(s: Seq<TransmitInitZeroSharePhase2to4>, idx: u8) -> Option<
    TransmitInitZeroSharePhase2to4,
>
    decreases s.len(),
{
    if s.len() == 0 {
        None
    } else if s.first().parties.sender == idx {
        Some(s.first())
    } else {
        spec_find_zero2(s.drop_first(), idx)
    }
}

/// Finds the first zero-share commitment from the given sender.
fn find_zero2(s: &Vec<TransmitInitZeroSharePhase2to4>, idx: u8) -> (r: Option<
    TransmitInitZeroSharePhase2to4,
>)
    ensures
        r is Some <==> spec_find_zero2(s@, idx) is Some,
        r is Some ==> {
            let f = spec_find_zero2(s@, idx)->0;
            &&& r->0.parties == f.parties
            &&& r->0.commitment@ =~= f.commitment@
        },
{
    let mut i: usize = 0;
    proof {
        assert(s@.skip(0) =~= s@);
    }
    while i < s.len()
        invariant
            i <= s@.len(),
            spec_find_zero2(s@, idx) == spec_find_zero2(s@.skip(i as int), idx),
        decreases s@.len() - i,
    {
        proof {
            assert(s@.skip(i as int).first() == s@[i as int]);
            assert(s@.skip(i as int).drop_first() =~= s@.skip(i as int + 1));
        }
        if s[i].parties.sender == idx {
            return Some(
                TransmitInitZeroSharePhase2to4 {
                    parties: s[i].parties,
                    commitment: s[i].commitment,
                },
            );
        }
        i += 1;
    }
    proof {
        assert(s@.skip(s@.len() as int) =~= Seq::<TransmitInitZeroSharePhase2to4>::empty());
    }
    None
}

/// First multiplication-setup message whose sender is `idx`, if any.
pub open spec fn spec_find_mul(s: Seq<TransmitInitMulPhase3to4>, idx: u8) -> Option<
    TransmitInitMulPhase3to4,
>
    decreases s.len(),
{
    if s.len() == 0 {
        None
    } else if s.first().parties.sender == idx {
        Some(s.first())
    } else {
        spec_find_mul(s.drop_first(), idx)
    }
}

/// Finds the first multiplication-setup message from the given sender.
fn find_mul(s: &Vec<TransmitInitMulPhase3to4>, idx: u8) -> (r: Option<TransmitInitMulPhase3to4>)
    ensures
        r is Some <==> spec_find_mul(s@, idx) is Some,
        r is Some ==> {
            let f = spec_find_mul(s@, idx)->0;
            &&& r->0.parties == f.parties
            &&& r->0.receiver_msg@ =~= f.receiver_msg@
            &&& r->0.sender_msg@ =~= f.sender_msg@
        },
{
    let mut i: usize = 0;
    proof {
        assert(s@.skip(0) =~= s@);
    }
    while i < s.len()
        invariant
            i <= s@.len(),
            spec_find_mul(s@, idx) == spec_find_mul(s@.skip(i as int), idx),
        decreases s@.len() - i,
    {
        proof {
            assert(s@.skip(i as int).first() == s@[i as int]);
            assert(s@.skip(i as int).drop_first() =~= s@.skip(i as int + 1));
        }
        if s[i].parties.sender == idx {
            return Some(
                TransmitInitMulPhase3to4 {
                    parties: s[i].parties,
                    receiver_msg: s[i].receiver_msg.clone(),
                    sender_msg: s[i].sender_msg.clone(),
                },
            );
        }
        i += 1;
    }
    proof {
        assert(s@.skip(s@.len() as int) =~= Seq::<TransmitInitMulPhase3to4>::empty());
    }
    None
}

/// First chain-code commitment broadcast by `idx`, if any.
pub open spec fn spec_find_bip2(s: Seq<BroadcastDerivationPhase2to4>, idx: u8) -> Option<
    BroadcastDerivationPhase2to4,
>
    decreases s.len(),
{
    if s.len() == 0 {
        None
    } else if s.first().sender_index == idx {
        Some(s.first())
    } else {
        spec_find_bip2(s.drop_first(), idx)
    }
}

/// Finds the first chain-code commitment broadcast by `idx`.
fn find_bip2(s: &Vec<BroadcastDerivationPhase2to4>, idx: u8) -> (r: Option<
    BroadcastDerivationPhase2to4,
>)
    ensures
        r is Some <==> spec_find_bip2(s@, idx) is Some,
        r is Some ==> {
            let f = spec_find_bip2(s@, idx)->0;
            &&& r->0.sender_index == f.sender_index
            &&& r->0.cc_commitment@ =~= f.cc_commitment@
        },
{
    let mut i: usize = 0;
    proof {
        assert(s@.skip(0) =~= s@);
    }
    while i < s.len()
        invariant
            i <= s@.len(),
            spec_find_bip2(s@, idx) == spec_find_bip2(s@.skip(i as int), idx),
        decreases s@.len() - i,
    {
        proof {
            assert(s@.skip(i as int).first() == s@[i as int]);
            assert(s@.skip(i as int).drop_first() =~= s@.skip(i as int + 1));
        }
        if s[i].sender_index == idx {
            return Some(
                BroadcastDerivationPhase2to4 {
                    sender_index: s[i].sender_index,
                    cc_commitment: s[i].cc_commitment,
                },
            );
        }
        i += 1;
    }
    proof {
        assert(s@.skip(s@.len() as int) =~= Seq::<BroadcastDerivationPhase2to4>::empty());
    }
    None
}

/// First chain-code reveal broadcast by `idx`, if any.
pub open spec fn spec_find_bip3(s: Seq<BroadcastDerivationPhase3to4>, idx: u8) -> Option<
    BroadcastDerivationPhase3to4,
>
    decreases s.len(),
{
    if s.len() == 0 {
        None
    } else if s.first().sender_index == idx {
        Some(s.first())
    } else {
        spec_find_bip3(s.drop_first(), idx)
    }
}

/// Finds the first chain-code reveal broadcast by `idx`.
fn find_bip3(s: &Vec<BroadcastDerivationPhase3to4>, idx: u8) -> (r: Option<
    BroadcastDerivationPhase3to4,
>)
    ensures
        r is Some <==> spec_find_bip3(s@, idx) is Some,
        r is Some ==> {
            let f = spec_find_bip3(s@, idx)->0;
            &&& r->0.sender_index == f.sender_index
            &&& r->0.aux_chain_code@ =~= f.aux_chain_code@
            &&& r->0.cc_salt@ =~= f.cc_salt@
        },
{
    let mut i: usize = 0;
    proof {
        assert(s@.skip(0) =~= s@);
    }
    while i < s.len()
        invariant
            i <= s@.len(),
            spec_find_bip3(s@, idx) == spec_find_bip3(s@.skip(i as int), idx),
        decreases s@.len() - i,
    {
        proof {
            assert(s@.skip(i as int).first() == s@[i as int]);
            assert(s@.skip(i as int).drop_first() =~= s@.skip(i as int + 1));
        }
        if s[i].sender_index == idx {
            return Some(
                BroadcastDerivationPhase3to4 {
                    sender_index: s[i].sender_index,
                    aux_chain_code: s[i].aux_chain_code,
                    cc_salt: s[i].cc_salt.clone(),
                },
            );
        }
        i += 1;
    }
    proof {
        assert(s@.skip(s@.len() as int) =~= Seq::<BroadcastDerivationPhase3to4>::empty());
    }
    None
}

// Shamir reconstruction in the exponent.

/// `(k - j)` as a scalar value, for small `k` and `j` below the order.
pub open spec fn spec_small_diff(k: nat, j: nat) -> nat {
    if k >= j {
        (k - j) as nat
    } else {
        (group_order() - (j - k)) as nat
    }
}

/// A reduced scalar congruent to `k - j` is exactly `spec_small_diff`.
pub proof fn lemma_sub_small(r: nat, k: nat, j: nat)
    requires
        r < group_order(),
        k < group_order(),
        j < group_order(),
        (r + j) % group_order() == k,
    ensures
        r == spec_small_diff(k, j),
{
    let n = group_order() as int;
    if r + j < group_order() {
        vstd::arithmetic::div_mod::lemma_small_mod((r + j) as nat, group_order());
    } else {
        vstd::arithmetic::div_mod::lemma_mod_sub_multiples_vanish((r + j) as int, n);
        vstd::arithmetic::div_mod::lemma_small_mod((r + j - group_order()) as nat, group_order());
    }
}

/// Product of the indices `k` of the window `[lo, hi)` other than `j`,
/// modulo the group order: the numerator of the Lagrange coefficient.
pub open spec fn spec_prod_num(j: nat, lo: nat, hi: nat) -> nat
    decreases hi,
{
    if hi <= lo {
        1
    } else {
        let k = (hi - 1) as nat;
        let rest = spec_prod_num(j, lo, k);
        if k == j {
            rest
        } else {
            (rest * k) % group_order()
        }
    }
}

/// Product of `(k - j)` over the window other than `j`, modulo the group
/// order: the denominator of the Lagrange coefficient.
pub open spec fn spec_prod_den(j: nat, lo: nat, hi: nat) -> nat
    decreases hi,
{
    if hi <= lo {
        1
    } else {
        let k = (hi - 1) as nat;
        let rest = spec_prod_den(j, lo, k);
        if k == j {
            rest
        } else {
            (rest * spec_small_diff(k, j)) % group_order()
        }
    }
}

/// The Lagrange coefficient of party `j` for the window `[lo, hi)`,
/// evaluated at zero.
pub open spec fn spec_lagrange(j: nat, lo: nat, hi: nat) -> nat {
    (spec_prod_num(j, lo, hi) * spec_inv(spec_prod_den(j, lo, hi))) % group_order()
}

/// Partial Shamir reconstruction in the exponent over the window
/// `[w, w + t)`, having added parties `w..j`: the sum of each party's
/// committed point scaled by its Lagrange coefficient. The window is never
/// empty, so the fold starts from the first scaled point.
pub open spec fn spec_window_pk_upto(points: Seq<Seq<u8>>, w: nat, t: nat, j: nat) -> Seq<u8>
    decreases j,
{
    if j <= w + 1 {
        spec_point_mul(spec_lagrange(w, w, w + t), points[w - 1])
    } else {
        spec_point_add(
            spec_window_pk_upto(points, w, t, (j - 1) as nat),
            spec_point_mul(spec_lagrange((j - 1) as nat, w, w + t), points[j - 2]),
        )
    }
}

/// The public key candidate the window `[w, w + t)` reconstructs.
pub open spec fn spec_window_pk(points: Seq<Seq<u8>>, w: nat, t: nat) -> Seq<u8> {
    spec_window_pk_upto(points, w, t, w + t)
}

/// The Lagrange coefficient of party `j` for the window `[w, w + t)`;
/// fails exactly when the denominator degenerates to zero.
fn lagrange_at(j: u8, w: u8, t: u8) -> (r: Result<CScalar, ()>)
    requires
        1 <= w,
        w <= j,
        (j as int) < w + t,
        w + t <= 256,
    ensures
        match r {
            Ok(l) => {
                &&& l.reduced()
                &&& l.val() == spec_lagrange(j as nat, w as nat, w as nat + t as nat)
                &&& spec_prod_den(j as nat, w as nat, w as nat + t as nat) != 0
            },
            Err(_) => spec_prod_den(j as nat, w as nat, w as nat + t as nat) == 0,
        },
{
    let mut num = CScalar::one();
    let mut den = CScalar::one();
    let mut k: usize = w as usize;
    let hi: usize = w as usize + t as usize;
    while k < hi
        invariant
            w as usize <= k <= hi,
            hi == w as int + t as int,
            hi <= 256,
            1 <= w,
            w <= j,
            (j as int) < hi,
            num.reduced(),
            den.reduced(),
            num.val() == spec_prod_num(j as nat, w as nat, k as nat),
            den.val() == spec_prod_den(j as nat, w as nat, k as nat),
        decreases hi - k,
    {
        if k != j as usize {
            let ks = CScalar::from_u8(k as u8);
            let js = CScalar::from_u8(j);
            let next_num = scalar_mul(&num, &ks);
            let diff = scalar_sub(&ks, &js);
            proof {
                lemma_sub_small(diff.val(), k as nat, j as nat);
            }
            let next_den = scalar_mul(&den, &diff);
            num = next_num;
            den = next_den;
        }
        k += 1;
    }
    let den_inv = match scalar_invert(&den) {
        Some(inv) => inv,
        None => {
            return Err(());
        },
    };
    let l = scalar_mul(&num, &den_inv);
    Ok(l)
}

/// Reconstructs the public-key candidate of the window `[w, w + t)` from
/// the committed points (indexed zero-based by party index minus one).
fn window_pk(points: &Vec<CurvePoint>, w: u8, t: u8) -> (r: Result<CurvePoint, ()>)
    requires
        1 <= w,
        2 <= t,
        w + t <= points@.len() + 1,
        points@.len() <= 255,
        forall|i: int| 0 <= i < points@.len() ==> (#[trigger] points@[i]).valid(),
    ensures
        match r {
            Ok(p) => {
                &&& p.valid()
                &&& p.bytes@ =~= spec_window_pk(
                    Seq::new(points@.len(), |i: int| points@[i].bytes@),
                    w as nat,
                    t as nat,
                )
                &&& spec_window_dens_ok(t as nat, w as nat)
            },
            Err(_) => !spec_window_dens_ok(t as nat, w as nat),
        },
{
    let ghost penc = Seq::new(points@.len(), |i: int| points@[i].bytes@);
    let l0 = match lagrange_at(w, w, t) {
        Ok(l) => l,
        Err(_) => {
            proof {
                assert(!spec_window_dens_ok(t as nat, w as nat)) by {
                    assert(spec_prod_den(w as nat, w as nat, w as nat + t as nat) == 0);
                }
            }
            return Err(());
        },
    };
    let mut candidate = point_mul(&l0, &points[w as usize - 1]);
    let mut j: usize = w as usize + 1;
    let hi: usize = w as usize + t as usize;
    proof {
        assert(candidate.bytes@ =~= spec_window_pk_upto(penc, w as nat, t as nat, (w + 1) as nat));
    }
    while j < hi
        invariant
            w as int + 1 <= j <= hi,
            hi == w as int + t as int,
            1 <= w,
            2 <= t,
            hi <= points@.len() + 1,
            points@.len() <= 255,
            forall|i: int| 0 <= i < points@.len() ==> (#[trigger] points@[i]).valid(),
            penc == Seq::new(points@.len(), |i: int| points@[i].bytes@),
            candidate.valid(),
            candidate.bytes@ =~= spec_window_pk_upto(penc, w as nat, t as nat, j as nat),
            forall|k: nat|
                w as nat <= k < j as nat ==> #[trigger] spec_prod_den(
                    k,
                    w as nat,
                    w as nat + t as nat,
                ) != 0,
        decreases hi - j,
    {
        let lj = match lagrange_at(j as u8, w, t) {
            Ok(l) => l,
            Err(_) => {
                proof {
                    assert(!spec_window_dens_ok(t as nat, w as nat)) by {
                        assert(spec_prod_den(j as nat, w as nat, w as nat + t as nat) == 0);
                    }
                }
                return Err(());
            },
        };
        let term = point_mul(&lj, &points[j - 1]);
        let next = point_add(&candidate, &term);
        proof {
            assert(next.bytes@ =~= spec_window_pk_upto(
                penc,
                w as nat,
                t as nat,
                (j + 1) as nat,
            ));
        }
        candidate = next;
        j += 1;
    }
    proof {
        assert(spec_window_dens_ok(t as nat, w as nat)) by {
            assert forall|jj: nat|
                w as nat <= jj < w as nat + t as nat implies #[trigger] spec_prod_den(
                jj,
                w as nat,
                w as nat + t as nat,
            ) != 0 by {
                assert(jj < j as nat);
            }
        }
    }
    Ok(candidate)
}

/// The committed points the proof-commitments carry, zero-based by party.
pub open spec fn spec_committed_points(pcs: Seq<ProofCommitment>, n: u8) -> Seq<Seq<u8>> {
    Seq::new(n as nat, |i: int| spec_dlog_point(spec_find_pc(pcs, (i + 1) as u8)->0.proof@)->0)
}

/// The first `j` zero-share seed pairs are correctly formed and their
/// commit/reveal pairs verify.
pub open spec fn spec_zero_seeds_ok(
    seeds: Seq<SeedPair>,
    z2: Seq<TransmitInitZeroSharePhase2to4>,
    z3: Seq<TransmitInitZeroSharePhase3to4>,
    zk: Seq<KeepInitZeroSharePhase3to4>,
    cps: Seq<u8>,
    me: u8,
    j: int,
) -> bool
    decreases j,
{
    j <= 0 || {
        let k = j - 1;
        let sp = seeds[k];
        let m3 = spec_find_zero3(z3, cps[k]);
        let m2 = spec_find_zero2(z2, cps[k]);
        &&& spec_zero_seeds_ok(seeds, z2, z3, zk, cps, me, k)
        &&& m3 is Some
        &&& m2 is Some
        &&& m2->0.commitment@ =~= spec_commitment(m3->0.salt@, m3->0.seed@)
        &&& sp.index_counterparty == cps[k]
        &&& sp.lowest_index == (me <= cps[k])
        &&& sp.seed@ =~= spec_xor32(zk[k].seed@, m3->0.seed@)
    }
}

/// Growing the seed list does not disturb the already-checked prefix.
proof fn lemma_zero_seeds_push(
    seeds: Seq<SeedPair>,
    pushed: Seq<SeedPair>,
    z2: Seq<TransmitInitZeroSharePhase2to4>,
    z3: Seq<TransmitInitZeroSharePhase3to4>,
    zk: Seq<KeepInitZeroSharePhase3to4>,
    cps: Seq<u8>,
    me: u8,
    j: int,
)
    requires
        spec_zero_seeds_ok(seeds, z2, z3, zk, cps, me, j),
        j <= seeds.len(),
        pushed.len() == seeds.len() + 1,
        forall|k: int| 0 <= k < seeds.len() ==> #[trigger] pushed[k] == seeds[k],
    ensures
        spec_zero_seeds_ok(pushed, z2, z3, zk, cps, me, j),
    decreases j,
{
    if j > 0 {
        lemma_zero_seeds_push(seeds, pushed, z2, z3, zk, cps, me, j - 1);
    }
}

/// Every Lagrange denominator of the window `[w, w + t)` is nonzero.
pub open spec fn spec_window_dens_ok(t: nat, w: nat) -> bool {
    forall|j: nat| w <= j < w + t ==> #[trigger] spec_prod_den(j, w, w + t) != 0
}

/// One reconstruction window passes: its Lagrange denominators are
/// nonzero and its candidate agrees with the first window's.
pub open spec fn spec_window_ok(points: Seq<Seq<u8>>, t: nat, w: nat) -> bool {
    &&& spec_window_dens_ok(t, w)
    &&& spec_window_pk(points, w, t) =~= spec_window_pk(points, 1, t)
}

/// The first `j` counterparties' zero-share messages are present, routed
/// to us, and reveal exactly what was committed.
pub open spec fn spec_zero_checks_ok(
    z2: Seq<TransmitInitZeroSharePhase2to4>,
    z3: Seq<TransmitInitZeroSharePhase3to4>,
    cps: Seq<u8>,
    me: u8,
    j: int,
) -> bool
    decreases j,
{
    j <= 0 || {
        let k = j - 1;
        let m3 = spec_find_zero3(z3, cps[k]);
        let m2 = spec_find_zero2(z2, cps[k]);
        &&& spec_zero_checks_ok(z2, z3, cps, me, k)
        &&& m2 is Some
        &&& m3 is Some
        &&& m2->0.parties.receiver == me
        &&& m3->0.parties.receiver == me
        &&& m2->0.commitment@ =~= spec_commitment(m3->0.salt@, m3->0.seed@)
    }
}

/// A later prefix of checks contains every earlier one.
pub proof fn lemma_zero_checks_prefix(
    z2: Seq<TransmitInitZeroSharePhase2to4>,
    z3: Seq<TransmitInitZeroSharePhase3to4>,
    cps: Seq<u8>,
    me: u8,
    lo: int,
    hi: int,
)
    requires
        lo <= hi,
        spec_zero_checks_ok(z2, z3, cps, me, hi),
    ensures
        spec_zero_checks_ok(z2, z3, cps, me, lo),
    decreases hi,
{
    if lo < hi && hi > 0 {
        lemma_zero_checks_prefix(z2, z3, cps, me, lo, hi - 1);
    }
}

/// The first `j` counterparties' multiplication-setup messages are
/// present, routed to us, and accepted by both setup directions.
pub open spec fn spec_mul_checks_ok(
    mul_kept: Seq<KeepInitMulPhase3to4>,
    mr: Seq<TransmitInitMulPhase3to4>,
    cps: Seq<u8>,
    me: u8,
    sid: Seq<u8>,
    j: int,
) -> bool
    decreases j,
{
    j <= 0 || {
        let k = j - 1;
        let m = spec_find_mul(mr, cps[k]);
        &&& spec_mul_checks_ok(mul_kept, mr, cps, me, sid, k)
        &&& m is Some
        &&& m->0.parties.receiver == me
        &&& crate::mul::spec_mul_receiver_setup(
            spec_mul_sid(me, cps[k], sid),
            mul_kept[k].receiver_keep@,
            m->0.sender_msg@,
        ) is Some
        &&& crate::mul::spec_mul_sender_setup(
            spec_mul_sid(cps[k], me, sid),
            mul_kept[k].sender_keep@,
            m->0.receiver_msg@,
        ) is Some
    }
}

/// A later prefix of checks contains every earlier one.
pub proof fn lemma_mul_checks_prefix(
    mul_kept: Seq<KeepInitMulPhase3to4>,
    mr: Seq<TransmitInitMulPhase3to4>,
    cps: Seq<u8>,
    me: u8,
    sid: Seq<u8>,
    lo: int,
    hi: int,
)
    requires
        lo <= hi,
        spec_mul_checks_ok(mul_kept, mr, cps, me, sid, hi),
    ensures
        spec_mul_checks_ok(mul_kept, mr, cps, me, sid, lo),
    decreases hi,
{
    if lo < hi && hi > 0 {
        lemma_mul_checks_prefix(mul_kept, mr, cps, me, sid, lo, hi - 1);
    }
}

/// Every deterministic check of the final key-generation phase passes on
/// these inputs: every proof commitment is present, carries a point and
/// (for the counterparties) verifies; every reconstruction window has
/// usable Lagrange coefficients and agrees on the public key, which is
/// nontrivial; the key share is nontrivial; every zero-share and
/// chain-code reveal matches its commitment; and both multiplication
/// setups accept for every counterparty. Success is owed exactly here:
/// phase 4 draws no randomness.
pub open spec fn spec_dkg4_accepts(
    session: SessionData,
    poly_point: CScalar,
    pcs: Seq<ProofCommitment>,
    z2: Seq<TransmitInitZeroSharePhase2to4>,
    z3: Seq<TransmitInitZeroSharePhase3to4>,
    mul_kept: Seq<KeepInitMulPhase3to4>,
    mr: Seq<TransmitInitMulPhase3to4>,
    b2: Seq<BroadcastDerivationPhase2to4>,
    b3: Seq<BroadcastDerivationPhase3to4>,
) -> bool {
    let n = session.parameters.share_count;
    let t = session.parameters.threshold;
    let me = session.party_index;
    let cps = spec_others(n, me);
    let points = spec_committed_points(pcs, n);
    let pk = spec_window_pk(points, 1, t as nat);
    &&& (forall|i: int|
        1 <= i <= n ==> #[trigger] spec_find_pc(pcs, i as u8) is Some && spec_dlog_point(
            spec_find_pc(pcs, i as u8)->0.proof@,
        ) is Some && (i != me ==> spec_dlog_verify(
            spec_find_pc(pcs, i as u8)->0.proof@,
            spec_find_pc(pcs, i as u8)->0.commitment@,
            session.session_id@,
        )))
    &&& (forall|w: nat|
        1 <= w && w + t <= n + 1 ==> #[trigger] spec_window_ok(points, t as nat, w))
    &&& !(pk =~= identity_enc())
    &&& !(pk =~= spec_mul_g(1))
    &&& poly_point.val() != 0
    &&& poly_point.val() != 1
    &&& spec_zero_checks_ok(z2, z3, cps, me, (n - 1) as int)
    &&& spec_mul_checks_ok(mul_kept, mr, cps, me, session.session_id@, (n - 1) as int)
    &&& (forall|i: int|
        1 <= i <= n ==> #[trigger] spec_find_bip2(b2, i as u8) is Some && spec_find_bip3(
            b3,
            i as u8,
        ) is Some && spec_find_bip2(b2, i as u8)->0.cc_commitment@ =~= spec_commitment(
            spec_find_bip3(b3, i as u8)->0.cc_salt@,
            spec_find_bip3(b3, i as u8)->0.aux_chain_code@,
        ))
}

/// The chain code after folding in the first `i` parties' verified
/// auxiliary chain codes.
pub open spec fn spec_cc_fold(b3: Seq<BroadcastDerivationPhase3to4>, i: nat) -> Seq<u8>
    decreases i,
{
    if i == 0 {
        Seq::new(32, |k: int| 0u8)
    } else {
        let prev = spec_cc_fold(b3, (i - 1) as nat);
        match spec_find_bip3(b3, i as u8) {
            Some(m) => spec_xor32(prev, m.aux_chain_code@),
            None => prev,
        }
    }
}

/// Phase 4: verify every discrete-log proof, reconstruct the joint public
/// key by Shamir interpolation in the exponent (checking that every
/// contiguous window agrees), verify every zero-share and chain-code
/// commit/reveal pair, finish the multiplication setup, and assemble the
/// finalized [`Party`]. Any failed check aborts the whole session, naming
/// the offending party.
#[verifier::rlimit(60)]
#[allow(clippy::too_many_arguments)]
pub fn dkls_dkg_phase4(
    session: &SessionData,
    poly_point: &CScalar,
    proofs_commitments: &Vec<ProofCommitment>,
    zero_kept: &Vec<KeepInitZeroSharePhase3to4>,
    zero_received_phase2: &Vec<TransmitInitZeroSharePhase2to4>,
    zero_received_phase3: &Vec<TransmitInitZeroSharePhase3to4>,
    mul_kept: &Vec<KeepInitMulPhase3to4>,
    mul_received: &Vec<TransmitInitMulPhase3to4>,
    bip_received_phase2: &Vec<BroadcastDerivationPhase2to4>,
    bip_received_phase3: &Vec<BroadcastDerivationPhase3to4>,
) -> (r: Result<Party, Abort>)
    requires
        session.valid(),
        poly_point.reduced(),
        zero_kept@.len() == session.parameters.share_count - 1,
        mul_kept@.len() == session.parameters.share_count - 1,
        forall|j: int|
            0 <= j < zero_kept@.len() ==> (#[trigger] zero_kept@[j]).counterparty == spec_others(
                session.parameters.share_count,
                session.party_index,
            )[j],
        forall|j: int|
            0 <= j < mul_kept@.len() ==> (#[trigger] mul_kept@[j]).counterparty == spec_others(
                session.parameters.share_count,
                session.party_index,
            )[j],
    ensures
        r is Ok <==> spec_dkg4_accepts(
            *session,
            *poly_point,
            proofs_commitments@,
            zero_received_phase2@,
            zero_received_phase3@,
            mul_kept@,
            mul_received@,
            bip_received_phase2@,
            bip_received_phase3@,
        ),
        match r {
            Ok(out) => {
                let n = session.parameters.share_count;
                let t = session.parameters.threshold;
                let me = session.party_index;
                let cps = spec_others(n, me);
                let points = spec_committed_points(proofs_commitments@, n);
                &&& out.wf()
                &&& out.parameters == session.parameters
                &&& out.party_index == me
                &&& out.session_id@ =~= session.session_id@
                &&& out.poly_point.bytes@ =~= poly_point.bytes@
                &&& out.pk.bytes@ =~= spec_window_pk(points, 1, t as nat)
                &&& !(out.pk.bytes@ =~= spec_mul_g(1))
                &&& poly_point.val() != 0
                &&& poly_point.val() != 1
                &&& forall|i: int|
                    1 <= i <= n ==> #[trigger] spec_find_pc(proofs_commitments@, i as u8) is Some
                &&& forall|i: int|
                    1 <= i <= n && i != me ==> spec_dlog_verify(
                        (#[trigger] spec_find_pc(proofs_commitments@, i as u8))->0.proof@,
                        spec_find_pc(proofs_commitments@, i as u8)->0.commitment@,
                        session.session_id@,
                    )
                &&& forall|w: int|
                    1 <= w <= n - t + 1 ==> #[trigger] spec_window_pk(points, w as nat, t as nat)
                        =~= out.pk.bytes@
                &&& out.zero_share.seeds@.len() == n - 1
                &&& spec_zero_seeds_ok(
                    out.zero_share.seeds@,
                    zero_received_phase2@,
                    zero_received_phase3@,
                    zero_kept@,
                    cps,
                    me,
                    (n - 1) as int,
                )
                &&& forall|i: int|
                    1 <= i <= n ==> {
                        let b2 = #[trigger] spec_find_bip2(bip_received_phase2@, i as u8);
                        let b3 = spec_find_bip3(bip_received_phase3@, i as u8);
                        &&& b2 is Some
                        &&& b3 is Some
                        &&& b2->0.cc_commitment@ =~= spec_commitment(
                            b3->0.cc_salt@,
                            b3->0.aux_chain_code@,
                        )
                    }
                &&& out.derivation_data.chain_code@ =~= spec_cc_fold(
                    bip_received_phase3@,
                    n as nat,
                )
                &&& out.derivation_data.depth == 0
                &&& out.derivation_data.child_number == 0
                &&& out.derivation_data.parent_fingerprint@ =~= Seq::new(4, |k: int| 0u8)
                &&& out.derivation_data.poly_point.bytes@ =~= poly_point.bytes@
                &&& out.derivation_data.pk.bytes@ =~= out.pk.bytes@
            },
            Err(a) => {
                let n = session.parameters.share_count;
                let t = session.parameters.threshold;
                let me = session.party_index;
                let points = spec_committed_points(proofs_commitments@, n);
                &&& a.index == me
                &&& match a.reason {
                    AbortReason::MissingMessageFromParty { party } => 1 <= party <= n && (
                    spec_find_pc(proofs_commitments@, party) is None || spec_find_zero2(
                        zero_received_phase2@,
                        party,
                    ) is None || spec_find_zero3(zero_received_phase3@, party) is None
                        || spec_find_mul(mul_received@, party) is None || spec_find_bip2(
                        bip_received_phase2@,
                        party,
                    ) is None || spec_find_bip3(bip_received_phase3@, party) is None),
                    AbortReason::MisroutedMessage { actual_receiver } => actual_receiver != me,
                    AbortReason::InvalidEncoding { party } => {
                        let pc = spec_find_pc(proofs_commitments@, party);
                        pc is Some && spec_dlog_point(pc->0.proof@) is None
                    },
                    AbortReason::ProofVerificationFailed { counterparty } => {
                        let pc = spec_find_pc(proofs_commitments@, counterparty);
                        &&& pc is Some
                        &&& counterparty != me
                        &&& !spec_dlog_verify(
                            pc->0.proof@,
                            pc->0.commitment@,
                            session.session_id@,
                        )
                    },
                    AbortReason::LagrangeCoefficientFailed => exists|w: nat|
                        1 <= w && w + t <= n + 1 && !(#[trigger] spec_window_dens_ok(
                            t as nat,
                            w,
                        )),
                    AbortReason::PolynomialInconsistency => exists|w: nat|
                        2 <= w && w + t <= n + 1 && !((#[trigger] spec_window_pk(
                            points,
                            w,
                            t as nat,
                        )) =~= spec_window_pk(points, 1, t as nat)),
                    AbortReason::TrivialPublicKey => spec_window_pk(points, 1, t as nat)
                        =~= identity_enc() || spec_window_pk(points, 1, t as nat) =~= spec_mul_g(
                        1,
                    ),
                    AbortReason::TrivialKeyShare => poly_point.val() == 0 || poly_point.val()
                        == 1,
                    AbortReason::ZeroShareDecommitFailed { counterparty } => {
                        let m3 = spec_find_zero3(zero_received_phase3@, counterparty);
                        let m2 = spec_find_zero2(zero_received_phase2@, counterparty);
                        &&& m3 is Some
                        &&& m2 is Some
                        &&& !(m2->0.commitment@ =~= spec_commitment(m3->0.salt@, m3->0.seed@))
                    },
                    AbortReason::MultiplicationFailed { counterparty } => exists|k: int|
                        0 <= k < spec_others(n, me).len() && (#[trigger] spec_others(n, me)[k])
                            == counterparty && spec_find_mul(mul_received@, counterparty)
                            is Some && (crate::mul::spec_mul_receiver_setup(
                            spec_mul_sid(me, counterparty, session.session_id@),
                            mul_kept@[k].receiver_keep@,
                            spec_find_mul(mul_received@, counterparty)->0.sender_msg@,
                        ) is None || crate::mul::spec_mul_sender_setup(
                            spec_mul_sid(counterparty, me, session.session_id@),
                            mul_kept@[k].sender_keep@,
                            spec_find_mul(mul_received@, counterparty)->0.receiver_msg@,
                        ) is None),
                    AbortReason::ChainCodeCommitmentFailed { party } => {
                        let b2 = spec_find_bip2(bip_received_phase2@, party);
                        let b3 = spec_find_bip3(bip_received_phase3@, party);
                        &&& b2 is Some
                        &&& b3 is Some
                        &&& !(b2->0.cc_commitment@ =~= spec_commitment(
                            b3->0.cc_salt@,
                            b3->0.aux_chain_code@,
                        ))
                    },
                    _ => false,
                }
            },
        },
{
    let me = session.party_index;
    let n = session.parameters.share_count;
    let t = session.parameters.threshold;
    let cps = others(n, me);

    // Step 5: verify every proof against its commitment and gather the
    // committed points, in party-index order.
    let ghost gpoints = spec_committed_points(proofs_commitments@, n);
    proof {
        assert(gpoints.len() == n as nat);
    }
    let mut points: Vec<CurvePoint> = Vec::new();
    let mut i: usize = 1;
    while i <= n as usize
        invariant
            1 <= i <= n as usize + 1,
            session.valid(),
            me == session.party_index,
            n == session.parameters.share_count,
            gpoints == spec_committed_points(proofs_commitments@, n),
            points@.len() == i - 1,
            forall|k: int|
                1 <= k < i ==> #[trigger] spec_find_pc(proofs_commitments@, k as u8) is Some,
            forall|k: int|
                1 <= k < i && k != me ==> spec_dlog_verify(
                    (#[trigger] spec_find_pc(proofs_commitments@, k as u8))->0.proof@,
                    spec_find_pc(proofs_commitments@, k as u8)->0.commitment@,
                    session.session_id@,
                ),
            forall|k: int|
                1 <= k < i ==> spec_dlog_point(
                    (#[trigger] spec_find_pc(proofs_commitments@, k as u8))->0.proof@,
                ) is Some,
            forall|k: int|
                0 <= k < points@.len() ==> (#[trigger] points@[k]).valid() && points@[k].bytes@
                    =~= gpoints[k],
        decreases n as int + 1 - i,
    {
        let pc = match find_pc(proofs_commitments, i as u8) {
            Some(pc) => pc,
            None => {
                proof {
                    assert(spec_find_pc(proofs_commitments@, i as u8) is None);
                    assert(!spec_dkg4_accepts(
                        *session,
                        *poly_point,
                        proofs_commitments@,
                        zero_received_phase2@,
                        zero_received_phase3@,
                        mul_kept@,
                        mul_received@,
                        bip_received_phase2@,
                        bip_received_phase3@,
                    ));
                }
                return Err(
                    Abort::new(
                        session.party_index,
                        AbortReason::MissingMessageFromParty { party: i as u8 },
                    ),
                );
            },
        };
        if i != me as usize {
            if !dlog_decommit_verify(&pc.proof, &pc.commitment, &session.session_id) {
                proof {
                    let f = spec_find_pc(proofs_commitments@, i as u8)->0;
                    assert(pc.proof@ =~= f.proof@ && pc.commitment@ =~= f.commitment@);
                    assert(!spec_dlog_verify(f.proof@, f.commitment@, session.session_id@));
                    assert(!spec_dkg4_accepts(
                        *session,
                        *poly_point,
                        proofs_commitments@,
                        zero_received_phase2@,
                        zero_received_phase3@,
                        mul_kept@,
                        mul_received@,
                        bip_received_phase2@,
                        bip_received_phase3@,
                    ));
                }
                return Err(
                    Abort::new(
                        session.party_index,
                        AbortReason::ProofVerificationFailed { counterparty: i as u8 },
                    ),
                );
            }
        }
        let point = match dlog_proof_point(&pc.proof) {
            Some(p) => p,
            None => {
                proof {
                    let f = spec_find_pc(proofs_commitments@, i as u8)->0;
                    assert(pc.proof@ =~= f.proof@);
                    assert(spec_dlog_point(f.proof@) is None);
                    assert(!spec_dkg4_accepts(
                        *session,
                        *poly_point,
                        proofs_commitments@,
                        zero_received_phase2@,
                        zero_received_phase3@,
                        mul_kept@,
                        mul_received@,
                        bip_received_phase2@,
                        bip_received_phase3@,
                    ));
                }
                return Err(
                    Abort::new(
                        session.party_index,
                        AbortReason::InvalidEncoding { party: i as u8 },
                    ),
                );
            },
        };
        points.push(point);
        i += 1;
    }

    // Shamir reconstruction in the exponent: every contiguous window of
    // `t` parties must reconstruct the same public key.
    proof {
        assert(Seq::new(points@.len(), |k: int| points@[k].bytes@) =~~= gpoints);
    }
    let pk = match window_pk(&points, 1, t) {
        Ok(p) => p,
        Err(_) => {
            proof {
                assert(!spec_window_dens_ok(t as nat, 1));
                assert(!spec_window_ok(gpoints, t as nat, 1));
                assert(!spec_dkg4_accepts(
                        *session,
                        *poly_point,
                        proofs_commitments@,
                        zero_received_phase2@,
                        zero_received_phase3@,
                        mul_kept@,
                        mul_received@,
                        bip_received_phase2@,
                        bip_received_phase3@,
                    ));
            }
            return Err(Abort::new(session.party_index, AbortReason::LagrangeCoefficientFailed));
        },
    };
    proof {
        assert(spec_window_ok(gpoints, t as nat, 1));
    }
    let mut w: usize = 2;
    while w <= (n - t) as usize + 1
        invariant
            2 <= w <= (n - t) as usize + 2,
            session.valid(),
            n == session.parameters.share_count,
            t == session.parameters.threshold,
            gpoints == spec_committed_points(proofs_commitments@, n),
            points@.len() == n,
            forall|k: int|
                0 <= k < points@.len() ==> (#[trigger] points@[k]).valid() && points@[k].bytes@
                    =~= gpoints[k],
            pk.valid(),
            pk.bytes@ =~= spec_window_pk(gpoints, 1, t as nat),
            forall|v: nat|
                1 <= v < w as nat ==> #[trigger] spec_window_pk(gpoints, v, t as nat) =~=
                pk.bytes@,
            forall|v: nat| 1 <= v < w as nat ==> #[trigger] spec_window_ok(gpoints, t as nat, v),
        decreases (n - t) as int + 2 - w,
    {
        proof {
            assert(Seq::new(points@.len(), |k: int| points@[k].bytes@) =~~= gpoints);
        }
        let candidate = match window_pk(&points, w as u8, t) {
            Ok(p) => p,
            Err(_) => {
                proof {
                    assert(!spec_window_dens_ok(t as nat, w as nat));
                    assert(!spec_window_ok(gpoints, t as nat, w as nat));
                    assert(!spec_dkg4_accepts(
                        *session,
                        *poly_point,
                        proofs_commitments@,
                        zero_received_phase2@,
                        zero_received_phase3@,
                        mul_kept@,
                        mul_received@,
                        bip_received_phase2@,
                        bip_received_phase3@,
                    ));
                }
                return Err(
                    Abort::new(session.party_index, AbortReason::LagrangeCoefficientFailed),
                );
            },
        };
        if !candidate.same_as(&pk) {
            proof {
                assert(!(spec_window_pk(gpoints, w as nat, t as nat) =~= spec_window_pk(
                    gpoints,
                    1,
                    t as nat,
                )));
                assert(!spec_window_ok(gpoints, t as nat, w as nat));
                assert(!spec_dkg4_accepts(
                        *session,
                        *poly_point,
                        proofs_commitments@,
                        zero_received_phase2@,
                        zero_received_phase3@,
                        mul_kept@,
                        mul_received@,
                        bip_received_phase2@,
                        bip_received_phase3@,
                    ));
            }
            return Err(Abort::new(session.party_index, AbortReason::PolynomialInconsistency));
        }
        proof {
            assert(spec_window_pk(gpoints, w as nat, t as nat) =~= pk.bytes@);
            assert(spec_window_ok(gpoints, t as nat, w as nat));
        }
        w += 1;
    }

    // The public key must be neither the identity nor the generator, and
    // the key share must be neither zero nor one.
    if pk.is_identity() {
        proof {
            assert(spec_window_pk(gpoints, 1, t as nat) =~= identity_enc());
            assert(!spec_dkg4_accepts(
                        *session,
                        *poly_point,
                        proofs_commitments@,
                        zero_received_phase2@,
                        zero_received_phase3@,
                        mul_kept@,
                        mul_received@,
                        bip_received_phase2@,
                        bip_received_phase3@,
                    ));
        }
        return Err(Abort::new(session.party_index, AbortReason::TrivialPublicKey));
    }
    let one = CScalar::one();
    let generator = gen_mul(&one);
    if pk.same_as(&generator) {
        proof {
            assert(spec_window_pk(gpoints, 1, t as nat) =~= spec_mul_g(1));
            assert(!spec_dkg4_accepts(
                        *session,
                        *poly_point,
                        proofs_commitments@,
                        zero_received_phase2@,
                        zero_received_phase3@,
                        mul_kept@,
                        mul_received@,
                        bip_received_phase2@,
                        bip_received_phase3@,
                    ));
        }
        return Err(Abort::new(session.party_index, AbortReason::TrivialPublicKey));
    }
    let zero = CScalar::default();
    if crate::bytes::bytes32_eq(&poly_point.bytes, &zero.bytes) {
        proof {
            crate::scalar::lemma_be_val_zero(zero.bytes@);
            assert(poly_point.val() == 0);
            assert(!spec_dkg4_accepts(
                        *session,
                        *poly_point,
                        proofs_commitments@,
                        zero_received_phase2@,
                        zero_received_phase3@,
                        mul_kept@,
                        mul_received@,
                        bip_received_phase2@,
                        bip_received_phase3@,
                    ));
        }
        return Err(Abort::new(session.party_index, AbortReason::TrivialKeyShare));
    }
    if crate::bytes::bytes32_eq(&poly_point.bytes, &one.bytes) {
        proof {
            assert(poly_point.val() == 1);
            assert(!spec_dkg4_accepts(
                        *session,
                        *poly_point,
                        proofs_commitments@,
                        zero_received_phase2@,
                        zero_received_phase3@,
                        mul_kept@,
                        mul_received@,
                        bip_received_phase2@,
                        bip_received_phase3@,
                    ));
        }
        return Err(Abort::new(session.party_index, AbortReason::TrivialKeyShare));
    }
    proof {
        if poly_point.val() == 0 {
            crate::scalar::lemma_be_val_zero(zero.bytes@);
            crate::scalar::lemma_be_val_injective(poly_point.bytes@, zero.bytes@);
        }
        if poly_point.val() == 1 {
            crate::scalar::lemma_be_val_injective(poly_point.bytes@, one.bytes@);
        }
    }

    // Zero-share setup: check every counterparty's reveal against its
    // commitment and fold the pair seeds.
    let mut seeds: Vec<SeedPair> = Vec::new();
    let mut j: usize = 0;
    while j < cps.len()
        invariant
            j <= cps@.len(),
            session.valid(),
            me == session.party_index,
            n == session.parameters.share_count,
            cps@ =~= spec_others(n, me),
            cps@.len() == n - 1,
            zero_kept@.len() == n - 1,
            forall|k: int|
                0 <= k < zero_kept@.len() ==> (#[trigger] zero_kept@[k]).counterparty == cps@[k],
            seeds@.len() == j,
            spec_zero_seeds_ok(
                seeds@,
                zero_received_phase2@,
                zero_received_phase3@,
                zero_kept@,
                cps@,
                me,
                j as int,
            ),
            spec_zero_checks_ok(
                zero_received_phase2@,
                zero_received_phase3@,
                cps@,
                me,
                j as int,
            ),
        decreases cps@.len() - j,
    {
        let cp = cps[j];
        proof {
            assert(cp == cps@[j as int] && 1 <= cp <= n);
        }
        let m2 = match find_zero2(zero_received_phase2, cp) {
            Some(m) => m,
            None => {
                proof {
                    assert(spec_find_zero2(zero_received_phase2@, cp) is None);
                    if spec_dkg4_accepts(
                        *session,
                        *poly_point,
                        proofs_commitments@,
                        zero_received_phase2@,
                        zero_received_phase3@,
                        mul_kept@,
                        mul_received@,
                        bip_received_phase2@,
                        bip_received_phase3@,
                    ) {
                        lemma_zero_checks_prefix(
                            zero_received_phase2@,
                            zero_received_phase3@,
                            cps@,
                            me,
                            j as int + 1,
                            (n - 1) as int,
                        );
                    }
                    assert(!spec_dkg4_accepts(
                        *session,
                        *poly_point,
                        proofs_commitments@,
                        zero_received_phase2@,
                        zero_received_phase3@,
                        mul_kept@,
                        mul_received@,
                        bip_received_phase2@,
                        bip_received_phase3@,
                    ));
                }
                return Err(
                    Abort::new(
                        session.party_index,
                        AbortReason::MissingMessageFromParty { party: cp },
                    ),
                );
            },
        };
        let m3 = match find_zero3(zero_received_phase3, cp) {
            Some(m) => m,
            None => {
                proof {
                    assert(spec_find_zero3(zero_received_phase3@, cp) is None);
                    if spec_dkg4_accepts(
                        *session,
                        *poly_point,
                        proofs_commitments@,
                        zero_received_phase2@,
                        zero_received_phase3@,
                        mul_kept@,
                        mul_received@,
                        bip_received_phase2@,
                        bip_received_phase3@,
                    ) {
                        lemma_zero_checks_prefix(
                            zero_received_phase2@,
                            zero_received_phase3@,
                            cps@,
                            me,
                            j as int + 1,
                            (n - 1) as int,
                        );
                    }
                    assert(!spec_dkg4_accepts(
                        *session,
                        *poly_point,
                        proofs_commitments@,
                        zero_received_phase2@,
                        zero_received_phase3@,
                        mul_kept@,
                        mul_received@,
                        bip_received_phase2@,
                        bip_received_phase3@,
                    ));
                }
                return Err(
                    Abort::new(
                        session.party_index,
                        AbortReason::MissingMessageFromParty { party: cp },
                    ),
                );
            },
        };
        if m2.parties.receiver != me || m3.parties.receiver != me {
            proof {
                assert(m2.parties == spec_find_zero2(zero_received_phase2@, cp)->0.parties);
                assert(m3.parties == spec_find_zero3(zero_received_phase3@, cp)->0.parties);
                if spec_dkg4_accepts(
                        *session,
                        *poly_point,
                        proofs_commitments@,
                        zero_received_phase2@,
                        zero_received_phase3@,
                        mul_kept@,
                        mul_received@,
                        bip_received_phase2@,
                        bip_received_phase3@,
                    ) {
                    lemma_zero_checks_prefix(
                            zero_received_phase2@,
                            zero_received_phase3@,
                            cps@,
                            me,
                            j as int + 1,
                            (n - 1) as int,
                        );
                }
                assert(!spec_dkg4_accepts(
                        *session,
                        *poly_point,
                        proofs_commitments@,
                        zero_received_phase2@,
                        zero_received_phase3@,
                        mul_kept@,
                        mul_received@,
                        bip_received_phase2@,
                        bip_received_phase3@,
                    ));
            }
            return Err(
                Abort::new(
                    session.party_index,
                    AbortReason::MisroutedMessage {
                        actual_receiver: if m2.parties.receiver != me {
                            m2.parties.receiver
                        } else {
                            m3.parties.receiver
                        },
                    },
                ),
            );
        }
        let seed_vec = array32_to_vec(&m3.seed);
        if !verify_commitment(&seed_vec, &m2.commitment, &m3.salt) {
            proof {
                let gm3 = spec_find_zero3(zero_received_phase3@, cp)->0;
                let gm2 = spec_find_zero2(zero_received_phase2@, cp)->0;
                assert(m3.seed@ =~= gm3.seed@ && m3.salt@ =~= gm3.salt@);
                assert(m2.commitment@ =~= gm2.commitment@);
                assert(!(gm2.commitment@ =~= spec_commitment(gm3.salt@, gm3.seed@)));
                if spec_dkg4_accepts(
                        *session,
                        *poly_point,
                        proofs_commitments@,
                        zero_received_phase2@,
                        zero_received_phase3@,
                        mul_kept@,
                        mul_received@,
                        bip_received_phase2@,
                        bip_received_phase3@,
                    ) {
                    lemma_zero_checks_prefix(
                            zero_received_phase2@,
                            zero_received_phase3@,
                            cps@,
                            me,
                            j as int + 1,
                            (n - 1) as int,
                        );
                }
                assert(!spec_dkg4_accepts(
                        *session,
                        *poly_point,
                        proofs_commitments@,
                        zero_received_phase2@,
                        zero_received_phase3@,
                        mul_kept@,
                        mul_received@,
                        bip_received_phase2@,
                        bip_received_phase3@,
                    ));
            }
            return Err(
                Abort::new(
                    session.party_index,
                    AbortReason::ZeroShareDecommitFailed { counterparty: cp },
                ),
            );
        }
        let sp = generate_seed_pair(me, cp, &zero_kept[j].seed, &m3.seed);
        let ghost old_seeds = seeds@;
        seeds.push(sp);
        proof {
            lemma_zero_seeds_push(
                old_seeds,
                seeds@,
                zero_received_phase2@,
                zero_received_phase3@,
                zero_kept@,
                cps@,
                me,
                j as int,
            );
            let gm3 = spec_find_zero3(zero_received_phase3@, cp)->0;
            let gm2 = spec_find_zero2(zero_received_phase2@, cp)->0;
            assert(cp == cps@[j as int]);
            assert(seeds@[j as int] == sp);
            assert(m3.seed@ =~= gm3.seed@ && m3.salt@ =~= gm3.salt@);
            assert(m2.commitment@ =~= gm2.commitment@);
            assert(gm2.commitment@ =~= spec_commitment(gm3.salt@, gm3.seed@));
            assert(sp.seed@ =~= spec_xor32(zero_kept@[j as int].seed@, gm3.seed@));
            assert(spec_zero_seeds_ok(
                seeds@,
                zero_received_phase2@,
                zero_received_phase3@,
                zero_kept@,
                cps@,
                me,
                j as int + 1,
            ));
            assert(spec_zero_checks_ok(
                zero_received_phase2@,
                zero_received_phase3@,
                cps@,
                me,
                j as int + 1,
            ));
        }
        j += 1;
    }
    let zero_share = ZeroShare::initialize(seeds);

    // Multiplication setup: finish both roles with every counterparty.
    let mut mul_senders: Vec<(u8, crate::mul::MulSenderState)> = Vec::new();
    let mut mul_receivers: Vec<(u8, crate::mul::MulReceiverState)> = Vec::new();
    let mut j: usize = 0;
    while j < cps.len()
        invariant
            j <= cps@.len(),
            session.valid(),
            me == session.party_index,
            n == session.parameters.share_count,
            cps@ =~= spec_others(n, me),
            cps@.len() == n - 1,
            mul_kept@.len() == n - 1,
            forall|k: int|
                0 <= k < mul_kept@.len() ==> (#[trigger] mul_kept@[k]).counterparty == cps@[k],
            mul_senders@.len() == j,
            mul_receivers@.len() == j,
            forall|k: int| 0 <= k < j ==> (#[trigger] mul_senders@[k]).0 == cps@[k],
            forall|k: int| 0 <= k < j ==> (#[trigger] mul_receivers@[k]).0 == cps@[k],
            spec_mul_checks_ok(mul_kept@, mul_received@, cps@, me, session.session_id@, j as int),
        decreases cps@.len() - j,
    {
        let cp = cps[j];
        proof {
            assert(cp == cps@[j as int] && 1 <= cp <= n);
        }
        let mm = match find_mul(mul_received, cp) {
            Some(m) => m,
            None => {
                proof {
                    assert(spec_find_mul(mul_received@, cp) is None);
                    if spec_dkg4_accepts(
                        *session,
                        *poly_point,
                        proofs_commitments@,
                        zero_received_phase2@,
                        zero_received_phase3@,
                        mul_kept@,
                        mul_received@,
                        bip_received_phase2@,
                        bip_received_phase3@,
                    ) {
                        lemma_mul_checks_prefix(
                            mul_kept@,
                            mul_received@,
                            cps@,
                            me,
                            session.session_id@,
                            j as int + 1,
                            (n - 1) as int,
                        );
                    }
                    assert(!spec_dkg4_accepts(
                        *session,
                        *poly_point,
                        proofs_commitments@,
                        zero_received_phase2@,
                        zero_received_phase3@,
                        mul_kept@,
                        mul_received@,
                        bip_received_phase2@,
                        bip_received_phase3@,
                    ));
                }
                return Err(
                    Abort::new(
                        session.party_index,
                        AbortReason::MissingMessageFromParty { party: cp },
                    ),
                );
            },
        };
        if mm.parties.receiver != me {
            proof {
                assert(mm.parties == spec_find_mul(mul_received@, cp)->0.parties);
                if spec_dkg4_accepts(
                        *session,
                        *poly_point,
                        proofs_commitments@,
                        zero_received_phase2@,
                        zero_received_phase3@,
                        mul_kept@,
                        mul_received@,
                        bip_received_phase2@,
                        bip_received_phase3@,
                    ) {
                    lemma_mul_checks_prefix(
                            mul_kept@,
                            mul_received@,
                            cps@,
                            me,
                            session.session_id@,
                            j as int + 1,
                            (n - 1) as int,
                        );
                }
                assert(!spec_dkg4_accepts(
                        *session,
                        *poly_point,
                        proofs_commitments@,
                        zero_received_phase2@,
                        zero_received_phase3@,
                        mul_kept@,
                        mul_received@,
                        bip_received_phase2@,
                        bip_received_phase3@,
                    ));
            }
            return Err(
                Abort::new(
                    session.party_index,
                    AbortReason::MisroutedMessage { actual_receiver: mm.parties.receiver },
                ),
            );
        }
        let sid_recv = mul_sid(me, cp, &session.session_id);
        let receiver = match mul_receiver_init2(&sid_recv, &mul_kept[j].receiver_keep, &mm.sender_msg) {
            Ok(b) => b,
            Err(_) => {
                proof {
                    let gm = spec_find_mul(mul_received@, cp)->0;
                    assert(mm.sender_msg@ =~= gm.sender_msg@);
                    assert(sid_recv@ =~= spec_mul_sid(me, cp, session.session_id@));
                    assert(crate::mul::spec_mul_receiver_setup(
                        spec_mul_sid(me, cp, session.session_id@),
                        mul_kept@[j as int].receiver_keep@,
                        gm.sender_msg@,
                    ) is None);
                    if spec_dkg4_accepts(
                        *session,
                        *poly_point,
                        proofs_commitments@,
                        zero_received_phase2@,
                        zero_received_phase3@,
                        mul_kept@,
                        mul_received@,
                        bip_received_phase2@,
                        bip_received_phase3@,
                    ) {
                        lemma_mul_checks_prefix(
                            mul_kept@,
                            mul_received@,
                            cps@,
                            me,
                            session.session_id@,
                            j as int + 1,
                            (n - 1) as int,
                        );
                    }
                    assert(!spec_dkg4_accepts(
                        *session,
                        *poly_point,
                        proofs_commitments@,
                        zero_received_phase2@,
                        zero_received_phase3@,
                        mul_kept@,
                        mul_received@,
                        bip_received_phase2@,
                        bip_received_phase3@,
                    ));
                }
                return Err(
                    Abort::new(
                        session.party_index,
                        AbortReason::MultiplicationFailed { counterparty: cp },
                    ),
                );
            },
        };
        let sid_send = mul_sid(cp, me, &session.session_id);
        let sender = match mul_sender_init2(&sid_send, &mul_kept[j].sender_keep, &mm.receiver_msg) {
            Ok(b) => b,
            Err(_) => {
                proof {
                    let gm = spec_find_mul(mul_received@, cp)->0;
                    assert(mm.receiver_msg@ =~= gm.receiver_msg@);
                    assert(sid_send@ =~= spec_mul_sid(cp, me, session.session_id@));
                    assert(crate::mul::spec_mul_sender_setup(
                        spec_mul_sid(cp, me, session.session_id@),
                        mul_kept@[j as int].sender_keep@,
                        gm.receiver_msg@,
                    ) is None);
                    if spec_dkg4_accepts(
                        *session,
                        *poly_point,
                        proofs_commitments@,
                        zero_received_phase2@,
                        zero_received_phase3@,
                        mul_kept@,
                        mul_received@,
                        bip_received_phase2@,
                        bip_received_phase3@,
                    ) {
                        lemma_mul_checks_prefix(
                            mul_kept@,
                            mul_received@,
                            cps@,
                            me,
                            session.session_id@,
                            j as int + 1,
                            (n - 1) as int,
                        );
                    }
                    assert(!spec_dkg4_accepts(
                        *session,
                        *poly_point,
                        proofs_commitments@,
                        zero_received_phase2@,
                        zero_received_phase3@,
                        mul_kept@,
                        mul_received@,
                        bip_received_phase2@,
                        bip_received_phase3@,
                    ));
                }
                return Err(
                    Abort::new(
                        session.party_index,
                        AbortReason::MultiplicationFailed { counterparty: cp },
                    ),
                );
            },
        };
        mul_receivers.push((cp, receiver));
        mul_senders.push((cp, sender));
        proof {
            let gm = spec_find_mul(mul_received@, cp)->0;
            assert(mm.sender_msg@ =~= gm.sender_msg@ && mm.receiver_msg@ =~= gm.receiver_msg@);
            assert(spec_mul_checks_ok(
                mul_kept@,
                mul_received@,
                cps@,
                me,
                session.session_id@,
                j as int + 1,
            ));
        }
        j += 1;
    }

    // Chain code: verify every party's reveal and fold them together.
    let mut chain_code = [0u8; 32];
    let mut i: usize = 1;
    proof {
        assert(chain_code@ =~= spec_cc_fold(bip_received_phase3@, 0));
    }
    while i <= n as usize
        invariant
            1 <= i <= n as usize + 1,
            session.valid(),
            me == session.party_index,
            n == session.parameters.share_count,
            chain_code@ =~= spec_cc_fold(bip_received_phase3@, (i - 1) as nat),
            forall|k: int|
                1 <= k < i ==> {
                    let b2 = #[trigger] spec_find_bip2(bip_received_phase2@, k as u8);
                    let b3 = spec_find_bip3(bip_received_phase3@, k as u8);
                    &&& b2 is Some
                    &&& b3 is Some
                    &&& b2->0.cc_commitment@ =~= spec_commitment(
                        b3->0.cc_salt@,
                        b3->0.aux_chain_code@,
                    )
                },
        decreases n as int + 1 - i,
    {
        let b2 = match find_bip2(bip_received_phase2, i as u8) {
            Some(m) => m,
            None => {
                proof {
                    assert(spec_find_bip2(bip_received_phase2@, i as u8) is None);
                    assert(!spec_dkg4_accepts(
                        *session,
                        *poly_point,
                        proofs_commitments@,
                        zero_received_phase2@,
                        zero_received_phase3@,
                        mul_kept@,
                        mul_received@,
                        bip_received_phase2@,
                        bip_received_phase3@,
                    ));
                }
                return Err(
                    Abort::new(
                        session.party_index,
                        AbortReason::MissingMessageFromParty { party: i as u8 },
                    ),
                );
            },
        };
        let b3 = match find_bip3(bip_received_phase3, i as u8) {
            Some(m) => m,
            None => {
                proof {
                    assert(spec_find_bip3(bip_received_phase3@, i as u8) is None);
                    assert(!spec_dkg4_accepts(
                        *session,
                        *poly_point,
                        proofs_commitments@,
                        zero_received_phase2@,
                        zero_received_phase3@,
                        mul_kept@,
                        mul_received@,
                        bip_received_phase2@,
                        bip_received_phase3@,
                    ));
                }
                return Err(
                    Abort::new(
                        session.party_index,
                        AbortReason::MissingMessageFromParty { party: i as u8 },
                    ),
                );
            },
        };
        let aux_vec = array32_to_vec(&b3.aux_chain_code);
        if !verify_commitment(&aux_vec, &b2.cc_commitment, &b3.cc_salt) {
            proof {
                let g2 = spec_find_bip2(bip_received_phase2@, i as u8)->0;
                let g3 = spec_find_bip3(bip_received_phase3@, i as u8)->0;
                assert(b3.aux_chain_code@ =~= g3.aux_chain_code@ && b3.cc_salt@ =~= g3.cc_salt@);
                assert(b2.cc_commitment@ =~= g2.cc_commitment@);
                assert(!(g2.cc_commitment@ =~= spec_commitment(g3.cc_salt@, g3.aux_chain_code@)));
                assert(!spec_dkg4_accepts(
                        *session,
                        *poly_point,
                        proofs_commitments@,
                        zero_received_phase2@,
                        zero_received_phase3@,
                        mul_kept@,
                        mul_received@,
                        bip_received_phase2@,
                        bip_received_phase3@,
                    ));
            }
            return Err(
                Abort::new(
                    session.party_index,
                    AbortReason::ChainCodeCommitmentFailed { party: i as u8 },
                ),
            );
        }
        let next = crate::zero_shares::xor32(&chain_code, &b3.aux_chain_code);
        chain_code = next;
        i += 1;
    }

    // Key generation is complete.
    let derivation_data = DerivData {
        depth: 0,
        child_number: 0,
        parent_fingerprint: [0; 4],
        poly_point: *poly_point,
        pk,
        chain_code,
    };
    let party = Party {
        parameters: session.parameters,
        party_index: me,
        session_id: session.session_id.clone(),
        poly_point: *poly_point,
        pk,
        zero_share,
        mul_senders,
        mul_receivers,
        derivation_data,
    };
    proof {
        assert(party.derivation_data.parent_fingerprint@ =~= Seq::new(4, |k: int| 0u8));
        assert forall|wv: nat|
            1 <= wv && wv + t <= n + 1 implies #[trigger] spec_window_ok(
            gpoints,
            t as nat,
            wv,
        ) by {
            assert(wv < w as nat);
        }
        assert(spec_dkg4_accepts(
                        *session,
                        *poly_point,
                        proofs_commitments@,
                        zero_received_phase2@,
                        zero_received_phase3@,
                        mul_kept@,
                        mul_received@,
                        bip_received_phase2@,
                        bip_received_phase3@,
                    ));
    }
    Ok(party)
}

/// Sums the received fragments into this party's secret share.
pub fn sum_fragments(frags: &Vec<CScalar>) -> (r: CScalar)
    requires
        forall|i: int| 0 <= i < frags@.len() ==> (#[trigger] frags@[i]).reduced(),
    ensures
        r.reduced(),
        r.val() == spec_sum_frags(frags@),
{
    let mut acc = CScalar::default();
    let mut i: usize = 0;
    proof {
        assert(frags@.take(0) =~= Seq::<CScalar>::empty());
    }
    while i < frags.len()
        invariant
            i <= frags@.len(),
            acc.reduced(),
            forall|k: int| 0 <= k < frags@.len() ==> (#[trigger] frags@[k]).reduced(),
            acc.val() == spec_sum_frags(frags@.take(i as int)),
        decreases frags@.len() - i,
    {
        let next = scalar_add(&acc, &frags[i]);
        proof {
            assert(frags@.take(i as int + 1).drop_last() =~= frags@.take(i as int));
            assert(frags@.take(i as int + 1).last() == frags@[i as int]);
        }
        acc = next;
        i += 1;
    }
    proof {
        assert(frags@.take(frags@.len() as int) =~= frags@);
    }
    acc
}

} // verus!
