//! The hash oracle and the commit/reveal functionality built on it.
//!
//! One collision- and preimage-resistant primitive is consumed: the
//! length-delimited tagged SHA-256 of `dkls23_core`. Its output on given
//! bytes is a fixed but unstated function, named [`spec_tagged_hash`];
//! everything built on it — commitments, their verification, hashing to a
//! scalar — is verified against that name.

use vstd::prelude::*;
use crate::scalar::{be_val, group_order, scalar_reduce32, CScalar};

verus! {

/// What the tagged hash returns: 32 bytes determined by the tag and the
/// components alone.
pub uninterp spec fn spec_tagged_hash(tag: Seq<u8>, components: Seq<Seq<u8>>) -> Seq<u8>;

/// Relies on `dkls23_core::utilities::hashes::tagged_hash`: a length-delimited
/// SHA-256 over the tag and the components, 32 bytes, a function of its
/// arguments alone.
#[verifier::external_body]
pub fn tagged_hash(tag: &Vec<u8>, components: &Vec<Vec<u8>>) -> (r: [u8; 32])
    ensures
        r@ =~= spec_tagged_hash(tag@, components.deep_view()),
{
    let refs: Vec<&[u8]> = components.iter().map(|c| c.as_slice()).collect();
    dkls23_core::utilities::hashes::tagged_hash(tag.as_slice(), &refs)
}

/// Domain-separation tag of the commitment oracle.
pub const TAG_COMMITMENT: u8 = 1;

/// Domain-separation tag of the zero-share fragment oracle.
pub const TAG_ZERO_SHARE: u8 = 2;

/// Domain-separation tag used when fingerprinting protocol outputs.
pub const TAG_TRANSCRIPT: u8 = 3;

/// The commitment to `msg` under `salt`.
pub open spec fn spec_commitment(salt: Seq<u8>, msg: Seq<u8>) -> Seq<u8> {
    spec_tagged_hash(seq![TAG_COMMITMENT], seq![salt, msg])
}

/// Commits to a message: the commitment is sent first, the message and the
/// salt are revealed later.
pub fn commit_with_salt(msg: &Vec<u8>, salt: &Vec<u8>) -> (r: [u8; 32])
    ensures
        r@ =~= spec_commitment(salt@, msg@),
{
    let tag: Vec<u8> = vec![TAG_COMMITMENT];
    let components: Vec<Vec<u8>> = vec![salt.clone(), msg.clone()];
    let r = tagged_hash(&tag, &components);
    proof {
        assert(tag@ =~= seq![TAG_COMMITMENT]);
        assert(components.deep_view() =~~= seq![salt@, msg@]);
    }
    r
}

/// Verifies a reveal against an earlier commitment: true exactly when the
/// salt and message hash back to it.
pub fn verify_commitment(msg: &Vec<u8>, commitment: &[u8; 32], salt: &Vec<u8>) -> (r: bool)
    ensures
        r == (commitment@ =~= spec_commitment(salt@, msg@)),
{
    let expected = commit_with_salt(msg, salt);
    let mut i: usize = 0;
    while i < 32
        invariant
            i <= 32,
            expected@ =~= spec_commitment(salt@, msg@),
            forall|j: int| 0 <= j < i ==> commitment@[j] == expected@[j],
        decreases 32 - i,
    {
        if commitment[i] != expected[i] {
            return false;
        }
        i += 1;
    }
    proof {
        assert(commitment@ =~= expected@);
    }
    true
}

/// The scalar a tagged hash reduces to.
pub open spec fn spec_hash_to_scalar(tag: Seq<u8>, components: Seq<Seq<u8>>) -> nat {
    be_val(spec_tagged_hash(tag, components)) % group_order()
}

/// Hashes to a scalar: the tagged hash, reduced modulo the group order.
pub fn hash_to_scalar(tag: &Vec<u8>, components: &Vec<Vec<u8>>) -> (r: CScalar)
    ensures
        r.reduced(),
        r.val() == spec_hash_to_scalar(tag@, components.deep_view()),
{
    let h = tagged_hash(tag, components);
    scalar_reduce32(&h)
}

} // verus!
