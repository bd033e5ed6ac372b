//! Points of the secp256k1 group, held in their canonical 33-byte compressed
//! encoding; the all-zero string encodes the identity.
//!
//! Group arithmetic is performed by `k256` through trusted wrappers. What a
//! group operation returns cannot be stated in a few lines, so each outside
//! operation's result is given a name — [`spec_mul_g`], [`spec_point_add`],
//! [`spec_point_mul`] — and every contract above speaks of those names.

use rustcrypto_group::prime::PrimeCurveAffine;
use rustcrypto_group::Curve;
use rustcrypto_group::GroupEncoding;
use vstd::prelude::*;
use crate::scalar::CScalar;
use crate::scalar::group_order;
use elliptic_curve::ops::Reduce;

verus! {

/// Whether 33 bytes are the canonical encoding of a group element
/// (a compressed on-curve point, or all zeros for the identity), as
/// `k256`'s decoder accepts it.
pub uninterp spec fn spec_is_point(enc: Seq<u8>) -> bool;

/// The encoding of the generator multiplied by a scalar.
pub uninterp spec fn spec_mul_g(k: nat) -> Seq<u8>;

/// The encoding of the sum of two group elements.
pub uninterp spec fn spec_point_add(a: Seq<u8>, b: Seq<u8>) -> Seq<u8>;

/// The encoding of a group element multiplied by a scalar.
pub uninterp spec fn spec_point_mul(k: nat, p: Seq<u8>) -> Seq<u8>;

/// The x-coordinate of a non-identity group element, as 32 bytes.
pub open spec fn spec_x_of(enc: Seq<u8>) -> Seq<u8> {
    enc.subrange(1, 33)
}

/// The identity's canonical encoding: 33 zero bytes.
pub open spec fn identity_enc() -> Seq<u8> {
    Seq::new(33, |i: int| 0u8)
}

/// A secp256k1 group element in canonical compressed encoding.
#[derive(Clone, Copy, Debug)]
pub struct CurvePoint {
    pub bytes: [u8; 33],
}

impl CurvePoint {
    /// A well-formed value holds a canonical encoding.
    pub open spec fn valid(self) -> bool {
        spec_is_point(self.bytes@)
    }

    /// Whether this is the identity (the point at infinity).
    pub open spec fn spec_is_identity(self) -> bool {
        self.bytes@ =~= identity_enc()
    }

    /// Checks for the identity encoding.
    pub fn is_identity(&self) -> (r: bool)
        ensures
            r == self.spec_is_identity(),
    {
        let mut i: usize = 0;
        while i < 33
            invariant
                i <= 33,
                forall|j: int| 0 <= j < i ==> self.bytes@[j] == 0u8,
            decreases 33 - i,
        {
            if self.bytes[i] != 0 {
                assert(self.bytes@[i as int] != identity_enc()[i as int]);
                return false;
            }
            i += 1;
        }
        proof {
            assert(self.bytes@ =~= identity_enc());
        }
        true
    }

    /// The x-coordinate bytes of a non-identity element.
    pub fn x_bytes(&self) -> (r: [u8; 32])
        ensures
            r@ =~= spec_x_of(self.bytes@),
    {
        let mut r = [0u8; 32];
        let mut i: usize = 0;
        while i < 32
            invariant
                i <= 32,
                forall|j: int| 0 <= j < i ==> r@[j] == self.bytes@[j + 1],
            decreases 32 - i,
        {
            r[i] = self.bytes[i + 1];
            i += 1;
        }
        proof {
            assert(r@ =~= spec_x_of(self.bytes@));
        }
        r
    }

    /// Compares two encodings; equal encodings mean equal group elements,
    /// since the encoding is canonical.
    pub fn same_as(&self, other: &CurvePoint) -> (r: bool)
        ensures
            r == (self.bytes@ =~= other.bytes@),
    {
        let mut i: usize = 0;
        while i < 33
            invariant
                i <= 33,
                forall|j: int| 0 <= j < i ==> self.bytes@[j] == other.bytes@[j],
            decreases 33 - i,
        {
            if self.bytes[i] != other.bytes[i] {
                return false;
            }
            i += 1;
        }
        proof {
            assert(self.bytes@ =~= other.bytes@);
        }
        true
    }
}

// Trusted wrappers over the k256 group. k256 documents the compressed SEC1
// encoding as canonical, decoding as accepting exactly canonical encodings
// (with all zeros for the identity), and the group operations as the usual
// elliptic-curve arithmetic, functions of their operands alone.

/// Relies on k256 `AffinePoint::from_bytes`: accepts exactly the canonical
/// encodings of group elements.
#[verifier::external_body]
pub fn point_check(enc: &[u8; 33]) -> (r: bool)
    ensures
        r == spec_is_point(enc@),
{
    let opt = k256::AffinePoint::from_bytes(&(*enc).into());
    bool::from(opt.is_some())
}

/// Relies on k256 generator multiplication (`AffinePoint::GENERATOR * k`)
/// and `to_bytes`: the canonical encoding of `k * G`, a function of `k`.
#[verifier::external_body]
pub fn gen_mul(k: &CScalar) -> (r: CurvePoint)
    requires
        k.reduced(),
    ensures
        r.bytes@ =~= spec_mul_g(k.val()),
        r.valid(),
{
    let s = <k256::Scalar as Reduce<k256::FieldBytes>>::reduce(&k256::FieldBytes::from(k.bytes));
    let p = (k256::AffinePoint::generator() * s).to_affine();
    CurvePoint { bytes: p.to_bytes().into() }
}

/// Relies on k256 group addition: the canonical encoding of `a + b`,
/// a function of the two operands.
#[verifier::external_body]
pub fn point_add(a: &CurvePoint, b: &CurvePoint) -> (r: CurvePoint)
    requires
        a.valid(),
        b.valid(),
    ensures
        r.bytes@ =~= spec_point_add(a.bytes@, b.bytes@),
        r.valid(),
{
    let pa = k256::AffinePoint::from_bytes(&a.bytes.into()).unwrap();
    let pb = k256::AffinePoint::from_bytes(&b.bytes.into()).unwrap();
    let sum = (k256::ProjectivePoint::from(pa) + pb).to_affine();
    CurvePoint { bytes: sum.to_bytes().into() }
}

/// Relies on k256 scalar-point multiplication: the canonical encoding of
/// `k * p`, a function of the operands.
#[verifier::external_body]
pub fn point_mul(k: &CScalar, p: &CurvePoint) -> (r: CurvePoint)
    requires
        k.reduced(),
        p.valid(),
    ensures
        r.bytes@ =~= spec_point_mul(k.val(), p.bytes@),
        r.valid(),
{
    let s = <k256::Scalar as Reduce<k256::FieldBytes>>::reduce(&k256::FieldBytes::from(k.bytes));
    let pp = k256::AffinePoint::from_bytes(&p.bytes.into()).unwrap();
    let prod = (pp * s).to_affine();
    CurvePoint { bytes: prod.to_bytes().into() }
}

} // verus!
