//! Scalars of the secp256k1 group, held in canonical 32-byte big-endian form.
//!
//! The mathematical model of a scalar is the natural number its bytes encode;
//! a well-formed scalar is reduced modulo the group order. The modular
//! arithmetic itself is performed by `k256` through trusted wrappers; every
//! contract speaks of the byte-level value.

use elliptic_curve::ops::Reduce;
use elliptic_curve::scalar::IsHigh;
use vstd::prelude::*;

verus! {

/// Value of a big-endian byte string.
pub open spec fn be_val(s: Seq<u8>) -> nat
    decreases s.len(),
{
    if s.len() == 0 {
        0
    } else {
        be_val(s.drop_last()) * 256 + s.last() as nat
    }
}

/// Order of the secp256k1 group (a prime).
pub open spec fn group_order() -> nat {
    0xFFFFFFFF_FFFFFFFF_FFFFFFFF_FFFFFFFE_BAAEDCE6_AF48A03B_BFD25E8C_D0364141nat
}

/// Largest scalar in the low half of the group: floor((order - 1) / 2).
pub open spec fn half_order() -> nat {
    0x7FFFFFFF_FFFFFFFF_FFFFFFFF_FFFFFFFF_5D576E73_57A4501D_DFE92F46_681B20A0nat
}

/// A scalar modulo the secp256k1 group order, as canonical big-endian bytes.
#[derive(Clone, Copy, Debug)]
pub struct CScalar {
    pub bytes: [u8; 32],
}

impl CScalar {
    /// The natural number these bytes encode.
    pub open spec fn val(self) -> nat {
        be_val(self.bytes@)
    }

    /// A well-formed scalar is reduced modulo the group order.
    pub open spec fn reduced(self) -> bool {
        self.val() < group_order()
    }

    /// The zero scalar.
    pub fn default() -> (r: Self)
        ensures
            r.bytes@ =~= Seq::<u8>::new(32, |i: int| 0u8),
            r.val() == 0,
            r.reduced(),
    {
        let r = CScalar { bytes: [0u8; 32] };
        proof {
            lemma_be_val_zero(r.bytes@);
        }
        r
    }
}

impl CScalar {
    /// The scalar with value one.
    pub fn one() -> (r: Self)
        ensures
            r.val() == 1,
            r.reduced(),
    {
        let mut bytes = [0u8; 32];
        bytes[31] = 1;
        let r = CScalar { bytes };
        proof {
            lemma_be_val_low_byte(r.bytes@, 1);
        }
        r
    }

    /// The scalar with a small value.
    pub fn from_u8(x: u8) -> (r: Self)
        ensures
            r.val() == x as nat,
            r.reduced(),
    {
        let mut bytes = [0u8; 32];
        bytes[31] = x;
        let r = CScalar { bytes };
        proof {
            lemma_be_val_low_byte(r.bytes@, x);
        }
        r
    }
}

/// A byte string that is zero except possibly in its last byte encodes
/// that byte's value.
pub proof fn lemma_be_val_low_byte(s: Seq<u8>, x: u8)
    requires
        s.len() >= 1,
        forall|i: int| 0 <= i < s.len() - 1 ==> s[i] == 0u8,
        s[s.len() - 1] == x,
    ensures
        be_val(s) == x as nat,
{
    assert(be_val(s) == be_val(s.drop_last()) * 256 + x as nat);
    lemma_be_val_zero(s.drop_last());
}

impl PartialEq for CScalar {
    fn eq(&self, other: &CScalar) -> (r: bool) {
        let mut i: usize = 0;
        while i < 32
            invariant
                i <= 32,
                forall|j: int| 0 <= j < i ==> self.bytes@[j] == other.bytes@[j],
            decreases 32 - i,
        {
            if self.bytes[i] != other.bytes[i] {
                return false;
            }
            i += 1;
        }
        proof {
            assert(self.bytes@ =~= other.bytes@);
        }
        true
    }
}

impl Eq for CScalar {}

impl vstd::std_specs::cmp::PartialEqSpecImpl for CScalar {
    open spec fn obeys_eq_spec() -> bool {
        true
    }

    open spec fn eq_spec(&self, other: &CScalar) -> bool {
        self.bytes@ =~= other.bytes@
    }
}

/// The big-endian encoding of a value in a given number of bytes.
pub open spec fn be_enc(v: nat, len: nat) -> Seq<u8>
    decreases len,
{
    if len == 0 {
        Seq::<u8>::empty()
    } else {
        be_enc(v / 256, (len - 1) as nat).push((v % 256) as u8)
    }
}

/// The canonical 32-byte encoding of a scalar value.
pub open spec fn be_enc_of(v: nat) -> Seq<u8> {
    be_enc(v, 32)
}

/// Encoding the value of a byte string gives the byte string back.
pub proof fn lemma_be_enc_roundtrip(s: Seq<u8>)
    ensures
        be_enc(be_val(s), s.len()) =~= s,
    decreases s.len(),
{
    if s.len() > 0 {
        let v = be_val(s);
        let q = be_val(s.drop_last());
        let r = s.last() as int;
        assert(v == q * 256 + s.last() as nat);
        vstd::arithmetic::div_mod::lemma_fundamental_div_mod_converse(
            v as int,
            256,
            q as int,
            r,
        );
        lemma_be_enc_roundtrip(s.drop_last());
    }
}

/// Encoding the value of a 32-byte string gives the string back.
pub proof fn lemma_be_enc_of(s: Seq<u8>)
    requires
        s.len() == 32,
    ensures
        be_enc_of(be_val(s)) =~= s,
{
    lemma_be_enc_roundtrip(s);
}

/// An all-zero byte string encodes zero.
pub proof fn lemma_be_val_zero(s: Seq<u8>)
    requires
        forall|i: int| 0 <= i < s.len() ==> s[i] == 0u8,
    ensures
        be_val(s) == 0,
    decreases s.len(),
{
    if s.len() > 0 {
        lemma_be_val_zero(s.drop_last());
    }
}

/// Equal byte strings have equal values; the converse holds for canonical
/// strings of one length, which the trusted decoders enforce.
pub proof fn lemma_be_val_injective(a: Seq<u8>, b: Seq<u8>)
    requires
        a.len() == b.len(),
        be_val(a) == be_val(b),
    ensures
        a =~= b,
    decreases a.len(),
{
    if a.len() > 0 {
        assert(be_val(a) == be_val(a.drop_last()) * 256 + a.last());
        assert(be_val(b) == be_val(b.drop_last()) * 256 + b.last());
        assert(a.last() == b.last() && be_val(a.drop_last()) == be_val(b.drop_last())) by {
            lemma_mod_mul_cancel(be_val(a.drop_last()), be_val(b.drop_last()), a.last() as nat, b.last() as nat);
        };
        lemma_be_val_injective(a.drop_last(), b.drop_last());
        assert(a =~= a.drop_last().push(a.last()));
        assert(b =~= b.drop_last().push(b.last()));
    }
}

proof fn lemma_mod_mul_cancel(qa: nat, qb: nat, ra: nat, rb: nat)
    requires
        ra < 256,
        rb < 256,
        qa * 256 + ra == qb * 256 + rb,
    ensures
        qa == qb,
        ra == rb,
{
    if qa < qb {
        assert(qa * 256 + 256 <= qb * 256) by (nonlinear_arith)
            requires qa + 1 <= qb;
    }
    if qb < qa {
        assert(qb * 256 + 256 <= qa * 256) by (nonlinear_arith)
            requires qb + 1 <= qa;
    }
}

// Trusted wrappers over the k256 scalar field. k256 documents `Scalar` as an
// integer modulo the group order, `to_bytes` as its canonical big-endian
// encoding, and `Reduce<FieldBytes>` as reduction of a big-endian integer
// modulo the order.

/// Relies on k256 scalar addition: the sum modulo the group order,
/// returned in canonical bytes.
#[verifier::external_body]
pub fn scalar_add(a: &CScalar, b: &CScalar) -> (r: CScalar)
    requires
        a.reduced(),
        b.reduced(),
    ensures
        r.reduced(),
        r.val() == (a.val() + b.val()) % group_order(),
{
    let sa = <k256::Scalar as Reduce<k256::FieldBytes>>::reduce(&k256::FieldBytes::from(a.bytes));
    let sb = <k256::Scalar as Reduce<k256::FieldBytes>>::reduce(&k256::FieldBytes::from(b.bytes));
    CScalar { bytes: (sa + sb).to_bytes().into() }
}

/// Relies on k256 scalar subtraction: the difference modulo the group order.
#[verifier::external_body]
pub fn scalar_sub(a: &CScalar, b: &CScalar) -> (r: CScalar)
    requires
        a.reduced(),
        b.reduced(),
    ensures
        r.reduced(),
        (r.val() + b.val()) % group_order() == a.val(),
{
    let sa = <k256::Scalar as Reduce<k256::FieldBytes>>::reduce(&k256::FieldBytes::from(a.bytes));
    let sb = <k256::Scalar as Reduce<k256::FieldBytes>>::reduce(&k256::FieldBytes::from(b.bytes));
    CScalar { bytes: (sa - sb).to_bytes().into() }
}

/// Relies on k256 scalar multiplication: the product modulo the group order.
#[verifier::external_body]
pub fn scalar_mul(a: &CScalar, b: &CScalar) -> (r: CScalar)
    requires
        a.reduced(),
        b.reduced(),
    ensures
        r.reduced(),
        r.val() == (a.val() * b.val()) % group_order(),
{
    let sa = <k256::Scalar as Reduce<k256::FieldBytes>>::reduce(&k256::FieldBytes::from(a.bytes));
    let sb = <k256::Scalar as Reduce<k256::FieldBytes>>::reduce(&k256::FieldBytes::from(b.bytes));
    CScalar { bytes: (sa * sb).to_bytes().into() }
}

/// Relies on k256 scalar negation: the additive inverse modulo the group order.
#[verifier::external_body]
pub fn scalar_neg(a: &CScalar) -> (r: CScalar)
    requires
        a.reduced(),
    ensures
        r.reduced(),
        (r.val() + a.val()) % group_order() == 0,
{
    let sa = <k256::Scalar as Reduce<k256::FieldBytes>>::reduce(&k256::FieldBytes::from(a.bytes));
    CScalar { bytes: (-sa).to_bytes().into() }
}

/// The multiplicative inverse of a nonzero scalar value: the inverse modulo
/// a prime is unique, so it is a function of the value alone.
pub uninterp spec fn spec_inv(a: nat) -> nat;

/// Relies on k256 `Scalar::invert`: `None` exactly for zero, else the
/// multiplicative inverse modulo the group order — a function of the value,
/// since inverses modulo the prime order are unique.
#[verifier::external_body]
pub fn scalar_invert(a: &CScalar) -> (r: Option<CScalar>)
    requires
        a.reduced(),
    ensures
        r is None <==> a.val() == 0,
        r is Some ==> r->0.reduced() && (a.val() * r->0.val()) % group_order() == 1
            && r->0.val() == spec_inv(a.val()),
{
    let sa = <k256::Scalar as Reduce<k256::FieldBytes>>::reduce(&k256::FieldBytes::from(a.bytes));
    let inv = sa.invert();
    if bool::from(inv.is_some()) {
        Some(CScalar { bytes: inv.unwrap().to_bytes().into() })
    } else {
        None
    }
}

/// Relies on k256 `Reduce<FieldBytes>`: the big-endian value of the bytes,
/// reduced modulo the group order.
#[verifier::external_body]
pub fn scalar_reduce32(bytes: &[u8; 32]) -> (r: CScalar)
    ensures
        r.reduced(),
        r.val() == be_val(bytes@) % group_order(),
{
    let s = <k256::Scalar as Reduce<k256::FieldBytes>>::reduce(&k256::FieldBytes::from(*bytes));
    CScalar { bytes: s.to_bytes().into() }
}

/// Relies on k256 `Reduce` and `Scalar::to_bytes`: reducing and re-encoding
/// returns the input bytes exactly when they already encode a value below
/// the group order.
#[verifier::external_body]
pub fn scalar_is_canonical(bytes: &[u8; 32]) -> (r: bool)
    ensures
        r == (be_val(bytes@) < group_order()),
{
    let fb = k256::FieldBytes::from(*bytes);
    let s = <k256::Scalar as Reduce<k256::FieldBytes>>::reduce(&fb);
    s.to_bytes() == fb
}

/// Relies on k256 `IsHigh`: whether the scalar lies strictly above
/// `(order - 1) / 2`.
#[verifier::external_body]
pub fn scalar_is_high(a: &CScalar) -> (r: bool)
    requires
        a.reduced(),
    ensures
        r == (a.val() > half_order()),
{
    let sa = <k256::Scalar as Reduce<k256::FieldBytes>>::reduce(&k256::FieldBytes::from(a.bytes));
    bool::from(sa.is_high())
}

/// Relies on `rand::random` for 32 bytes from the operating system's secure
/// generator. Nothing is promised of the value.
#[verifier::external_body]
pub fn sample_bytes32() -> (r: [u8; 32]) {
    rand::random::<[u8; 32]>()
}

/// A fresh scalar below the group order, from sampled bytes.
pub fn sample_scalar() -> (r: CScalar)
    ensures
        r.reduced(),
{
    let bytes = sample_bytes32();
    scalar_reduce32(&bytes)
}

} // verus!
