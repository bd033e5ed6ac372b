//! BIP-32 style non-hardened derivation over secret-shared keys.
//!
//! Every shareholder applies the same public tweak to its share, so the
//! reconstructed secret key shifts by that tweak and the public key moves
//! with it; no interaction is needed. The HMAC-based tweak computation is a
//! primitive consumed from `dkls23_core`, a fixed function of the public
//! key, the chain code and the child number, named [`spec_child_tweak`].
//!
//! Derivation is modelled by [`DerivModel`], a record of the mathematical
//! values behind a [`DerivData`]; each executable function's contract says
//! that its result's model is the model-level derivation of its input.

use rustcrypto_group::GroupEncoding;
use vstd::prelude::*;
use vstd::string::StringSliceAdditionalSpecFns;
use crate::bytes::{bytes32_eq, bytes4_eq};
use crate::point::{identity_enc, spec_mul_g, spec_point_add, gen_mul, point_add, CurvePoint};
use crate::scalar::{group_order, scalar_add, CScalar};

verus! {

/// Largest child number: hardened derivation is not offered, since no
/// shareholder holds the whole secret key.
pub const MAX_CHILD_NUMBER: u32 = 0x7FFF_FFFF;

/// Largest depth of the derivation tree.
pub const MAX_DEPTH: u8 = 255;

/// Why a derivation was rejected.
#[derive(Clone, Copy, Debug, PartialEq, Eq, Structural)]
pub enum DerivError {
    /// The path string is not `m` followed by `/<number>` groups, or is
    /// too long.
    InvalidPath,
    /// The key is already at maximum depth.
    MaxDepth,
    /// The child number is in the hardened range.
    ChildNumberTooLarge,
    /// The HMAC left half fell outside the scalar field (astronomically
    /// rare; BIP-32 declares such a child number invalid).
    TweakOutOfRange,
    /// The derived public key degenerated to the identity (equally rare).
    InvalidChildKey,
}

/// Everything a shareholder needs to derive child key shares.
#[derive(Clone, Copy, Debug)]
pub struct DerivData {
    /// How many derivations separate this key from the master node.
    pub depth: u8,
    /// Index used to obtain this key from its parent.
    pub child_number: u32,
    /// Identifier of the parent key.
    pub parent_fingerprint: [u8; 4],
    /// This shareholder's secret share of the key.
    pub poly_point: CScalar,
    /// The shared public key.
    pub pk: CurvePoint,
    /// Extra entropy, common to all shareholders.
    pub chain_code: [u8; 32],
}

/// The mathematical content of a [`DerivData`].
#[verifier::ext_equal]
pub struct DerivModel {
    pub depth: nat,
    pub child_number: u32,
    pub parent_fingerprint: Seq<u8>,
    pub poly_val: nat,
    pub pk_enc: Seq<u8>,
    pub chain_code: Seq<u8>,
}

/// What the BIP-32 tweak computation returns for a public key, chain code
/// and child number: `None` when the HMAC left half is not below the group
/// order, else the tweak scalar, the child chain code (32 bytes) and the
/// parent fingerprint (4 bytes).
pub uninterp spec fn spec_child_tweak(pk: Seq<u8>, chain_code: Seq<u8>, child: u32) -> Option<
    (nat, Seq<u8>, Seq<u8>),
>;

/// Relies on `dkls23_core::protocols::derivation::DerivData::child_tweak`:
/// HMAC-SHA512 of the compressed public key and the child number under the
/// chain code, split into a tweak scalar and a child chain code, plus the
/// HASH160 fingerprint of the public key — a fixed function of the three
/// arguments, failing exactly when the HMAC left half is not below the
/// group order.
#[verifier::external_body]
pub fn child_tweak(pk: &CurvePoint, chain_code: &[u8; 32], child: u32) -> (r: Option<
    (CScalar, [u8; 32], [u8; 4]),
>)
    requires
        pk.valid(),
    ensures
        r is Some <==> spec_child_tweak(pk.bytes@, chain_code@, child) is Some,
        r is Some ==> {
            let m = spec_child_tweak(pk.bytes@, chain_code@, child)->0;
            &&& (r->0).0.reduced()
            &&& (r->0).0.val() == m.0
            &&& (r->0).1@ =~= m.1
            &&& (r->0).2@ =~= m.2
        },
{
    let point = k256::AffinePoint::from_bytes(&pk.bytes.into()).unwrap();
    let data = dkls23_core::protocols::derivation::DerivData::<k256::Secp256k1> {
        depth: 0, child_number: 0, parent_fingerprint: [0; 4],
        poly_point: k256::Scalar::ONE, pk: point, chain_code: *chain_code,
    };
    match data.child_tweak(child) {
        Ok((tweak, cc, fp)) => Some((CScalar { bytes: tweak.to_bytes().into() }, cc, fp)),
        Err(_) => None,
    }
}

/// One child derivation, at the level of models.
pub open spec fn spec_derive_child(m: DerivModel, child: u32) -> Result<DerivModel, DerivError> {
    if m.depth >= MAX_DEPTH {
        Err(DerivError::MaxDepth)
    } else if child > MAX_CHILD_NUMBER {
        Err(DerivError::ChildNumberTooLarge)
    } else {
        match spec_child_tweak(m.pk_enc, m.chain_code, child) {
            None => Err(DerivError::TweakOutOfRange),
            Some(t) => {
                if spec_point_add(spec_mul_g(t.0), m.pk_enc) =~= identity_enc() {
                    Err(DerivError::InvalidChildKey)
                } else {
                    Ok(
                        DerivModel {
                            depth: m.depth + 1,
                            child_number: child,
                            parent_fingerprint: t.2,
                            poly_val: (m.poly_val + t.0) % group_order(),
                            pk_enc: spec_point_add(spec_mul_g(t.0), m.pk_enc),
                            chain_code: t.1,
                        },
                    )
                }
            },
        }
    }
}

/// A whole derivation path, at the level of models.
pub open spec fn spec_derive_path(m: DerivModel, children: Seq<u32>) -> Result<
    DerivModel,
    DerivError,
>
    decreases children.len(),
{
    if children.len() == 0 {
        Ok(m)
    } else {
        match spec_derive_child(m, children.first()) {
            Err(e) => Err(e),
            Ok(next) => spec_derive_path(next, children.drop_first()),
        }
    }
}

impl DerivData {
    /// Well-formed derivation data.
    pub open spec fn wf(self) -> bool {
        &&& self.poly_point.reduced()
        &&& self.pk.valid()
    }

    /// The mathematical content of this value.
    pub open spec fn model(self) -> DerivModel {
        DerivModel {
            depth: self.depth as nat,
            child_number: self.child_number,
            parent_fingerprint: self.parent_fingerprint@,
            poly_val: self.poly_point.val(),
            pk_enc: self.pk.bytes@,
            chain_code: self.chain_code@,
        }
    }

    /// Whether two values hold the same key material.
    pub open spec fn spec_equals(self, other: DerivData) -> bool {
        &&& self.depth == other.depth
        &&& self.child_number == other.child_number
        &&& self.parent_fingerprint@ =~= other.parent_fingerprint@
        &&& self.poly_point.bytes@ =~= other.poly_point.bytes@
        &&& self.pk.bytes@ =~= other.pk.bytes@
        &&& self.chain_code@ =~= other.chain_code@
    }

    /// Field-by-field comparison.
    pub fn equals(&self, other: &DerivData) -> (r: bool)
        ensures
            r == self.spec_equals(*other),
    {
        self.depth == other.depth && self.child_number == other.child_number && bytes4_eq(
            &self.parent_fingerprint,
            &other.parent_fingerprint,
        ) && bytes32_eq(&self.poly_point.bytes, &other.poly_point.bytes) && self.pk.same_as(
            &other.pk,
        ) && bytes32_eq(&self.chain_code, &other.chain_code)
    }

    /// Derives along a whole path such as `m/0/1`: each shareholder can do
    /// this independently and all reach consistent child shares.
    pub fn derive_from_path(&self, path: &str) -> (r: Result<DerivData, DerivError>)
        requires
            self.wf(),
        ensures
            match r {
                Ok(d) => {
                    &&& spec_parse_path(path.spec_bytes()) is Some
                    &&& spec_derive_path(self.model(), spec_parse_path(path.spec_bytes())->0)
                        == Ok::<DerivModel, DerivError>(d.model())
                    &&& d.wf()
                },
                Err(e) => if e == DerivError::InvalidPath {
                    spec_parse_path(path.spec_bytes()) is None
                } else {
                    spec_parse_path(path.spec_bytes()) is Some && spec_derive_path(
                        self.model(),
                        spec_parse_path(path.spec_bytes())->0,
                    ) == Err::<DerivModel, DerivError>(e)
                },
            },
    {
        let children = match parse_path(path) {
            Ok(c) => c,
            Err(e) => {
                return Err(e);
            },
        };
        let ghost all = children@;
        let mut current = *self;
        let mut i: usize = 0;
        proof {
            assert(all.skip(0) =~= all);
        }
        while i < children.len()
            invariant
                i <= all.len(),
                children@ =~= all,
                spec_parse_path(path.spec_bytes()) == Some(all),
                current.wf(),
                spec_derive_path(self.model(), all) == spec_derive_path(
                    current.model(),
                    all.skip(i as int),
                ),
            decreases all.len() - i,
        {
            let ghost before = current.model();
            let next = match current.derive_child(children[i]) {
                Ok(d) => d,
                Err(e) => {
                    proof {
                        assert(all.skip(i as int).first() == all[i as int]);
                        assert(spec_derive_path(before, all.skip(i as int)) == Err::<
                            DerivModel,
                            DerivError,
                        >(e));
                    }
                    return Err(e);
                },
            };
            proof {
                assert(all.skip(i as int).first() == all[i as int]);
                assert(all.skip(i as int).drop_first() =~= all.skip(i as int + 1));
            }
            current = next;
            i += 1;
        }
        proof {
            assert(i as int == all.len());
            assert(all.skip(all.len() as int) =~= Seq::<u32>::empty());
            assert(spec_derive_path(current.model(), Seq::<u32>::empty()) == Ok::<
                DerivModel,
                DerivError,
            >(current.model()));
            assert(spec_derive_path(self.model(), all) == Ok::<DerivModel, DerivError>(
                current.model(),
            ));
            assert(spec_parse_path(path.spec_bytes())->0 == all);
        }
        Ok(current)
    }

    /// Derives the data for one child: the share and public key shift by
    /// the same public tweak.
    pub fn derive_child(&self, child_number: u32) -> (r: Result<DerivData, DerivError>)
        requires
            self.wf(),
        ensures
            match r {
                Ok(d) => {
                    &&& spec_derive_child(self.model(), child_number) == Ok::<
                        DerivModel,
                        DerivError,
                    >(d.model())
                    &&& d.wf()
                },
                Err(e) => spec_derive_child(self.model(), child_number) == Err::<
                    DerivModel,
                    DerivError,
                >(e),
            },
    {
        if self.depth == MAX_DEPTH {
            return Err(DerivError::MaxDepth);
        }
        if child_number > MAX_CHILD_NUMBER {
            return Err(DerivError::ChildNumberTooLarge);
        }
        let (tweak, new_chain_code, parent_fingerprint) =
            match child_tweak(&self.pk, &self.chain_code, child_number) {
            Some(t) => t,
            None => {
                return Err(DerivError::TweakOutOfRange);
            },
        };
        let tweak_point = gen_mul(&tweak);
        let new_pk = point_add(&tweak_point, &self.pk);
        if new_pk.is_identity() {
            return Err(DerivError::InvalidChildKey);
        }
        let new_poly_point = scalar_add(&self.poly_point, &tweak);
        let d = DerivData {
            depth: self.depth + 1,
            child_number,
            parent_fingerprint,
            poly_point: new_poly_point,
            pk: new_pk,
            chain_code: new_chain_code,
        };
        proof {
            let m = spec_child_tweak(self.pk.bytes@, self.chain_code@, child_number)->0;
            assert(d.model() =~= spec_derive_child(self.model(), child_number)->Ok_0);
        }
        Ok(d)
    }
}

// Path parsing.

/// The byte value of `/`.
pub const SLASH: u8 = 47;

/// The byte value of `m`.
pub const LETTER_M: u8 = 109;

/// The segments of a byte string, split at every `/`.
pub open spec fn spec_split_slash(b: Seq<u8>) -> Seq<Seq<u8>>
    decreases b.len(),
{
    if b.len() == 0 {
        seq![Seq::<u8>::empty()]
    } else if b.last() == SLASH {
        spec_split_slash(b.drop_last()).push(Seq::<u8>::empty())
    } else {
        let rest = spec_split_slash(b.drop_last());
        rest.update(rest.len() - 1, rest.last().push(b.last()))
    }
}

/// Whether a byte is a decimal digit.
pub open spec fn spec_is_digit(b: u8) -> bool {
    48 <= b <= 57
}

/// The decimal value of a digit string.
pub open spec fn spec_digits_val(s: Seq<u8>) -> int
    decreases s.len(),
{
    if s.len() == 0 {
        0
    } else {
        spec_digits_val(s.drop_last()) * 10 + (s.last() as int - 48)
    }
}

/// A path segment after the first: one or more digits, value in the
/// non-hardened range.
pub open spec fn spec_valid_segment(s: Seq<u8>) -> bool {
    &&& s.len() > 0
    &&& forall|i: int| 0 <= i < s.len() ==> spec_is_digit(#[trigger] s[i])
    &&& spec_digits_val(s) <= MAX_CHILD_NUMBER
}

/// The child numbers a path denotes: `None` unless the path is `m`
/// followed by at most 255 `/<number>` groups.
pub open spec fn spec_parse_path(b: Seq<u8>) -> Option<Seq<u32>> {
    let segs = spec_split_slash(b);
    if segs[0] == seq![LETTER_M] && (forall|i: int|
        1 <= i < segs.len() ==> spec_valid_segment(#[trigger] segs[i])) && segs.len() - 1 <= 255 {
        Some(Seq::new((segs.len() - 1) as nat, |i: int| spec_digits_val(segs[i + 1]) as u32))
    } else {
        None
    }
}

/// Splits a path into its `/`-separated segments.
fn split_slash(bytes: &[u8]) -> (r: Vec<Vec<u8>>)
    ensures
        r.deep_view() == spec_split_slash(bytes@),
        r@.len() >= 1,
{
    let mut segs: Vec<Vec<u8>> = Vec::new();
    segs.push(Vec::new());
    proof {
        assert(segs.deep_view() =~~= spec_split_slash(bytes@.take(0)));
    }
    let mut i: usize = 0;
    while i < bytes.len()
        invariant
            i <= bytes@.len(),
            segs.deep_view() == spec_split_slash(bytes@.take(i as int)),
            segs@.len() >= 1,
        decreases bytes@.len() - i,
    {
        let ghost prefix = bytes@.take(i as int);
        let b = bytes[i];
        if b == SLASH {
            segs.push(Vec::new());
        } else {
            let mut last = segs.pop().unwrap();
            last.push(b);
            segs.push(last);
        }
        i += 1;
        proof {
            assert(bytes@.take(i as int).drop_last() =~= prefix);
            assert(bytes@.take(i as int).last() == b);
            if b == SLASH {
                assert(segs.deep_view() =~~= spec_split_slash(bytes@.take(i as int)));
            } else {
                assert(segs.deep_view() =~~= spec_split_slash(bytes@.take(i as int)));
            }
        }
    }
    proof {
        assert(bytes@.take(bytes@.len() as int) =~= bytes@);
    }
    segs
}

/// Parses the decimal value of one segment; `None` where a byte is not a
/// digit or the value leaves the non-hardened range.
fn parse_segment(seg: &Vec<u8>) -> (r: Option<u32>)
    ensures
        r is Some <==> seg@.len() > 0 && spec_valid_segment(seg@),
        r is Some ==> r->0 as int == spec_digits_val(seg@),
{
    if seg.len() == 0 {
        return None;
    }
    let mut acc: u64 = 0;
    let mut i: usize = 0;
    proof {
        assert(seg@.take(0) =~= Seq::<u8>::empty());
    }
    while i < seg.len()
        invariant
            i <= seg@.len(),
            acc <= MAX_CHILD_NUMBER as u64,
            acc as int == spec_digits_val(seg@.take(i as int)),
            forall|j: int| 0 <= j < i ==> spec_is_digit(#[trigger] seg@[j]),
        decreases seg@.len() - i,
    {
        let ghost prefix = seg@.take(i as int);
        let b = seg[i];
        if b < 48 || b > 57 {
            assert(!spec_is_digit(seg@[i as int]));
            return None;
        }
        acc = acc * 10 + (b - 48) as u64;
        i += 1;
        proof {
            assert(seg@.take(i as int).drop_last() =~= prefix);
            assert(seg@.take(i as int).last() == b);
        }
        if acc > MAX_CHILD_NUMBER as u64 {
            proof {
                if forall|j: int| 0 <= j < seg@.len() ==> spec_is_digit(#[trigger] seg@[j]) {
                    lemma_digits_monotonic(seg@, i as int);
                }
            }
            return None;
        }
    }
    proof {
        assert(seg@.take(seg@.len() as int) =~= seg@);
    }
    Some(acc as u32)
}

/// A string of digits has a non-negative value.
proof fn lemma_digits_nonneg(s: Seq<u8>)
    requires
        forall|i: int| 0 <= i < s.len() ==> spec_is_digit(#[trigger] s[i]),
    ensures
        spec_digits_val(s) >= 0,
    decreases s.len(),
{
    if s.len() > 0 {
        lemma_digits_nonneg(s.drop_last());
        assert(spec_digits_val(s.drop_last()) * 10 >= 0) by (nonlinear_arith)
            requires
                spec_digits_val(s.drop_last()) >= 0,
        ;
    }
}

/// A digit string's value never shrinks as digits are appended, so a
/// prefix that already exceeds the bound condemns the whole segment.
proof fn lemma_digits_monotonic(s: Seq<u8>, i: int)
    requires
        0 < i <= s.len(),
        forall|j: int| i <= j < s.len() ==> spec_is_digit(#[trigger] s[j]),
        spec_digits_val(s.take(i)) > MAX_CHILD_NUMBER,
    ensures
        spec_digits_val(s) > MAX_CHILD_NUMBER,
    decreases s.len() - i,
{
    if i == s.len() {
        assert(s.take(i) =~= s);
    } else {
        let t = s.take(i + 1);
        assert(t.drop_last() =~= s.take(i));
        assert(spec_digits_val(t) == spec_digits_val(s.take(i)) * 10 + (t.last() as int - 48));
        assert(spec_digits_val(s.take(i)) * 10 >= spec_digits_val(s.take(i))) by (nonlinear_arith)
            requires
                spec_digits_val(s.take(i)) > 0,
        ;
        lemma_digits_monotonic(s, i + 1);
    }
}

/// Takes a BIP-32 style path for normal derivation, such as `m/1/4/8`, and
/// turns it into the child numbers it denotes.
pub fn parse_path(path: &str) -> (r: Result<Vec<u32>, DerivError>)
    ensures
        match r {
            Ok(v) => spec_parse_path(path.spec_bytes()) == Some(v@),
            Err(e) => e == DerivError::InvalidPath && spec_parse_path(path.spec_bytes()) is None,
        },
{
    let bytes = path.as_bytes();
    let segs = split_slash(bytes);
    let ghost gsegs = spec_split_slash(path.spec_bytes());
    proof {
        assert(segs.deep_view().len() == segs@.len());
        assert(forall|i: int|
            0 <= i < segs@.len() ==> #[trigger] segs.deep_view()[i] =~= segs@[i]@);
    }
    if segs[0].len() != 1 || segs[0][0] != LETTER_M {
        proof {
            assert(gsegs[0] =~= segs@[0]@);
            assert(gsegs[0] != seq![LETTER_M]);
        }
        return Err(DerivError::InvalidPath);
    }
    proof {
        assert(segs@[0]@ =~= seq![LETTER_M]);
        assert(gsegs[0] =~= segs@[0]@);
    }
    if segs.len() - 1 > 255 {
        proof {
            assert(spec_parse_path(path.spec_bytes()) is None);
        }
        return Err(DerivError::InvalidPath);
    }
    let mut children: Vec<u32> = Vec::new();
    let mut k: usize = 1;
    while k < segs.len()
        invariant
            1 <= k <= segs@.len(),
            gsegs == spec_split_slash(path.spec_bytes()),
            segs.deep_view() == gsegs,
            gsegs[0] == seq![LETTER_M],
            gsegs.len() - 1 <= 255,
            children@.len() == k - 1,
            forall|i: int| 1 <= i < k ==> spec_valid_segment(#[trigger] gsegs[i]),
            forall|i: int|
                0 <= i < k - 1 ==> #[trigger] children@[i] as int == spec_digits_val(gsegs[i + 1]),
        decreases segs@.len() - k,
    {
        proof {
            assert(gsegs[k as int] =~= segs@[k as int]@);
        }
        match parse_segment(&segs[k]) {
            Some(n) => {
                children.push(n);
            },
            None => {
                proof {
                    assert(!spec_valid_segment(segs@[k as int]@));
                    assert(gsegs[k as int] == segs@[k as int]@);
                    assert(!spec_valid_segment(gsegs[k as int]));
                    assert(1 <= (k as int) && (k as int) < gsegs.len());
                    assert(!spec_valid_segment(spec_split_slash(path.spec_bytes())[k as int]));
                    assert(spec_parse_path(path.spec_bytes()) is None);
                }
                return Err(DerivError::InvalidPath);
            },
        }
        k += 1;
    }
    proof {
        let expected = Seq::new(
            (gsegs.len() - 1) as nat,
            |i: int| spec_digits_val(gsegs[i + 1]) as u32,
        );
        assert forall|i: int| 0 <= i < expected.len() implies children@[i] == expected[i] by {
            lemma_digits_nonneg(gsegs[i + 1]);
        }
        assert(children@ =~= expected);
    }
    Ok(children)
}

/// Derivation consistency: deriving along two single-step paths, one after
/// the other, reaches the same key material as deriving the two child
/// numbers directly, whenever either route succeeds.
pub proof fn lemma_path_matches_children(m: DerivModel, a: u32, b: u32)
    ensures
        spec_derive_path(m, seq![a, b]) == (match spec_derive_child(m, a) {
            Ok(first) => spec_derive_child(first, b),
            Err(e) => Err(e),
        }),
        spec_derive_path(m, seq![a]) == (match spec_derive_child(m, a) {
            Ok(first) => Ok::<DerivModel, DerivError>(first),
            Err(e) => Err(e),
        }),
{
    let two = seq![a, b];
    assert(two.first() == a);
    assert(two.drop_first() =~= seq![b]);
    let one = seq![a];
    assert(one.first() == a);
    assert(one.drop_first() =~= Seq::<u32>::empty());
    assert(seq![b].first() == b);
    assert(seq![b].drop_first() =~= Seq::<u32>::empty());
    match spec_derive_child(m, a) {
        Err(e) => {
            assert(spec_derive_path(m, two) == Err::<DerivModel, DerivError>(e));
            assert(spec_derive_path(m, one) == Err::<DerivModel, DerivError>(e));
        },
        Ok(first) => {
            assert(spec_derive_path(m, two) == spec_derive_path(first, seq![b]));
            assert(spec_derive_path(m, one) == spec_derive_path(
                first,
                Seq::<u32>::empty(),
            ));
            assert(spec_derive_path(first, Seq::<u32>::empty()) == Ok::<
                DerivModel,
                DerivError,
            >(first));
            match spec_derive_child(first, b) {
                Err(e2) => {
                    assert(spec_derive_path(first, seq![b]) == Err::<DerivModel, DerivError>(e2));
                },
                Ok(second) => {
                    assert(spec_derive_path(first, seq![b]) == spec_derive_path(
                        second,
                        Seq::<u32>::empty(),
                    ));
                },
            }
        },
    }
}

} // verus!
