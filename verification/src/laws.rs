//! Laws of the protocol, stated and proved over the same spec functions
//! that the phase contracts use.

use vstd::prelude::*;
use crate::derivation::{spec_derive_child, spec_derive_path, DerivData, DerivModel};
use crate::dkg::{spec_poly_eval, spec_sum_frags};
use crate::scalar::{group_order, lemma_be_val_injective, CScalar};
use crate::signing::spec_masked_sum;

verus! {

/// Two integers are congruent modulo the group order.
pub open spec fn congruent(a: int, b: int) -> bool {
    a % (group_order() as int) == b % (group_order() as int)
}

proof fn lemma_cong_add(a: int, b: int, c: int, d: int)
    requires
        congruent(a, b),
        congruent(c, d),
    ensures
        congruent(a + c, b + d),
{
    let n = group_order() as int;
    vstd::arithmetic::div_mod::lemma_add_mod_noop(a, c, n);
    vstd::arithmetic::div_mod::lemma_add_mod_noop(b, d, n);
}

proof fn lemma_cong_sub(a: int, b: int, c: int, d: int)
    requires
        congruent(a, b),
        congruent(c, d),
    ensures
        congruent(a - c, b - d),
{
    let n = group_order() as int;
    vstd::arithmetic::div_mod::lemma_sub_mod_noop(a, c, n);
    vstd::arithmetic::div_mod::lemma_sub_mod_noop(b, d, n);
}

proof fn lemma_cong_of_mod(a: int)
    ensures
        congruent(a % (group_order() as int), a),
{
    vstd::arithmetic::div_mod::lemma_mod_twice(a, group_order() as int);
}

/// Key reconstruction for a two-of-two sharing: the two parties' secret
/// shares, combined with the Lagrange coefficients `2` and `-1` of the
/// executing set `{1, 2}`, are congruent to the sum of the two secret
/// polynomials' constant terms — one logical private key that no single
/// share reveals.
pub proof fn lemma_two_party_key_reconstruction(
    pa: Seq<CScalar>,
    pb: Seq<CScalar>,
    f1: Seq<CScalar>,
    f2: Seq<CScalar>,
    s1: nat,
    s2: nat,
)
    requires
        pa.len() == 2,
        pb.len() == 2,
        forall|i: int| 0 <= i < 2 ==> (#[trigger] pa[i]).reduced(),
        forall|i: int| 0 <= i < 2 ==> (#[trigger] pb[i]).reduced(),
        f1.len() == 2,
        f2.len() == 2,
        forall|i: int| 0 <= i < 2 ==> (#[trigger] f1[i]).reduced(),
        forall|i: int| 0 <= i < 2 ==> (#[trigger] f2[i]).reduced(),
        f1[0].val() == spec_poly_eval(pa, 1),
        f1[1].val() == spec_poly_eval(pb, 1),
        f2[0].val() == spec_poly_eval(pa, 2),
        f2[1].val() == spec_poly_eval(pb, 2),
        s1 == spec_sum_frags(f1),
        s2 == spec_sum_frags(f2),
    ensures
        congruent(2 * (s1 as int) - (s2 as int), (pa[0].val() + pb[0].val()) as int),
{
    let n = group_order() as int;
    let a0 = pa[0].val() as int;
    let a1 = pa[1].val() as int;
    let b0 = pb[0].val() as int;
    let b1 = pb[1].val() as int;

    // Evaluations of each degree-one polynomial at 1 and 2.
    assert(pa.drop_first() =~= seq![pa[1]]);
    assert(pb.drop_first() =~= seq![pb[1]]);
    assert(seq![pa[1]].drop_first() =~= Seq::<CScalar>::empty());
    assert(seq![pb[1]].drop_first() =~= Seq::<CScalar>::empty());
    vstd::arithmetic::div_mod::lemma_small_mod(pa[1].val(), group_order());
    vstd::arithmetic::div_mod::lemma_small_mod(pb[1].val(), group_order());
    assert(spec_poly_eval(Seq::<CScalar>::empty(), 1) == 0);
    assert(spec_poly_eval(Seq::<CScalar>::empty(), 2) == 0);
    assert(spec_poly_eval(seq![pa[1]], 1) == pa[1].val());
    assert(spec_poly_eval(seq![pa[1]], 2) == pa[1].val());
    assert(spec_poly_eval(seq![pb[1]], 1) == pb[1].val());
    assert(spec_poly_eval(seq![pb[1]], 2) == pb[1].val());
    assert(spec_poly_eval(pa, 1) as int == (a0 + a1) % n);
    assert(spec_poly_eval(pa, 2) as int == (a0 + 2 * a1) % n);
    assert(spec_poly_eval(pb, 1) as int == (b0 + b1) % n);
    assert(spec_poly_eval(pb, 2) as int == (b0 + 2 * b1) % n);

    // The summed fragments are congruent to the joint polynomial's values.
    assert(f1.drop_last() =~= seq![f1[0]]);
    assert(seq![f1[0]].drop_last() =~= Seq::<CScalar>::empty());
    assert(f2.drop_last() =~= seq![f2[0]]);
    assert(seq![f2[0]].drop_last() =~= Seq::<CScalar>::empty());
    vstd::arithmetic::div_mod::lemma_small_mod(f1[0].val(), group_order());
    vstd::arithmetic::div_mod::lemma_small_mod(f2[0].val(), group_order());
    assert(spec_sum_frags(Seq::<CScalar>::empty()) == 0);
    assert(spec_sum_frags(seq![f1[0]]) == f1[0].val());
    assert(spec_sum_frags(seq![f2[0]]) == f2[0].val());
    assert(s1 as int == ((f1[0].val() + f1[1].val()) as int) % n);
    assert(s2 as int == ((f2[0].val() + f2[1].val()) as int) % n);

    lemma_cong_of_mod((a0 + a1));
    lemma_cong_of_mod((b0 + b1));
    lemma_cong_add((a0 + a1) % n, a0 + a1, (b0 + b1) % n, b0 + b1);
    lemma_cong_of_mod(((a0 + a1) % n) + ((b0 + b1) % n));
    assert(congruent(s1 as int, a0 + a1 + b0 + b1));

    lemma_cong_of_mod((a0 + 2 * a1));
    lemma_cong_of_mod((b0 + 2 * b1));
    lemma_cong_add((a0 + 2 * a1) % n, a0 + 2 * a1, (b0 + 2 * b1) % n, b0 + 2 * b1);
    lemma_cong_of_mod(((a0 + 2 * a1) % n) + ((b0 + 2 * b1) % n));
    assert(congruent(s2 as int, a0 + 2 * a1 + b0 + 2 * b1));

    lemma_cong_add(s1 as int, a0 + a1 + b0 + b1, s1 as int, a0 + a1 + b0 + b1);
    assert(congruent(2 * (s1 as int), 2 * a0 + 2 * a1 + 2 * b0 + 2 * b1));
    lemma_cong_sub(2 * (s1 as int), 2 * a0 + 2 * a1 + 2 * b0 + 2 * b1, s2 as int, a0 + 2 * a1 + b0 + 2 * b1);
    assert(congruent(2 * (s1 as int) - (s2 as int), a0 + b0));
}

/// Determinism of key generation's local computation: two runs of phase 1
/// over the same session and the same injected polynomial produce
/// byte-identical fragment lists, since the contract pins every fragment's
/// canonical value.
pub proof fn lemma_phase1_deterministic(r1: Seq<CScalar>, r2: Seq<CScalar>, poly: Seq<CScalar>)
    requires
        r1.len() == r2.len(),
        forall|j: int|
            0 <= j < r1.len() ==> (#[trigger] r1[j]).reduced() && r1[j].val() == spec_poly_eval(
                poly,
                (j + 1) as nat,
            ),
        forall|j: int|
            0 <= j < r2.len() ==> (#[trigger] r2[j]).reduced() && r2[j].val() == spec_poly_eval(
                poly,
                (j + 1) as nat,
            ),
    ensures
        forall|j: int| 0 <= j < r1.len() ==> (#[trigger] r1[j]).bytes@ =~= r2[j].bytes@,
{
    assert forall|j: int| 0 <= j < r1.len() implies (#[trigger] r1[j]).bytes@ =~= r2[j].bytes@ by {
        lemma_be_val_injective(r1[j].bytes@, r2[j].bytes@);
    }
}

/// x-coordinate agreement: two executing parties that agree on which
/// parties execute and on every executing party's opened instance point
/// recombine them into the same joint nonce point, and so compute the same
/// `r` component — even though each party assembles its view from its own
/// keeps and its own received messages.
pub proof fn lemma_x_coordinate_agreement(
    points_a: Seq<Seq<u8>>,
    incl_a: Seq<bool>,
    points_b: Seq<Seq<u8>>,
    incl_b: Seq<bool>,
    upto: nat,
)
    requires
        incl_a.len() == incl_b.len(),
        points_a.len() == points_b.len(),
        incl_a.len() == points_a.len(),
        upto <= incl_a.len(),
        forall|k: int| 0 <= k < incl_a.len() ==> #[trigger] incl_a[k] == incl_b[k],
        forall|k: int| 0 <= k < points_a.len() && incl_a[k] ==> #[trigger] points_a[k] =~= points_b[k],
    ensures
        spec_masked_sum(points_a, incl_a, upto) == spec_masked_sum(points_b, incl_b, upto),
    decreases upto,
{
    if upto > 0 {
        lemma_x_coordinate_agreement(points_a, incl_a, points_b, incl_b, (upto - 1) as nat);
        if incl_a[upto - 1] {
            assert(points_a[upto - 1] =~= points_b[upto - 1]);
        }
    }
}

/// Derivation consistency: deriving child `a` and then child `b` one step
/// at a time reaches exactly the key material that the two-step path
/// reaches, field for field.
pub proof fn lemma_derivation_consistency(
    base: DerivModel,
    a: u32,
    b: u32,
    via_children: DerivData,
    via_path: DerivData,
)
    requires
        spec_derive_path(base, seq![a, b]) == Ok::<DerivModel, crate::derivation::DerivError>(
            via_path.model(),
        ),
        spec_derive_child(base, a) is Ok,
        spec_derive_child(spec_derive_child(base, a)->Ok_0, b) == Ok::<
            DerivModel,
            crate::derivation::DerivError,
        >(via_children.model()),
        via_children.poly_point.reduced(),
        via_path.poly_point.reduced(),
    ensures
        via_path.spec_equals(via_children),
{
    crate::derivation::lemma_path_matches_children(base, a, b);
    assert(via_path.model() == via_children.model());
    lemma_be_val_injective(via_path.poly_point.bytes@, via_children.poly_point.bytes@);
}

} // verus!
