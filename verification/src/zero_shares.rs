//! Zero-sharing: commit-reveal seeds that let any executing quorum derive
//! additive masks which sum to zero.
//!
//! Each unordered pair of parties agrees (by commit-reveal during key
//! generation) on a common seed. In a signing session, the pair's seed is
//! hashed to a fragment; the pair member with the lower index subtracts it,
//! the other adds it, so over all executing parties the masks cancel.

use vstd::prelude::*;
use crate::bytes::array32_to_vec;
use crate::hashing::{hash_to_scalar, spec_hash_to_scalar, TAG_ZERO_SHARE};
use crate::scalar::{group_order, scalar_add, scalar_sub, CScalar};

verus! {

/// The common seed one party keeps for one counterparty.
#[derive(Clone, Copy, Debug)]
pub struct SeedPair {
    /// Whether the owning party has the lower index of the pair.
    pub lowest_index: bool,
    pub index_counterparty: u8,
    pub seed: [u8; 32],
}

/// All seed pairs one party holds, one per counterparty.
#[derive(Clone, Debug)]
pub struct ZeroShare {
    pub seeds: Vec<SeedPair>,
}

/// Bytewise XOR of two 32-byte strings.
pub open spec fn spec_xor32(a: Seq<u8>, b: Seq<u8>) -> Seq<u8> {
    Seq::new(32, |i: int| a[i] ^ b[i])
}

/// XOR of two seeds: the pair's common seed, symmetric in its arguments.
pub fn xor32(a: &[u8; 32], b: &[u8; 32]) -> (r: [u8; 32])
    ensures
        r@ =~= spec_xor32(a@, b@),
{
    let mut r = [0u8; 32];
    let mut i: usize = 0;
    while i < 32
        invariant
            i <= 32,
            r@.len() == 32,
            forall|j: int| 0 <= j < i ==> r@[j] == (a@[j] ^ b@[j]),
        decreases 32 - i,
    {
        r[i] = a[i] ^ b[i];
        i += 1;
    }
    r
}

/// Combines the two seeds a pair exchanged into the pair's single seed and
/// records which side of the pair we are.
pub fn generate_seed_pair(
    index_party: u8,
    index_counterparty: u8,
    seed_party: &[u8; 32],
    seed_counterparty: &[u8; 32],
) -> (r: SeedPair)
    ensures
        r.lowest_index == (index_party <= index_counterparty),
        r.index_counterparty == index_counterparty,
        r.seed@ =~= spec_xor32(seed_party@, seed_counterparty@),
{
    SeedPair {
        lowest_index: index_party <= index_counterparty,
        index_counterparty,
        seed: xor32(seed_party, seed_counterparty),
    }
}

/// The fragment a pair's seed contributes in the session identified by `sid`.
pub open spec fn fragment_val(sid: Seq<u8>, seed: Seq<u8>) -> nat {
    spec_hash_to_scalar(seq![TAG_ZERO_SHARE], seq![sid, seed])
}

/// Signed sum of the fragments of the seed pairs whose counterparty is
/// executing: subtracted by the lower-index side, added by the other.
pub open spec fn signed_fragment_sum(seeds: Seq<SeedPair>, cs: Seq<u8>, sid: Seq<u8>) -> int
    decreases seeds.len(),
{
    if seeds.len() == 0 {
        0
    } else {
        let sp = seeds.last();
        let rest = signed_fragment_sum(seeds.drop_last(), cs, sid);
        if cs.contains(sp.index_counterparty) {
            if sp.lowest_index {
                rest - fragment_val(sid, sp.seed@)
            } else {
                rest + fragment_val(sid, sp.seed@)
            }
        } else {
            rest
        }
    }
}

impl ZeroShare {
    /// Gathers the seed pairs after key generation.
    pub fn initialize(seeds: Vec<SeedPair>) -> (r: ZeroShare)
        ensures
            r.seeds@ =~= seeds@,
    {
        ZeroShare { seeds }
    }

    /// This party's additive mask for the session `sid`, executing with the
    /// given counterparties: the signed sum of the executing fragments.
    pub fn compute(&self, counterparties: &Vec<u8>, sid: &Vec<u8>) -> (r: CScalar)
        ensures
            r.reduced(),
            r.val() as int == signed_fragment_sum(self.seeds@, counterparties@, sid@)
                % (group_order() as int),
    {
        let mut share = CScalar::default();
        let mut i: usize = 0;
        proof {
            vstd::arithmetic::div_mod::lemma_small_mod(0nat, group_order());
        }
        while i < self.seeds.len()
            invariant
                i <= self.seeds@.len(),
                share.reduced(),
                share.val() as int == signed_fragment_sum(
                    self.seeds@.take(i as int),
                    counterparties@,
                    sid@,
                ) % (group_order() as int),
            decreases self.seeds@.len() - i,
        {
            let sp = self.seeds[i];
            let ghost prefix = self.seeds@.take(i as int);
            let ghost prev_sum = signed_fragment_sum(prefix, counterparties@, sid@);
            if contains_index(counterparties, sp.index_counterparty) {
                let tag: Vec<u8> = vec![TAG_ZERO_SHARE];
                let components: Vec<Vec<u8>> = vec![sid.clone(), array32_to_vec(&sp.seed)];
                let fragment = hash_to_scalar(&tag, &components);
                proof {
                    assert(tag@ =~= seq![TAG_ZERO_SHARE]);
                    assert(components.deep_view() =~~= seq![sid@, sp.seed@]);
                }
                if sp.lowest_index {
                    let next = scalar_sub(&share, &fragment);
                    proof {
                        lemma_step_sub(share.val(), next.val(), fragment.val(), prev_sum);
                    }
                    share = next;
                } else {
                    let next = scalar_add(&share, &fragment);
                    proof {
                        lemma_step_add(share.val(), next.val(), fragment.val(), prev_sum);
                    }
                    share = next;
                }
            }
            i += 1;
            proof {
                assert(self.seeds@.take(i as int).drop_last() =~= prefix);
                assert(self.seeds@.take(i as int).last() == sp);
            }
        }
        proof {
            assert(self.seeds@.take(self.seeds@.len() as int) =~= self.seeds@);
        }
        share
    }
}

/// Whether `x` occurs in the list.
pub fn contains_index(v: &Vec<u8>, x: u8) -> (r: bool)
    ensures
        r == v@.contains(x),
{
    let mut i: usize = 0;
    while i < v.len()
        invariant
            i <= v@.len(),
            forall|j: int| 0 <= j < i ==> v@[j] != x,
        decreases v@.len() - i,
    {
        if v[i] == x {
            assert(v@[i as int] == x);
            return true;
        }
        i += 1;
    }
    assert(!v@.contains(x));
    false
}

proof fn lemma_step_add(share: nat, next: nat, f: nat, prev_sum: int)
    requires
        share < group_order(),
        f < group_order(),
        next == (share + f) % group_order(),
        share as int == prev_sum % (group_order() as int),
    ensures
        next as int == (prev_sum + f) % (group_order() as int),
{
    let n = group_order() as int;
    vstd::arithmetic::div_mod::lemma_add_mod_noop(prev_sum, f as int, n);
    vstd::arithmetic::div_mod::lemma_small_mod(f, group_order());
    assert((prev_sum % n + f as int % n) % n == (prev_sum + f) % n);
    assert(share as int + f as int == (share + f) as int);
}

proof fn lemma_step_sub(share: nat, next: nat, f: nat, prev_sum: int)
    requires
        share < group_order(),
        f < group_order(),
        next < group_order(),
        (next + f) % group_order() == share,
        share as int == prev_sum % (group_order() as int),
    ensures
        next as int == (prev_sum - f) % (group_order() as int),
{
    let n = group_order() as int;
    // next + f is congruent to share, so next is congruent to share - f,
    // which is congruent to prev_sum - f.
    vstd::arithmetic::div_mod::lemma_add_mod_noop(next as int, f as int, n);
    vstd::arithmetic::div_mod::lemma_small_mod(next as nat, group_order());
    vstd::arithmetic::div_mod::lemma_small_mod(f, group_order());
    assert((next as int + f as int) % n == share as int);
    vstd::arithmetic::div_mod::lemma_sub_mod_noop(next as int + f as int, f as int, n);
    assert((next as int + f as int - f as int) % n == (share as int - f as int) % n);
    vstd::arithmetic::div_mod::lemma_small_mod(next as nat, group_order());
    vstd::arithmetic::div_mod::lemma_sub_mod_noop(prev_sum, f as int, n);
    assert((share as int - f as int) % n == (prev_sum - f) % n) by {
        vstd::arithmetic::div_mod::lemma_mod_twice(prev_sum, n);
        vstd::arithmetic::div_mod::lemma_sub_mod_noop(prev_sum % n, f as int, n);
        vstd::arithmetic::div_mod::lemma_mod_twice(prev_sum - f as int, n);
    }
}

/// Two paired parties' masks cancel: where each side of a pair holds the
/// same seed with complementary orientation and the two are each other's
/// only executing counterparty, the two computed masks sum to zero.
pub proof fn lemma_pair_masks_cancel(a: SeedPair, b: SeedPair, i: u8, j: u8, sid: Seq<u8>)
    requires
        a.seed@ =~= b.seed@,
        a.lowest_index != b.lowest_index,
        a.index_counterparty == j,
        b.index_counterparty == i,
    ensures
        (signed_fragment_sum(seq![a], seq![j], sid) + signed_fragment_sum(
            seq![b],
            seq![i],
            sid,
        )) % (group_order() as int) == 0,
{
    let sa = seq![a];
    let sb = seq![b];
    assert(sa.drop_last() =~= Seq::<SeedPair>::empty());
    assert(sb.drop_last() =~= Seq::<SeedPair>::empty());
    assert(seq![j].contains(a.index_counterparty)) by {
        assert(seq![j][0] == a.index_counterparty);
    }
    assert(seq![i].contains(b.index_counterparty)) by {
        assert(seq![i][0] == b.index_counterparty);
    }
    let f = fragment_val(sid, a.seed@);
    assert(signed_fragment_sum(Seq::<SeedPair>::empty(), seq![j], sid) == 0);
    assert(signed_fragment_sum(Seq::<SeedPair>::empty(), seq![i], sid) == 0);
    assert(a.seed@ == b.seed@);
    assert(sa.last() == a && sb.last() == b);
    assert(signed_fragment_sum(sa, seq![j], sid) == if a.lowest_index { -(f as int) } else { f as int });
    assert(signed_fragment_sum(sb, seq![i], sid) == if b.lowest_index { -(f as int) } else { f as int });
    assert(signed_fragment_sum(sa, seq![j], sid) + signed_fragment_sum(sb, seq![i], sid) == 0);
    vstd::arithmetic::div_mod::lemma_small_mod(0nat, group_order());
}

} // verus!
