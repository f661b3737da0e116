use vstd::prelude::*;
use crate::seq_sum::sum_u64;
use crate::TOTAL_CAP;
use rand::distributions::{Distribution, WeightedError, WeightedIndex};
use rand::rngs::StdRng;

verus! {

/// A sampleable categorical distribution over indexes with unnormalized
/// integer weights: rand's `WeightedIndex<u64>`, held behind a struct of
/// this crate because Verus cannot declare that type directly.
#[verifier::external_body]
pub struct WeightedIndexU64 {
    inner: WeightedIndex<u64>,
}

/// The weights over which a `WeightedIndexU64` distributes its samples: the
/// sequence it was built from, as later modified by `wi_update`.
pub uninterp spec fn wi_weights(w: WeightedIndexU64) -> Seq<u64>;

/// The weight sequence after applying a batch of `(index, new weight)`
/// patches from left to right.
pub open spec fn patched(w: Seq<u64>, patches: Seq<(usize, u64)>) -> Seq<u64>
    decreases patches.len(),
{
    if patches.len() == 0 {
        w
    } else {
        patched(w, patches.drop_last()).update(
            patches.last().0 as int,
            patches.last().1,
        )
    }
}

/// Relies on rand's `WeightedIndex::new`: it records the given weights and
/// fails exactly on an empty list or an all-zero total. The weight sum must
/// fit the weight type; the bound here keeps every internal sum well below
/// that.
#[verifier::external_body]
pub fn wi_new(weights: &Vec<u64>) -> (r: Result<WeightedIndexU64, ()>)
    requires
        sum_u64(weights@) <= TOTAL_CAP,
    ensures
        r is Ok <==> (weights@.len() > 0 && sum_u64(weights@) > 0),
        r is Ok ==> wi_weights(r->Ok_0) == weights@,
{
    match WeightedIndex::new(weights) {
        Ok(inner) => Ok(WeightedIndexU64 { inner }),
        Err(_) => Err(()),
    }
}

/// Relies on rand's `WeightedIndex` sampling (`Distribution::sample`): the
/// result is an index of the weight list, and an index of weight zero is
/// never returned. Which index comes back depends on the random draw, so
/// nothing more is promised.
#[verifier::external_body]
pub fn wi_sample(w: &WeightedIndexU64, rng: &mut StdRng) -> (i: usize)
    requires
        sum_u64(wi_weights(*w)) > 0,
    ensures
        i < wi_weights(*w).len(),
        wi_weights(*w)[i as int] > 0,
{
    w.inner.sample(rng)
}

/// Relies on rand's `WeightedIndex::update_weights`: with strictly
/// ascending in-range indexes it replaces exactly the listed weights, fails
/// exactly when the patched weights would sum to zero, and on failure
/// leaves the distribution unchanged. The bounds on the old and new sums
/// keep its internal arithmetic within the weight type.
#[verifier::external_body]
pub fn wi_update(w: &mut WeightedIndexU64, patches: &Vec<(usize, u64)>) -> (r: Result<(), ()>)
    requires
        patches@.len() >= 1,
        forall|p: int, q: int|
            0 <= p < q < patches@.len() ==> (#[trigger] patches@[p]).0 < (
            #[trigger] patches@[q]).0,
        forall|p: int|
            0 <= p < patches@.len() ==> (#[trigger] patches@[p]).0 < wi_weights(
                *old(w),
            ).len(),
        sum_u64(wi_weights(*old(w))) <= TOTAL_CAP,
        sum_u64(patched(wi_weights(*old(w)), patches@)) <= TOTAL_CAP,
    ensures
        r is Ok <==> sum_u64(patched(wi_weights(*old(w)), patches@)) > 0,
        r is Ok ==> wi_weights(*final(w)) == patched(wi_weights(*old(w)), patches@),
        r is Err ==> *final(w) == *old(w),
{
    let refs: Vec<(usize, &u64)> = patches.iter().map(|(i, x)| (*i, x)).collect();
    match w.inner.update_weights(&refs) {
        Ok(()) => Ok(()),
        Err(WeightedError::AllWeightsZero) => Err(()),
        Err(_) => Err(()),
    }
}

/// Patching entries with their current values changes nothing: the
/// distribution built from a weight list and the same distribution after
/// such an update sample identically.
pub proof fn lemma_identity_patches(w: Seq<u64>, patches: Seq<(usize, u64)>)
    requires
        forall|p: int|
            0 <= p < patches.len() ==> (#[trigger] patches[p]).0 < w.len() && patches[p].1 == w[
                patches[p].0 as int
            ],
    ensures
        patched(w, patches) == w,
    decreases patches.len(),
{
    if patches.len() > 0 {
        lemma_identity_patches(w, patches.drop_last());
        assert(patched(w, patches) =~= w);
    }
}

/// One entry of a patched weight sequence: the patch value if the entry is
/// patched, the old value otherwise.
proof fn lemma_patched_index(w: Seq<u64>, patches: Seq<(usize, u64)>, j: int, val: u64)
    requires
        0 <= j < w.len(),
        forall|p: int| 0 <= p < patches.len() ==> (#[trigger] patches[p]).0 < w.len(),
        forall|p: int|
            0 <= p < patches.len() && (#[trigger] patches[p]).0 == j ==> patches[p].1 == val,
    ensures
        patched(w, patches).len() == w.len(),
        patched(w, patches)[j] == (if exists|p: int|
            0 <= p < patches.len() && (#[trigger] patches[p]).0 == j {
            val
        } else {
            w[j]
        }),
    decreases patches.len(),
{
    if patches.len() > 0 {
        let prefix = patches.drop_last();
        let e = patches.last();
        assert(forall|p: int| 0 <= p < prefix.len() ==> (#[trigger] prefix[p]) == patches[p]);
        lemma_patched_index(w, prefix, j, val);
        if e.0 as int == j {
            assert(patches[patches.len() - 1].0 == j);
        } else {
            if exists|p: int| 0 <= p < prefix.len() && (#[trigger] prefix[p]).0 == j {
                let p = choose|p: int| 0 <= p < prefix.len() && (#[trigger] prefix[p]).0 == j;
                assert(patches[p].0 == j);
            } else {
                assert forall|p: int|
                    0 <= p < patches.len() implies (#[trigger] patches[p]).0 != j by {
                    if p < prefix.len() {
                        assert(prefix[p] == patches[p]);
                    }
                }
            }
        }
    }
}

/// If every patch writes the value the target holds there, and the old
/// weights already agree with the target everywhere that is not patched,
/// the patched weights are exactly the target.
pub proof fn lemma_patches_reach_target(w: Seq<u64>, patches: Seq<(usize, u64)>, target: Seq<u64>)
    requires
        w.len() == target.len(),
        forall|p: int|
            0 <= p < patches.len() ==> (#[trigger] patches[p]).0 < target.len() && patches[p].1
                == target[patches[p].0 as int],
        forall|j: int|
            0 <= j < w.len() && (forall|p: int|
                0 <= p < patches.len() ==> (#[trigger] patches[p]).0 != j) ==> w[j] == target[j],
    ensures
        patched(w, patches) =~= target,
{
    assert forall|j: int| 0 <= j < w.len() implies patched(w, patches)[j] == target[j] by {
        lemma_patched_index(w, patches, j, target[j]);
        if !(exists|p: int| 0 <= p < patches.len() && (#[trigger] patches[p]).0 == j) {
            assert(w[j] == target[j]);
        }
    }
    lemma_patched_len(w, patches);
}

proof fn lemma_patched_len(w: Seq<u64>, patches: Seq<(usize, u64)>)
    requires
        forall|p: int| 0 <= p < patches.len() ==> (#[trigger] patches[p]).0 < w.len(),
    ensures
        patched(w, patches).len() == w.len(),
    decreases patches.len(),
{
    if patches.len() > 0 {
        assert(forall|p: int|
            0 <= p < patches.drop_last().len() ==> (#[trigger] patches.drop_last()[p])
                == patches[p]);
        lemma_patched_len(w, patches.drop_last());
    }
}

} // verus!
