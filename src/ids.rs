//! Fresh identities for nodes and arrows.
use vstd::prelude::*;
use vstd::set_lib::{lemma_int_range, lemma_len_subset, set_int_range};

verus! {

/// Relies on `uuid::Uuid::new_v4` (a random version-4 UUID, read as its
/// 128-bit value with `Uuid::as_u128`). The value is random: nothing is
/// promised of it.
#[verifier::external_body]
fn random_id() -> (r: u128) {
    uuid::Uuid::new_v4().as_u128()
}

/// Whether `id` occurs in `ids`.
pub fn contains_id(ids: &Vec<u128>, id: u128) -> (r: bool)
    ensures
        r == ids@.contains(id),
{
    let mut i: usize = 0;
    while i < ids.len()
        invariant
            0 <= i <= ids.len(),
            forall|k: int| 0 <= k < i ==> ids@[k] != id,
        decreases ids.len() - i,
    {
        if ids[i] == id {
            return true;
        }
        i += 1;
    }
    false
}

/// A sequence of `n` identities leaves one of `0 ..= n` out.
proof fn lemma_pigeonhole(ids: Seq<u128>)
    requires
        ids.len() <= usize::MAX,
    ensures
        exists|k: u128| k <= ids.len() && !#[trigger] ids.contains(k),
{
    let n = ids.len() as int;
    if forall|k: u128| k <= n ==> #[trigger] ids.contains(k) {
        let values = ids.map_values(|v: u128| v as int);
        let held = values.to_set();
        values.lemma_cardinality_of_set();
        lemma_int_range(0, n + 1);
        assert forall|k: int| set_int_range(0, n + 1).contains(k) implies held.contains(k) by {
            assert(0 <= k <= n);
            let kk = k as u128;
            assert(kk as int == k);
            assert(ids.contains(kk));
            let j = choose|j: int| 0 <= j < ids.len() && ids[j] == kk;
            assert(values[j] == k);
        }
        vstd::seq_lib::seq_to_set_is_finite(values);
        lemma_len_subset(set_int_range(0, n + 1), held);
    }
}

/// An identity that does not occur in `taken`. A random one is drawn; in the
/// unlikely event that it is already in use, the smallest free value is
/// taken instead.
pub fn fresh_id(taken: &Vec<u128>) -> (r: u128)
    ensures
        !taken@.contains(r),
{
    let candidate = random_id();
    if !contains_id(taken, candidate) {
        return candidate;
    }
    let n = taken.len() as u128;
    let mut c: u128 = 0;
    while c <= n
        invariant
            n == taken@.len(),
            n <= usize::MAX,
            c <= n + 1,
            forall|k: u128| k < c ==> #[trigger] taken@.contains(k),
        decreases n + 1 - c,
    {
        if !contains_id(taken, c) {
            return c;
        }
        c += 1;
    }
    proof {
        lemma_pigeonhole(taken@);
        let k = choose|k: u128| k <= taken@.len() && !#[trigger] taken@.contains(k);
        assert(taken@.contains(k));
    }
    0
}

} // verus!
