//! The pool of free identities, and the random order in which it is emptied.

use vstd::prelude::*;

verus! {

/// `ids` holds every number below `count` exactly once and nothing else.
pub open spec fn is_permutation_of_range(ids: Seq<usize>, count: nat) -> bool {
    &&& ids.len() == count
    &&& ids.no_duplicates()
    &&& forall|i: int| 0 <= i < ids.len() ==> ids[i] < count
    &&& forall|id: usize| id < count ==> ids.contains(id)
}

/// The numbers that occur in a permutation of a range are those of the range.
pub proof fn lemma_permutation_as_set(ids: Seq<usize>, count: nat)
    requires
        is_permutation_of_range(ids, count),
    ensures
        ids.to_set() == Set::new(|id: usize| id < count),
{
    assert forall|id: usize| ids.to_set().contains(id) <==> id < count by {
        if ids.contains(id) {
            let i = choose|i: int| 0 <= i < ids.len() && ids[i] == id;
            assert(ids[i] < count);
        }
    }
}

/// Whether a sequence is a permutation of a range depends only on how often
/// each number occurs in it.
pub proof fn lemma_permutation_by_members(a: Seq<usize>, b: Seq<usize>, count: nat)
    requires
        a.to_multiset() == b.to_multiset(),
        is_permutation_of_range(a, count),
    ensures
        is_permutation_of_range(b, count),
{
    vstd::seq_lib::to_multiset_len(a);
    vstd::seq_lib::to_multiset_len(b);
    a.lemma_multiset_has_no_duplicates();
    b.lemma_multiset_has_no_duplicates_conv();
    assert forall|i: int| 0 <= i < b.len() implies b[i] < count by {
        vstd::seq_lib::to_multiset_contains(b, b[i]);
        vstd::seq_lib::to_multiset_contains(a, b[i]);
        let j = choose|j: int| 0 <= j < a.len() && a[j] == b[i];
        assert(a[j] < count);
    }
    assert forall|id: usize| id < count implies b.contains(id) by {
        vstd::seq_lib::to_multiset_contains(a, id);
        vstd::seq_lib::to_multiset_contains(b, id);
    }
}

/// The identities that have not been handed out yet, in pool order.
pub struct IdPool {
    free: Vec<usize>,
}

impl View for IdPool {
    type V = Seq<usize>;

    closed spec fn view(&self) -> Seq<usize> {
        self.free@
    }
}

impl IdPool {
    /// A pool that holds `0, 1, .., count - 1` in ascending order.
    pub fn new(count: usize) -> (pool: IdPool)
        ensures
            pool@ == Seq::new(count as nat, |k: int| k as usize),
    {
        let mut free: Vec<usize> = Vec::new();
        let mut next: usize = 0;
        while next < count
            invariant
                next <= count,
                free@ == Seq::new(next as nat, |k: int| k as usize),
            decreases count - next,
        {
            free.push(next);
            next = next + 1;
        }
        IdPool { free }
    }

    /// How many identities are still free.
    pub fn len(&self) -> (n: usize)
        ensures
            n == self@.len(),
    {
        self.free.len()
    }

    /// Whether every identity has been handed out.
    pub fn is_empty(&self) -> (empty: bool)
        ensures
            empty <==> self@.len() == 0,
    {
        self.free.len() == 0
    }

    /// Hands out the identity at position `pick`; the identities behind it
    /// move one position forward.
    pub fn take(&mut self, pick: usize) -> (id: usize)
        requires
            pick < old(self)@.len(),
        ensures
            id == old(self)@[pick as int],
            final(self)@ == old(self)@.remove(pick as int),
    {
        self.free.remove(pick)
    }
}

/// Calls `rand::Rng::gen_range` on the generator of `rand::thread_rng` with the
/// range `0..bound`. `gen_range` panics on an empty range, which `requires`
/// leaves out, and what it returns lies in the range. Nothing else is claimed:
/// two calls with the same bound may differ. (`thread_rng` seeds its generator
/// from the system when a thread first uses it, and panics where the system
/// has no seed to give.)
#[verifier::external_body]
fn random_below(bound: usize) -> (pick: usize)
    requires
        bound > 0,
    ensures
        pick < bound,
{
    rand::Rng::gen_range(&mut rand::thread_rng(), 0..bound)
}

/// Empties a fresh pool of `count` identities by taking a random position each
/// time. The result lists the identities in the order in which they left the
/// pool: a permutation of `0, 1, .., count - 1`, whatever was drawn.
pub fn shuffled_ids(count: usize) -> (ids: Vec<usize>)
    ensures
        is_permutation_of_range(ids@, count as nat),
{
    let mut pool = IdPool::new(count);
    let mut ids: Vec<usize> = Vec::new();
    assert forall|id: usize| id < count implies pool@.contains(id) by {
        assert(pool@[id as int] == id);
    }
    while pool.len() > 0
        invariant
            pool@.len() + ids@.len() == count,
            pool@.no_duplicates(),
            ids@.no_duplicates(),
            forall|i: int| 0 <= i < pool@.len() ==> pool@[i] < count,
            forall|i: int| 0 <= i < ids@.len() ==> ids@[i] < count,
            forall|i: int, j: int| 0 <= i < pool@.len() && 0 <= j < ids@.len() ==> pool@[i] != ids@[j],
            forall|id: usize| id < count ==> pool@.contains(id) || ids@.contains(id),
        decreases pool@.len(),
    {
        let ghost before = pool@;
        let ghost handed = ids@;
        let pick = random_below(pool.len());
        let id = pool.take(pick);
        ids.push(id);
        proof {
            assert forall|i: int| 0 <= i < pool@.len() implies pool@[i] == before[if i < pick { i } else { i + 1 }] by {}
            assert forall|id2: usize| id2 < count implies pool@.contains(id2) || ids@.contains(id2) by {
                if before.contains(id2) {
                    let at = choose|i: int| 0 <= i < before.len() && before[i] == id2;
                    if at == pick {
                        assert(ids@[handed.len() as int] == id2);
                    } else if at < pick {
                        assert(pool@[at] == id2);
                    } else {
                        assert(pool@[at - 1] == id2);
                    }
                } else {
                    let at = choose|i: int| 0 <= i < handed.len() && handed[i] == id2;
                    assert(ids@[at] == id2);
                }
            }
        }
    }
    ids
}

} // verus!
