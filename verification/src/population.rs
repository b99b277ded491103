//! The live population: every particle of a run, in store order.

use crate::order::{
    ascending, by_key, insert_by_key, lemma_by_key_ascending, lemma_by_key_keeps_ids,
    lemma_by_key_keeps_spawns,
};
use crate::particle::{ids_of, tagged, untagged, Particle, Spawn};
use crate::pool::{is_permutation_of_range, lemma_permutation_by_members, shuffled_ids};
use vstd::prelude::*;

verus! {

/// What holds of every population: the identities are `0, 1, .., n - 1`, each
/// once, where `n` is the number of particles, and the keys ascend.
pub open spec fn well_formed<T>(s: Seq<Particle<T>>) -> bool {
    &&& is_permutation_of_range(ids_of(s), s.len())
    &&& ascending(s)
}

/// The slots that the particle in slot `subject` is tested against during its
/// turn of a tick: every slot of `len` but its own, in ascending order.
pub open spec fn partners_of(len: nat, subject: int) -> Seq<usize> {
    Seq::new(
        (len - 1) as nat,
        |k: int| if k < subject { k as usize } else { (k + 1) as usize },
    )
}

/// No particle is its own partner, and every partner is a slot of the
/// population.
pub proof fn lemma_partners_are_others(len: nat, subject: int)
    requires
        0 <= subject < len <= usize::MAX,
    ensures
        partners_of(len, subject).len() == len - 1,
        forall|k: int|
            0 <= k < len - 1 ==> (#[trigger] partners_of(len, subject)[k]) != subject
                && partners_of(len, subject)[k] < len,
{
}

/// Spawns that are given a permutation of `0, 1, .., n - 1` as identities and
/// then put in store order make a well-formed population of `n` particles.
pub proof fn lemma_store_order_well_formed<T>(spawns: Seq<Spawn<T>>, ids: Seq<usize>)
    requires
        is_permutation_of_range(ids, spawns.len()),
    ensures
        well_formed(by_key(tagged(spawns, ids))),
        by_key(tagged(spawns, ids)).len() == spawns.len(),
        untagged(by_key(tagged(spawns, ids))).to_multiset() == spawns.to_multiset(),
{
    let all = tagged(spawns, ids);
    lemma_by_key_ascending(all);
    lemma_by_key_keeps_ids(all);
    lemma_by_key_keeps_spawns(all);
    assert(ids_of(all) == ids);
    assert(untagged(all) == spawns);
    lemma_permutation_by_members(ids, ids_of(by_key(all)), spawns.len());
}

/// The particles of a run, held in store order.
pub struct Population<T> {
    slots: Vec<Particle<T>>,
}

impl<T> View for Population<T> {
    type V = Seq<Particle<T>>;

    closed spec fn view(&self) -> Seq<Particle<T>> {
        self.slots@
    }
}

impl<T> Population<T> {
    /// Every population is well-formed, at every point of a program.
    #[verifier::type_invariant]
    pub open spec fn inv(&self) -> bool {
        well_formed(self@)
    }

    /// The empty population.
    pub fn new() -> (pop: Self)
        ensures
            pop@ == Seq::<Particle<T>>::empty(),
    {
        Population { slots: Vec::new() }
    }

    /// The population of the given spawns, the one at position `k` with the
    /// identity `ids[k]`, in store order.
    pub fn with_ids(spawns: Vec<Spawn<T>>, ids: &Vec<usize>) -> (pop: Self)
        requires
            is_permutation_of_range(ids@, spawns@.len()),
        ensures
            pop@ == by_key(tagged(spawns@, ids@)),
            pop@.len() == spawns@.len(),
            well_formed(pop@),
            untagged(pop@).to_multiset() == spawns@.to_multiset(),
    {
        let ghost given = spawns@;
        let ghost all = tagged(given, ids@);
        let mut rest = spawns;
        let mut slots: Vec<Particle<T>> = Vec::new();
        while rest.len() > 0
            invariant
                rest@.len() <= given.len(),
                rest@ == given.subrange(0, rest@.len() as int),
                ids@.len() == given.len(),
                all == tagged(given, ids@),
                slots@ == by_key(all.subrange(rest@.len() as int, all.len() as int)),
            decreases rest@.len(),
        {
            let k: usize = rest.len() - 1;
            let spawn = rest.pop().unwrap();
            let p = Particle { id: ids[k], key: spawn.key, body: spawn.body };
            proof {
                let tail = all.subrange(k as int, all.len() as int);
                assert(tail.drop_first() == all.subrange(k + 1, all.len() as int));
            }
            insert_by_key(&mut slots, p);
        }
        proof {
            assert(all.subrange(0, all.len() as int) == all);
            lemma_store_order_well_formed(given, ids@);
        }
        Population { slots }
    }

    /// A new population of the given spawns. Each gets an identity of its own,
    /// drawn at random from those not yet given; then the particles are put in
    /// store order. The identities are `0, 1, .., n - 1` for `n` spawns,
    /// whatever was drawn.
    pub fn create(spawns: Vec<Spawn<T>>) -> (pop: Self)
        ensures
            pop@.len() == spawns@.len(),
            is_permutation_of_range(ids_of(pop@), spawns@.len()),
            well_formed(pop@),
            untagged(pop@).to_multiset() == spawns@.to_multiset(),
            exists|ids: Seq<usize>|
                is_permutation_of_range(ids, spawns@.len()) && pop@ == by_key(
                    tagged(spawns@, ids),
                ),
    {
        let ids = shuffled_ids(spawns.len());
        Population::with_ids(spawns, &ids)
    }

    /// Discards every particle.
    pub fn clear(&mut self)
        ensures
            final(self)@ == Seq::<Particle<T>>::empty(),
    {
        self.slots = Vec::new();
    }

    /// The number of particles.
    pub fn len(&self) -> (n: usize)
        ensures
            n == self@.len(),
    {
        self.slots.len()
    }

    /// Whether the population holds no particle.
    pub fn is_empty(&self) -> (empty: bool)
        ensures
            empty <==> self@.len() == 0,
    {
        self.slots.len() == 0
    }

    /// The particle in the given slot.
    pub fn particle(&self, slot: usize) -> (p: &Particle<T>)
        requires
            slot < self@.len(),
        ensures
            *p == self@[slot as int],
    {
        &self.slots[slot]
    }

    /// Replaces the state of the particle in the given slot. Its identity, its
    /// key and every other slot stay as they are.
    pub fn set_body(&mut self, slot: usize, body: T)
        requires
            slot < old(self)@.len(),
        ensures
            final(self)@ == old(self)@.update(
                slot as int,
                (Particle { id: old(self)@[slot as int].id, key: old(self)@[slot as int].key, body }),
            ),
            well_formed(final(self)@),
    {
        proof {
            use_type_invariant(&*self);
        }
        let ghost before = self.slots@;
        let id = self.slots[slot].id;
        let key = self.slots[slot].key;
        let mut slots: Vec<Particle<T>> = Vec::new();
        proof {
            let after = before.update(slot as int, Particle { id, key, body });
            assert(ids_of(after) == ids_of(before));
        }
        std::mem::swap(&mut self.slots, &mut slots);
        slots.set(slot, Particle { id, key, body });
        self.slots = slots;
    }

    /// The slots that the particle in slot `subject` is tested against during
    /// its turn of a tick: those whose particle has another identity, in store
    /// order. The subject's own slot is never among them.
    pub fn partners(&self, subject: usize) -> (others: Vec<usize>)
        requires
            subject < self@.len(),
        ensures
            others@ == partners_of(self@.len(), subject as int),
            !others@.contains(subject),
            forall|slot: usize|
                slot < self@.len() ==> (others@.contains(slot) <==> self@[slot as int].id
                    != self@[subject as int].id),
            self@.len() == 1 ==> others@.len() == 0,
    {
        proof {
            use_type_invariant(self);
        }
        let ghost ids = ids_of(self.slots@);
        let n = self.slots.len();
        let own = self.slots[subject].id;
        let mut others: Vec<usize> = Vec::new();
        let mut slot: usize = 0;
        while slot < n
            invariant
                slot <= n,
                n == self.slots@.len(),
                subject < n,
                own == self.slots@[subject as int].id,
                ids == ids_of(self.slots@),
                ids.no_duplicates(),
                others@ == partners_of(n as nat, subject as int).subrange(
                    0,
                    if slot <= subject { slot as int } else { slot - 1 },
                ),
            decreases n - slot,
        {
            assert(ids[slot as int] == self.slots@[slot as int].id);
            assert(ids[subject as int] == own);
            if self.slots[slot].id != own {
                others.push(slot);
            }
            slot = slot + 1;
        }
        proof {
            let all = partners_of(n as nat, subject as int);
            assert(others@ == all);
            assert forall|k: int| 0 <= k < all.len() implies all[k] != subject by {}
            assert forall|s: usize| s < n implies (others@.contains(s) <==> self.slots@[s as int].id
                != own) by {
                assert(ids[s as int] == self.slots@[s as int].id);
                assert(ids[subject as int] == own);
                if s < subject {
                    assert(all[s as int] == s);
                } else if s > subject {
                    assert(all[s - 1] == s);
                }
            }
        }
        others
    }
}

} // verus!
