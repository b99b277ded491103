//! The store order: ascending by key, particles with equal keys in the order
//! in which they were created.

use crate::particle::{ids_of, untagged, Particle, Spawn};
use vstd::prelude::*;

verus! {

/// A 32-bit pattern of sign and magnitude read as a number: the low 31 bits
/// count up from zero, and the top bit turns the sign.
pub open spec fn sign_magnitude(bits: u32) -> int {
    if bits < 0x8000_0000 {
        bits as int
    } else {
        0x8000_0000 - bits
    }
}

/// The key of a coordinate that is held as a sign bit over a magnitude, as
/// the binary32 format holds a number. Keys then compare as the coordinates
/// do, and the two zeros share the key 0.
pub fn key_of_bits(bits: u32) -> (key: i64)
    ensures
        key == sign_magnitude(bits),
{
    if bits < 0x8000_0000 {
        bits as i64
    } else {
        -((bits - 0x8000_0000) as i64)
    }
}

/// The keys of `s` never fall from one slot to the next.
pub open spec fn ascending<T>(s: Seq<Particle<T>>) -> bool {
    forall|i: int, j: int| 0 <= i <= j < s.len() ==> s[i].key <= s[j].key
}

/// The particles with the key `key`, as a predicate.
pub open spec fn has_key<T>(key: i64) -> spec_fn(Particle<T>) -> bool {
    |p: Particle<T>| p.key == key
}

/// The first slot of `s` whose key is not below `key`, or the length of `s`
/// where every key is below it.
pub open spec fn slot_for<T>(s: Seq<Particle<T>>, key: i64) -> int
    decreases s.len(),
{
    if s.len() == 0 || s.first().key >= key {
        0
    } else {
        1 + slot_for(s.drop_first(), key)
    }
}

/// `s` with `p` put into its slot.
pub open spec fn placed<T>(s: Seq<Particle<T>>, p: Particle<T>) -> Seq<Particle<T>> {
    s.insert(slot_for(s, p.key), p)
}

/// The particles of `s` in store order: the last one first put into the empty
/// store, then the one before it, and so on up to the first.
pub open spec fn by_key<T>(s: Seq<Particle<T>>) -> Seq<Particle<T>>
    decreases s.len(),
{
    if s.len() == 0 {
        s
    } else {
        placed(by_key(s.drop_first()), s.first())
    }
}

/// The slot for a key lies within the sequence or right behind it; every key
/// before the slot is below the key, and the key at the slot is not.
pub proof fn lemma_slot_for<T>(s: Seq<Particle<T>>, key: i64)
    ensures
        0 <= slot_for(s, key) <= s.len(),
        forall|i: int| 0 <= i < slot_for(s, key) ==> s[i].key < key,
        slot_for(s, key) < s.len() ==> s[slot_for(s, key)].key >= key,
    decreases s.len(),
{
    if s.len() == 0 || s.first().key >= key {
    } else {
        let rest = s.drop_first();
        lemma_slot_for(rest, key);
        assert forall|i: int| 0 <= i < slot_for(s, key) implies s[i].key < key by {
            if i > 0 {
                assert(s[i] == rest[i - 1]);
            }
        }
    }
}

/// Putting a particle into its slot keeps an ascending sequence ascending.
pub proof fn lemma_placed_ascending<T>(s: Seq<Particle<T>>, p: Particle<T>)
    requires
        ascending(s),
    ensures
        ascending(placed(s, p)),
        placed(s, p).len() == s.len() + 1,
{
    lemma_slot_for(s, p.key);
    let at = slot_for(s, p.key);
    let t = placed(s, p);
    assert forall|i: int| 0 <= i < t.len() implies t[i] == (if i < at {
        s[i]
    } else if i == at {
        p
    } else {
        s[i - 1]
    }) by {}
    assert forall|i: int, j: int| 0 <= i <= j < t.len() implies t[i].key <= t[j].key by {}
}

/// Store order is ascending and keeps the number of particles.
pub proof fn lemma_by_key_ascending<T>(s: Seq<Particle<T>>)
    ensures
        ascending(by_key(s)),
        by_key(s).len() == s.len(),
    decreases s.len(),
{
    if s.len() > 0 {
        lemma_by_key_ascending(s.drop_first());
        lemma_placed_ascending(by_key(s.drop_first()), s.first());
    }
}

/// Store order only rearranges: every particle occurs as often as before.
pub proof fn lemma_by_key_permutes<T>(s: Seq<Particle<T>>)
    ensures
        by_key(s).to_multiset() == s.to_multiset(),
    decreases s.len(),
{
    if s.len() > 0 {
        let rest = s.drop_first();
        lemma_by_key_permutes(rest);
        lemma_slot_for(by_key(rest), s.first().key);
        vstd::seq_lib::to_multiset_insert(by_key(rest), slot_for(by_key(rest), s.first().key), s.first());
        assert(s == rest.insert(0, s.first()));
        vstd::seq_lib::to_multiset_insert(rest, 0, s.first());
    }
}

/// Store order keeps the identities: each occurs as often as before.
pub proof fn lemma_by_key_keeps_ids<T>(s: Seq<Particle<T>>)
    ensures
        ids_of(by_key(s)).to_multiset() == ids_of(s).to_multiset(),
    decreases s.len(),
{
    if s.len() > 0 {
        let first = s.first();
        let rest = s.drop_first();
        let t = by_key(rest);
        let at = slot_for(t, first.key);
        lemma_by_key_keeps_ids(rest);
        lemma_slot_for(t, first.key);
        assert(ids_of(by_key(s)) == ids_of(t).insert(at, first.id));
        vstd::seq_lib::to_multiset_insert(ids_of(t), at, first.id);
        assert(ids_of(s) == ids_of(rest).insert(0, first.id));
        vstd::seq_lib::to_multiset_insert(ids_of(rest), 0, first.id);
    }
}

/// Store order keeps the spawns: each key with its body occurs as often as
/// before.
pub proof fn lemma_by_key_keeps_spawns<T>(s: Seq<Particle<T>>)
    ensures
        untagged(by_key(s)).to_multiset() == untagged(s).to_multiset(),
    decreases s.len(),
{
    if s.len() > 0 {
        let first = s.first();
        let rest = s.drop_first();
        let t = by_key(rest);
        let at = slot_for(t, first.key);
        let bare = Spawn { key: first.key, body: first.body };
        lemma_by_key_keeps_spawns(rest);
        lemma_slot_for(t, first.key);
        assert(untagged(by_key(s)) == untagged(t).insert(at, bare));
        vstd::seq_lib::to_multiset_insert(untagged(t), at, bare);
        assert(untagged(s) == untagged(rest).insert(0, bare));
        vstd::seq_lib::to_multiset_insert(untagged(rest), 0, bare);
    }
}

/// Store order is stable: the particles that share a key stand in the order in
/// which they stood before.
pub proof fn lemma_by_key_stable<T>(s: Seq<Particle<T>>, key: i64)
    ensures
        by_key(s).filter(has_key(key)) == s.filter(has_key(key)),
    decreases s.len(),
{
    let wanted = has_key::<T>(key);
    if s.len() > 0 {
        let first = s.first();
        let rest = s.drop_first();
        let t = by_key(rest);
        let at = slot_for(t, first.key);
        lemma_by_key_stable(rest, key);
        lemma_slot_for(t, first.key);
        let front = t.subrange(0, at);
        let back = t.subrange(at, t.len() as int);
        let one = seq![first];
        assert(t == front + back);
        assert(by_key(s) == (front + one) + back);
        assert(s == one + rest);
        Seq::filter_distributes_over_add(front, back, wanted);
        Seq::filter_distributes_over_add(front + one, back, wanted);
        Seq::filter_distributes_over_add(front, one, wanted);
        rest.lemma_filter_prepend(first, wanted);
        Seq::<Particle<T>>::empty().lemma_filter_prepend(first, wanted);
        Seq::<Particle<T>>::empty().lemma_filter_len(wanted);
        if first.key == key {
            front.lemma_all_neg_filter_empty(wanted);
        }
    }
}

/// Puts `p` into its slot of `sorted`: before the first particle whose key is
/// not below the key of `p`.
pub fn insert_by_key<T>(sorted: &mut Vec<Particle<T>>, p: Particle<T>)
    ensures
        final(sorted)@ == placed(old(sorted)@, p),
{
    let mut pos: usize = 0;
    assert(sorted@.subrange(0, sorted@.len() as int) == sorted@);
    while pos < sorted.len() && sorted[pos].key < p.key
        invariant
            pos <= sorted@.len(),
            sorted@ == old(sorted)@,
            slot_for(sorted@, p.key) == pos + slot_for(
                sorted@.subrange(pos as int, sorted@.len() as int),
                p.key,
            ),
        decreases sorted@.len() - pos,
    {
        proof {
            let tail = sorted@.subrange(pos as int, sorted@.len() as int);
            assert(tail.drop_first() == sorted@.subrange(pos + 1, sorted@.len() as int));
        }
        pos = pos + 1;
    }
    sorted.insert(pos, p);
}

} // verus!
