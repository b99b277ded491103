//! What the store holds: particles with an identity, made from spawns.

use vstd::prelude::*;

verus! {

/// A freshly sampled particle that has no identity yet.
///
/// `key` orders the population at creation: a particle with a smaller key
/// stands before one with a larger key. `body` is the particle's state, which
/// the store carries and never reads.
#[derive(Debug, PartialEq)]
pub struct Spawn<T> {
    pub key: i64,
    pub body: T,
}

/// A live particle: a spawn together with the identity it was given.
#[derive(Debug, PartialEq)]
pub struct Particle<T> {
    pub id: usize,
    pub key: i64,
    pub body: T,
}

/// The identities of `s`, slot by slot.
pub open spec fn ids_of<T>(s: Seq<Particle<T>>) -> Seq<usize> {
    s.map_values(|p: Particle<T>| p.id)
}

/// The spawns of `spawns` in their order, the one at position `k` with the
/// identity `ids[k]`.
pub open spec fn tagged<T>(spawns: Seq<Spawn<T>>, ids: Seq<usize>) -> Seq<Particle<T>>
    recommends
        ids.len() == spawns.len(),
{
    Seq::new(
        spawns.len(),
        |k: int| Particle { id: ids[k], key: spawns[k].key, body: spawns[k].body },
    )
}

/// What is left of `s` when the identities are taken away.
pub open spec fn untagged<T>(s: Seq<Particle<T>>) -> Seq<Spawn<T>> {
    s.map_values(|p: Particle<T>| Spawn { key: p.key, body: p.body })
}

} // verus!
