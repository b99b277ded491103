//! One tick of a population: every particle in store order takes its turn.
//!
//! In its turn a particle is tested against each of its partners in store
//! order, as the partners are by then; a test may change both. Then the
//! particle advances and is written back to its slot. What a test and an
//! advance do to the state of a particle is the caller's: the tick takes both
//! as functions and fixes the order in which they are applied and what each of
//! them gets to see.

use crate::particle::Particle;
use crate::population::{partners_of, well_formed, Population};
use vstd::prelude::*;

verus! {

/// `s` with the state of the particle in `slot` replaced by `body`.
pub open spec fn with_body<T>(s: Seq<Particle<T>>, slot: int, body: T) -> Seq<Particle<T>> {
    s.update(slot, Particle { id: s[slot].id, key: s[slot].key, body })
}

/// `b` holds the particles of `a` slot by slot, with whatever state.
pub open spec fn same_frame<T>(a: Seq<Particle<T>>, b: Seq<Particle<T>>) -> bool {
    &&& a.len() == b.len()
    &&& forall|slot: int| 0 <= slot < a.len() ==> a[slot].id == b[slot].id && a[slot].key == b[slot].key
}

/// One test of a subject against the particle in `slot` can lead from
/// `subject` and `store` to `subject_after` and `store_after`: where the test
/// finds a collision, both get the state it returns; where it finds none,
/// nothing changes.
pub open spec fn tested<T, C: Fn(T, T) -> Option<(T, T)>>(
    collide: C,
    subject: T,
    store: Seq<Particle<T>>,
    slot: int,
    subject_after: T,
    store_after: Seq<Particle<T>>,
) -> bool {
    exists|outcome: Option<(T, T)>|
        {
            &&& #[trigger] call_ensures(collide, (subject, store[slot].body), outcome)
            &&& match outcome {
                Some((s, o)) => subject_after == s && store_after == with_body(store, slot, o),
                None => subject_after == subject && store_after == store,
            }
        }
}

/// The tests of the particle in slot `own` against its first `done` partners
/// can lead from the store `before` to `subject` and `store`.
pub open spec fn resolved<T, C: Fn(T, T) -> Option<(T, T)>>(
    collide: C,
    before: Seq<Particle<T>>,
    own: int,
    done: nat,
    subject: T,
    store: Seq<Particle<T>>,
) -> bool
    decreases done,
{
    if done == 0 {
        subject == before[own].body && store == before
    } else {
        exists|earlier: T, store_earlier: Seq<Particle<T>>|
            {
                &&& resolved(collide, before, own, (done - 1) as nat, earlier, store_earlier)
                &&& #[trigger] tested(
                    collide,
                    earlier,
                    store_earlier,
                    partners_of(before.len(), own)[done - 1] as int,
                    subject,
                    store,
                )
            }
    }
}

/// The turn of the particle in slot `own` can lead from `before` to `after`:
/// it is tested against every partner, advances, and is written back.
pub open spec fn turned<T, C: Fn(T, T) -> Option<(T, T)>, A: Fn(T) -> T>(
    collide: C,
    advance: A,
    before: Seq<Particle<T>>,
    own: int,
    after: Seq<Particle<T>>,
) -> bool {
    exists|subject: T, store: Seq<Particle<T>>, body: T|
        {
            &&& #[trigger] resolved(
                collide,
                before,
                own,
                (before.len() - 1) as nat,
                subject,
                store,
            )
            &&& #[trigger] call_ensures(advance, (subject,), body)
            &&& after == with_body(store, own, body)
        }
}

/// The turns of the first `done` slots can lead from `start` to `now`.
pub open spec fn ticked<T, C: Fn(T, T) -> Option<(T, T)>, A: Fn(T) -> T>(
    collide: C,
    advance: A,
    start: Seq<Particle<T>>,
    done: nat,
    now: Seq<Particle<T>>,
) -> bool
    decreases done,
{
    if done == 0 {
        now == start
    } else {
        exists|earlier: Seq<Particle<T>>|
            {
                &&& ticked(collide, advance, start, (done - 1) as nat, earlier)
                &&& #[trigger] turned(collide, advance, earlier, done - 1, now)
            }
    }
}

/// One more test carries the tests of a turn one partner further.
pub proof fn lemma_resolved_step<T, C: Fn(T, T) -> Option<(T, T)>>(
    collide: C,
    before: Seq<Particle<T>>,
    own: int,
    done: nat,
    earlier: T,
    store_earlier: Seq<Particle<T>>,
    subject: T,
    store: Seq<Particle<T>>,
)
    requires
        resolved(collide, before, own, done, earlier, store_earlier),
        tested(
            collide,
            earlier,
            store_earlier,
            partners_of(before.len(), own)[done as int] as int,
            subject,
            store,
        ),
    ensures
        resolved(collide, before, own, done + 1, subject, store),
{
    let next = (done + 1) as nat;
    assert(tested(
        collide,
        earlier,
        store_earlier,
        partners_of(before.len(), own)[next - 1] as int,
        subject,
        store,
    ));
}

/// One more turn carries a tick one slot further.
pub proof fn lemma_ticked_step<T, C: Fn(T, T) -> Option<(T, T)>, A: Fn(T) -> T>(
    collide: C,
    advance: A,
    start: Seq<Particle<T>>,
    done: nat,
    earlier: Seq<Particle<T>>,
    now: Seq<Particle<T>>,
)
    requires
        ticked(collide, advance, start, done, earlier),
        turned(collide, advance, earlier, done as int, now),
    ensures
        ticked(collide, advance, start, done + 1, now),
{
    let next = (done + 1) as nat;
    assert(turned(collide, advance, earlier, next - 1, now));
}

/// `collide` has one outcome for each pair of states.
pub open spec fn collide_is_function<T, C: Fn(T, T) -> Option<(T, T)>>(collide: C) -> bool {
    forall|a: T, b: T, x: Option<(T, T)>, y: Option<(T, T)>|
        #![trigger call_ensures(collide, (a, b), x), call_ensures(collide, (a, b), y)]
        call_ensures(collide, (a, b), x) && call_ensures(collide, (a, b), y) ==> x == y
}

/// `advance` has one outcome for each state.
pub open spec fn advance_is_function<T, A: Fn(T) -> T>(advance: A) -> bool {
    forall|a: T, x: T, y: T|
        #![trigger call_ensures(advance, (a,), x), call_ensures(advance, (a,), y)]
        call_ensures(advance, (a,), x) && call_ensures(advance, (a,), y) ==> x == y
}

/// Where `collide` is a function, the tests of a turn have one outcome.
pub proof fn lemma_resolved_determined<T, C: Fn(T, T) -> Option<(T, T)>>(
    collide: C,
    before: Seq<Particle<T>>,
    own: int,
    done: nat,
    subject: T,
    store: Seq<Particle<T>>,
    subject_too: T,
    store_too: Seq<Particle<T>>,
)
    requires
        collide_is_function(collide),
        resolved(collide, before, own, done, subject, store),
        resolved(collide, before, own, done, subject_too, store_too),
    ensures
        subject == subject_too,
        store == store_too,
    decreases done,
{
    if done > 0 {
        let slot = partners_of(before.len(), own)[done - 1] as int;
        let (e1, s1) = choose|e1: T, s1: Seq<Particle<T>>|
            {
                &&& resolved(collide, before, own, (done - 1) as nat, e1, s1)
                &&& #[trigger] tested(collide, e1, s1, slot, subject, store)
            };
        let (e2, s2) = choose|e2: T, s2: Seq<Particle<T>>|
            {
                &&& resolved(collide, before, own, (done - 1) as nat, e2, s2)
                &&& #[trigger] tested(collide, e2, s2, slot, subject_too, store_too)
            };
        lemma_resolved_determined(collide, before, own, (done - 1) as nat, e1, s1, e2, s2);
    }
}

/// Where `collide` and `advance` are functions, a tick has one outcome: the
/// population after it is a function of the population before it.
pub proof fn lemma_ticked_determined<T, C: Fn(T, T) -> Option<(T, T)>, A: Fn(T) -> T>(
    collide: C,
    advance: A,
    start: Seq<Particle<T>>,
    done: nat,
    now: Seq<Particle<T>>,
    now_too: Seq<Particle<T>>,
)
    requires
        collide_is_function(collide),
        advance_is_function(advance),
        ticked(collide, advance, start, done, now),
        ticked(collide, advance, start, done, now_too),
    ensures
        now == now_too,
    decreases done,
{
    if done > 0 {
        let own = done - 1;
        let e1 = choose|e1: Seq<Particle<T>>|
            {
                &&& ticked(collide, advance, start, (done - 1) as nat, e1)
                &&& #[trigger] turned(collide, advance, e1, own, now)
            };
        let e2 = choose|e2: Seq<Particle<T>>|
            {
                &&& ticked(collide, advance, start, (done - 1) as nat, e2)
                &&& #[trigger] turned(collide, advance, e2, own, now_too)
            };
        lemma_ticked_determined(collide, advance, start, (done - 1) as nat, e1, e2);
        let (subject1, store1, body1) = choose|subject: T, store: Seq<Particle<T>>, body: T|
            {
                &&& #[trigger] resolved(collide, e1, own, (e1.len() - 1) as nat, subject, store)
                &&& #[trigger] call_ensures(advance, (subject,), body)
                &&& now == with_body(store, own, body)
            };
        let (subject2, store2, body2) = choose|subject: T, store: Seq<Particle<T>>, body: T|
            {
                &&& #[trigger] resolved(collide, e1, own, (e1.len() - 1) as nat, subject, store)
                &&& #[trigger] call_ensures(advance, (subject,), body)
                &&& now_too == with_body(store, own, body)
            };
        lemma_resolved_determined(
            collide,
            e1,
            own,
            (e1.len() - 1) as nat,
            subject1,
            store1,
            subject2,
            store2,
        );
    }
}

/// Where no test finds a collision, the tests of a turn change nothing.
pub proof fn lemma_resolved_quiet<T, C: Fn(T, T) -> Option<(T, T)>>(
    collide: C,
    before: Seq<Particle<T>>,
    own: int,
    done: nat,
    subject: T,
    store: Seq<Particle<T>>,
)
    requires
        forall|a: T, b: T, outcome: Option<(T, T)>|
            call_ensures(collide, (a, b), outcome) ==> outcome is None,
        resolved(collide, before, own, done, subject, store),
    ensures
        subject == before[own].body,
        store == before,
    decreases done,
{
    if done > 0 {
        let (earlier, store_earlier) = choose|earlier: T, store_earlier: Seq<Particle<T>>|
            {
                &&& resolved(collide, before, own, (done - 1) as nat, earlier, store_earlier)
                &&& #[trigger] tested(
                    collide,
                    earlier,
                    store_earlier,
                    partners_of(before.len(), own)[done - 1] as int,
                    subject,
                    store,
                )
            };
        lemma_resolved_quiet(collide, before, own, (done - 1) as nat, earlier, store_earlier);
    }
}

/// Where no test finds a collision, a tick is one advance for each particle:
/// after the turns of the first `done` slots, those slots hold what `advance`
/// made of their particles, and the slots behind them are as they were.
pub proof fn lemma_ticked_quiet<T, C: Fn(T, T) -> Option<(T, T)>, A: Fn(T) -> T>(
    collide: C,
    advance: A,
    start: Seq<Particle<T>>,
    done: nat,
    now: Seq<Particle<T>>,
)
    requires
        forall|a: T, b: T, outcome: Option<(T, T)>|
            call_ensures(collide, (a, b), outcome) ==> outcome is None,
        done <= start.len(),
        ticked(collide, advance, start, done, now),
    ensures
        same_frame(start, now),
        forall|slot: int|
            0 <= slot < done ==> call_ensures(advance, (start[slot].body,), (#[trigger] now[slot]).body),
        forall|slot: int| done <= slot < start.len() ==> #[trigger] now[slot] == start[slot],
    decreases done,
{
    if done > 0 {
        let own = done - 1;
        let earlier = choose|earlier: Seq<Particle<T>>|
            {
                &&& ticked(collide, advance, start, (done - 1) as nat, earlier)
                &&& #[trigger] turned(collide, advance, earlier, done - 1, now)
            };
        lemma_ticked_quiet(collide, advance, start, (done - 1) as nat, earlier);
        let (subject, store, body) = choose|subject: T, store: Seq<Particle<T>>, body: T|
            {
                &&& #[trigger] resolved(
                    collide,
                    earlier,
                    own,
                    (earlier.len() - 1) as nat,
                    subject,
                    store,
                )
                &&& #[trigger] call_ensures(advance, (subject,), body)
                &&& now == with_body(store, own, body)
            };
        lemma_resolved_quiet(collide, earlier, own, (earlier.len() - 1) as nat, subject, store);
    }
}

/// A particle that is alone has no partner: its tick is one advance.
pub proof fn lemma_lone_tick<T, C: Fn(T, T) -> Option<(T, T)>, A: Fn(T) -> T>(
    collide: C,
    advance: A,
    start: Seq<Particle<T>>,
    now: Seq<Particle<T>>,
)
    requires
        start.len() == 1,
        ticked(collide, advance, start, 1, now),
    ensures
        same_frame(start, now),
        call_ensures(advance, (start[0].body,), now[0].body),
{
    let earlier = choose|earlier: Seq<Particle<T>>|
        {
            &&& ticked(collide, advance, start, 0, earlier)
            &&& #[trigger] turned(collide, advance, earlier, 0, now)
        };
    assert(earlier == start);
}

impl<T: Copy> Population<T> {
    /// One tick. Every particle in store order takes its turn: it is tested
    /// with `collide` against each partner in store order, as the partner is
    /// by then, and where `collide` returns new states, the particle goes on
    /// with the first and the partner gets the second at once; then the
    /// particle is handed to `advance` and written back to its slot.
    /// Identities, keys and slots stay as they are.
    pub fn tick<C: Fn(T, T) -> Option<(T, T)>, A: Fn(T) -> T>(&mut self, collide: C, advance: A)
        requires
            forall|a: T, b: T| call_requires(collide, (a, b)),
            forall|a: T| call_requires(advance, (a,)),
        ensures
            ticked(collide, advance, old(self)@, old(self)@.len(), final(self)@),
            same_frame(old(self)@, final(self)@),
            well_formed(final(self)@),
    {
        let ghost start = self@;
        let count = self.len();
        let mut own: usize = 0;
        while own < count
            invariant
                own <= count,
                count == self@.len(),
                forall|a: T, b: T| call_requires(collide, (a, b)),
                forall|a: T| call_requires(advance, (a,)),
                ticked(collide, advance, start, own as nat, self@),
                same_frame(start, self@),
            decreases count - own,
        {
            let ghost before = self@;
            let others = self.partners(own);
            let mut subject = self.particle(own).body;
            let mut done: usize = 0;
            while done < others.len()
                invariant
                    done <= others@.len(),
                    own < count,
                    count == self@.len(),
                    count == before.len(),
                    others@ == partners_of(count as nat, own as int),
                    forall|a: T, b: T| call_requires(collide, (a, b)),
                    resolved(collide, before, own as int, done as nat, subject, self@),
                    same_frame(before, self@),
                decreases others@.len() - done,
            {
                let ghost earlier = subject;
                let ghost store_earlier = self@;
                let slot = others[done];
                let other = self.particle(slot).body;
                let outcome = collide(subject, other);
                match outcome {
                    Some((s, o)) => {
                        subject = s;
                        self.set_body(slot, o);
                    },
                    None => {},
                }
                proof {
                    lemma_resolved_step(
                        collide,
                        before,
                        own as int,
                        done as nat,
                        earlier,
                        store_earlier,
                        subject,
                        self@,
                    );
                }
                done = done + 1;
            }
            let body = advance(subject);
            self.set_body(own, body);
            proof {
                lemma_ticked_step(collide, advance, start, own as nat, before, self@);
            }
            own = own + 1;
        }
        proof {
            use_type_invariant(&*self);
        }
    }
}

} // verus!
