//! A run of the simulation: stopped while it holds no particle, running while
//! it holds some.

use crate::order::by_key;
use crate::particle::{tagged, Particle, Spawn};
use crate::pool::is_permutation_of_range;
use crate::population::{well_formed, Population};
use crate::tick::{same_frame, ticked};
use vstd::prelude::*;

verus! {

/// The two states of a run.
#[derive(Clone, Copy, Debug, PartialEq, Eq, Structural)]
pub enum Phase {
    /// No particle is alive.
    Stopped,
    /// The population is alive and takes part in every tick.
    Running,
}

/// What a frame has to do with the population before its tick.
#[derive(Clone, Copy, Debug, PartialEq, Eq, Structural)]
pub enum Directive {
    /// Discard the population.
    Discard,
    /// Sample this many spawns and start a population from them.
    Populate { count: usize },
    /// Leave the population as it is.
    Proceed,
}

/// How an attempt to start a population ended.
#[derive(Clone, Copy, Debug, PartialEq, Eq, Structural)]
pub enum Started {
    /// The population was created from the spawns.
    Created,
    /// A population is alive; it was left as it is.
    AlreadyRunning,
    /// The number of spawns is not the configured number of particles; nothing
    /// was created.
    CountMismatch,
}

/// The state of a run as contracts see it.
pub struct SimulationState<T> {
    /// The configured number of particles.
    pub target: usize,
    /// The live particles in store order.
    pub particles: Seq<Particle<T>>,
}

/// The phase that goes with a population.
pub open spec fn phase_of<T>(particles: Seq<Particle<T>>) -> Phase {
    if particles.len() == 0 {
        Phase::Stopped
    } else {
        Phase::Running
    }
}

/// What a frame does in a state, given whether the user asks for a stop: a
/// stop discards, a run without particles spawns the configured number, and a
/// run with particles goes on.
pub open spec fn directive_for<T>(state: SimulationState<T>, stop: bool) -> Directive {
    if stop {
        Directive::Discard
    } else if state.particles.len() == 0 {
        Directive::Populate { count: state.target }
    } else {
        Directive::Proceed
    }
}

/// A run: the configured number of particles and the live population.
pub struct Simulation<T> {
    target: usize,
    population: Population<T>,
}

impl<T> View for Simulation<T> {
    type V = SimulationState<T>;

    closed spec fn view(&self) -> SimulationState<T> {
        SimulationState { target: self.target, particles: self.population@ }
    }
}

impl<T> Simulation<T> {
    /// A stopped run that is configured for `target` particles.
    pub fn new(target: usize) -> (sim: Self)
        ensures
            sim@.target == target,
            sim@.particles == Seq::<Particle<T>>::empty(),
    {
        Simulation { target, population: Population::new() }
    }

    /// The configured number of particles.
    pub fn target(&self) -> (count: usize)
        ensures
            count == self@.target,
    {
        self.target
    }

    /// Configures the number of particles of the next population. The live
    /// population keeps its size.
    pub fn set_target(&mut self, count: usize)
        ensures
            final(self)@.target == count,
            final(self)@.particles == old(self)@.particles,
    {
        self.target = count;
    }

    /// The live population.
    pub fn population(&self) -> (pop: &Population<T>)
        ensures
            pop@ == self@.particles,
    {
        &self.population
    }

    /// Whether the run is stopped or running.
    pub fn phase(&self) -> (phase: Phase)
        ensures
            phase == phase_of(self@.particles),
    {
        if self.population.is_empty() {
            Phase::Stopped
        } else {
            Phase::Running
        }
    }

    /// What the next frame has to do before its tick.
    pub fn directive(&self, stop: bool) -> (directive: Directive)
        ensures
            directive == directive_for(self@, stop),
    {
        if stop {
            Directive::Discard
        } else if self.population.is_empty() {
            Directive::Populate { count: self.target }
        } else {
            Directive::Proceed
        }
    }

    /// Stops the run: the whole population is discarded. A stopped run stays
    /// as it is.
    pub fn stop(&mut self)
        ensures
            final(self)@.target == old(self)@.target,
            final(self)@.particles == Seq::<Particle<T>>::empty(),
            phase_of(old(self)@.particles) == Phase::Stopped ==> final(self)@ == old(self)@,
    {
        self.population.clear();
        proof {
            if old(self)@.particles.len() == 0 {
                assert(self@.particles =~= old(self)@.particles);
            }
        }
    }

    /// Starts a population from the given spawns. This happens only in a
    /// stopped run and only with as many spawns as particles are configured;
    /// otherwise the run stays as it is and the spawns are dropped.
    pub fn start(&mut self, spawns: Vec<Spawn<T>>) -> (outcome: Started)
        ensures
            final(self)@.target == old(self)@.target,
            old(self)@.particles.len() > 0 ==> outcome == Started::AlreadyRunning,
            old(self)@.particles.len() == 0 && spawns@.len() != old(self)@.target ==> outcome
                == Started::CountMismatch,
            old(self)@.particles.len() == 0 && spawns@.len() == old(self)@.target ==> outcome
                == Started::Created,
            outcome != Started::Created ==> final(self)@ == old(self)@,
            outcome == Started::Created ==> {
                &&& final(self)@.particles.len() == old(self)@.target
                &&& well_formed(final(self)@.particles)
                &&& exists|ids: Seq<usize>|
                    is_permutation_of_range(ids, spawns@.len()) && final(self)@.particles == by_key(
                        tagged(spawns@, ids),
                    )
            },
    {
        if !self.population.is_empty() {
            Started::AlreadyRunning
        } else if spawns.len() != self.target {
            Started::CountMismatch
        } else {
            self.population = Population::create(spawns);
            Started::Created
        }
    }
}

impl<T: Copy> Simulation<T> {
    /// One tick of the live population: every particle in store order is
    /// tested against its partners, advances and is written back. A stopped
    /// run has no particle, and its tick does nothing.
    pub fn tick<C: Fn(T, T) -> Option<(T, T)>, A: Fn(T) -> T>(&mut self, collide: C, advance: A)
        requires
            forall|a: T, b: T| call_requires(collide, (a, b)),
            forall|a: T| call_requires(advance, (a,)),
        ensures
            final(self)@.target == old(self)@.target,
            ticked(
                collide,
                advance,
                old(self)@.particles,
                old(self)@.particles.len(),
                final(self)@.particles,
            ),
            same_frame(old(self)@.particles, final(self)@.particles),
            well_formed(final(self)@.particles),
            old(self)@.particles.len() == 0 ==> final(self)@ == old(self)@,
    {
        self.population.tick(collide, advance);
    }
}

} // verus!
