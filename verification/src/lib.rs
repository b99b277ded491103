//! Bookkeeping core of a two-dimensional particle simulation.
//!
//! The library owns the live population of particles. It hands out the
//! identities, keeps the store order, decides when a population is created or
//! discarded, and runs the tick: the order in which the particles take their
//! turns, whom each is tested against, and when a changed state becomes
//! visible to the others. The physical state of a particle is a type
//! parameter, and what a collision or a time step does to it comes from the
//! caller, so that the numeric side of a simulation stays outside.

pub mod order;
pub mod particle;
pub mod pool;
pub mod population;
pub mod simulation;
pub mod tick;
