//! Simulation core of a small real-time 3D engine.
//!
//! The crate holds a tree of entities whose components live in a store,
//! the systems that advance physics and flatten the hierarchy of
//! transforms once per tick, and the rules by which a system is scheduled.
//!
//! * [`math`] has the reals and vectors that the physics computes with.
//!   All arithmetic goes through the [`math::scalar::Scalar`] trait, so the
//!   crate itself fixes no number representation; what it proves about a
//!   computed value is which operations, in which order, produced it.
//!   Where an intermediate result is computed more finely than it is kept,
//!   as the magnitude of gravity is, [`math::scalar::Widen`] names the
//!   wider reals.
//! * [`world`] has the entities, their components and the systems.
//! * [`input`] has the device events and the controllers that read them.
//! * [`state`] has what the frame loop shows about itself.
//!
//! The store is owned by one holder. Borrowing it shared is read access to
//! every record, borrowing it mutably is write access for one holder at a
//! time; a program that runs its systems on threads of their own guards
//! the store with a lock and hands each system the store for one tick.

pub mod input;
pub mod math;
pub mod state;
pub mod world;
