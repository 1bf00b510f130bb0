//! A vectorized state-machine engine for Petri-net-style models.
//!
//! A graph-shaped model (places, transitions, arcs) is compiled into a dense
//! vector form, the [`machine::StateMachine`], which evaluates whether a given
//! transition may fire from a given marking under one of three firing
//! semantics (general Petri net, elementary safe net, workflow net).

pub mod compression;
pub mod laws;
pub mod machine;
pub mod model;
pub mod zblob;

pub use machine::{Guard, ModelType, StateMachine, Transaction, Transition, Vasm};
pub use model::PetriNet;
pub use zblob::Zblob;
