//! Core of a deterministic reactor runtime: identifiers, ports, actions,
//! the assembly of the reaction dependency graphs, and the logical-time
//! scheduler with its reaction waves.

pub mod action;
pub mod assembler;
pub mod bitset;
pub mod error;
pub mod flowgraph;
pub mod graph;
pub mod ids;
pub mod link;
pub mod ports;
pub mod queue;
pub mod scheduler;
pub mod time;
pub mod wave;
