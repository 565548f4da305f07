//! A circuit as a graph: nodes, ideal wires, and two-terminal components
//! (resistors, capacitors, inductors, voltage and current sources), with the
//! bookkeeping that keeps every reference between them consistent.

pub mod quantity;
pub mod component;
pub mod node;
pub mod wire;
pub mod circuit;
