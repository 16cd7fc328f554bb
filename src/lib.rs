//! A verified core for Maelstrom nodes: the wire model, node state, the
//! dispatch decisions of the runtime, the echo and broadcast workloads and
//! the reliable gossip engine, with a model of a whole cluster in which
//! broadcast values reach every node. Reading and writing lines, threads,
//! clocks and JSON encoding are left to the program that hosts this library:
//! it passes the library parsed messages and the time, and writes out the
//! messages it gets back.

pub mod node;
pub mod protocol;
pub mod gossip;
pub mod broadcast;
pub mod echo;
pub mod server;
pub mod convergence;
