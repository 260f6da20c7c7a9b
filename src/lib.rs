//! Discrete-event simulation of the IEEE 802.11 Distributed Coordination
//! Function: stations contend for one shared channel with carrier sense,
//! collision avoidance and binary exponential backoff.

pub mod counting;
pub mod node;
pub mod scheduler;
pub mod theorems;
