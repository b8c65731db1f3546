//! Verified core of a messaging kernel: the Qiss binary format and the
//! Precursor broker's state machines.

pub mod broker;
pub mod qiss;
pub mod runtime;
pub mod migration;
