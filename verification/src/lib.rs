//! A DNS reconnaissance engine: wildcard-aware brute-force subdomain
//! enumeration, zone transfers, and raw record-type queries, built around a
//! rate- and concurrency-bounded query pipeline that tolerates per-item
//! failure.
//!
//! The library holds the engine's logic: scheduling budgets, outcome
//! aggregation, name-server list construction, and record rendering. The
//! network transports and the process edge live outside it and drive the
//! engine through its public state machines.

pub mod aggregate;
pub mod brute;
pub mod budget;
pub mod bulk;
pub mod ip;
pub mod nameservers;
pub mod numtext;
pub mod pipeline;
pub mod records;
