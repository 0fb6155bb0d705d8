//! Policy DNS for supervised sandboxes.
//!
//! The decisions of a supervisor's policy DNS, each with a contract that Verus proves: which
//! addresses it hands out, which resolver it trusts, whether it answers with IPv6 addresses, and
//! what its listeners do next. Reading files, sockets and clocks is left to the caller.

pub mod address;
pub mod backoff;
pub mod cidr;
pub mod config;
pub mod egress;
pub mod mediation;
pub mod report;
pub mod resolver;
pub mod routes;
pub mod tcp;
pub mod text;
pub mod udp;
