//! The logic of a network support toolkit for MikroTik routers: reading
//! ping and traceroute output, the batch files that start the tests, free
//! addresses and segments, the latency report, the saved credentials and the
//! configuration files, and the decisions of the menus.
use vstd::prelude::*;

pub mod text;
pub mod ping;
pub mod cli;
pub mod launcher;
pub mod ip;
pub mod report;
pub mod credentials;
pub mod json;
pub mod backup;
pub mod menu;
pub mod trace;
pub mod clock;

verus! {
} // verus!
