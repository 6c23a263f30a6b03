//! A key/value search-tree engine over a fixed-width key codec, together
//! with the benchmark harness that drives trees under phased workloads:
//! deterministic per-thread key generation, phase timing and reporting, a
//! counting phase barrier, and cross-thread aggregation of throughput.
//! Every data structure and every rule of the harness carries a contract
//! checked by Verus; the host program around it only parses arguments,
//! spawns workers and prints.
use vstd::prelude::*;

pub mod binary_search_tree;
pub mod clock;
pub mod digits;
pub mod errors;
pub mod fix_sized_key;
pub mod interface;
pub mod quick_istr;
pub mod rng;
pub mod testcases;
pub mod testclient;
pub mod testrunner;

verus! {

/// Number of bytes in a fixed-width key under the default parameters.
pub const DEFAULT_KEY_SIZE: usize = 16;

} // verus!
