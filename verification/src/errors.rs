//! Error taxonomy: configuration errors are surfaced as values here and the
//! surrounding program decides whether they are fatal.
use vstd::prelude::*;

verus! {

#[derive(Debug, Clone, Copy, PartialEq, Eq, Structural)]
pub enum BenchError {
    /// The raw key is longer than the fixed key width.
    KeyTooLarge,
    /// The key's payload is not valid UTF-8, so it has no string form.
    InvalidUtf8,
    /// The operation is deliberately unsupported by this structure.
    NotImplemented,
    /// No testcase is registered under the requested name.
    UnknownTestcase,
    /// No tree implementation is registered under the requested name.
    UnknownTree,
    /// The random generator failed to produce enough distinct keys within
    /// the drawing budget.
    KeyGeneration,
}

} // verus!
