//! The verified core of the LongMemCode benchmark: scoring and aggregating
//! adapter answers, the decisions of the two reference adapters, and the
//! generation of benchmark scenarios from a code graph.

use vstd::prelude::*;

pub mod text;
pub mod cli;
pub mod scan;
pub mod protocol;
pub mod grep;
pub mod ids;
pub mod scoring;
pub mod stats;
pub mod report;
pub mod argos;
pub mod corpus;
pub mod ranking;
pub mod scenario;
pub mod generators;
pub mod taxonomy;

verus! {
} // verus!
