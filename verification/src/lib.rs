//! Merkle commitment trees over batches of announcement records.

pub mod ann;
pub mod commit;
pub mod dedup;
pub mod plan;
pub mod tree;

pub use ann::AnnData;
pub use plan::{ComputePlan, EngineEntry, PairOp, TreeLevel};
pub use tree::{CompleteError, ComputeError, ProofTree, QueryError};
