pub mod codec;
pub mod driver;
pub mod results;
pub mod resume;
pub mod store;

use vstd::prelude::*;

verus! {

/// The ways a benchmark run can fail.
#[derive(Clone, Copy, Debug, PartialEq, Eq, Structural)]
pub enum BenchError {
    /// A checkpoint or results file could not be read, written or synced.
    PersistenceError,
    /// A persisted checkpoint or results file exists but cannot be decoded.
    CorruptState,
    /// The checkpointed revision is absent from the current revision list.
    UnknownCheckpointRevision,
    /// An external build, checkout or patch sub-step failed.
    ExecutionError,
}

} // verus!
