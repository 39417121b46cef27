//! Parallel block fetch. Workers claim consecutive sub-ranges ("plan chunks") of
//! the requested range and stream them, splitting each stream into sub-chunks of
//! a bounded size. A reorder stage releases the sub-chunks strictly in order.
pub mod detector;
pub mod gate;
pub mod plan;
pub mod pump;
pub mod release;
pub mod splitter;
pub mod window;
pub mod worker;
pub use detector::WireDetector;
pub use gate::{AcquireOutcome, AdmitStep, AheadGate};
pub use plan::{FetchPlan, WireFailoverArm};
pub use pump::{PlanChunkCursor, Pump, SubChunk};
pub use release::{Continuity, ReleaseStage, ReleaseSummary, Released};
pub use splitter::ChunkSplitter;
pub use window::WireWindow;
pub use worker::{after_failure, complete_fetch, FetchEvent, FetchStats, FetchSupervisor, RetryStep, SuperviseStep};
