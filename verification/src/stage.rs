//! Stages: the protocol between the scheduler and the handlers it runs.

pub mod find_peak;
pub mod process_peak;
pub mod registry;
pub mod traits;

pub use find_peak::{filter_by_distance, FindPeakConfig, FindPeakStage};
pub use process_peak::{ProcessPeakConfig, ProcessPeakStage};
pub use registry::StageRegistry;
pub use traits::{
    fits, keeps_books, name_of, obeys_protocol, Stage, StageId, StageRequest, StageResult,
};
