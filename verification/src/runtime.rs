//! The engine: insertion policies, the regroup pool, the scheduler and the
//! runtime that drives a batch.

pub mod executor;
pub mod policy;
pub mod regroup;
pub mod scheduler;

pub use policy::{
    AllPolicy, AlwaysInsertPolicy, AnyPolicy, InsertionPolicy, NeverInsertPolicy,
    PerSampleLimitPolicy, SaturationPolicy,
};
pub use regroup::RegroupPool;
pub use scheduler::{PriorityScheduler, WorkItem};
pub use executor::{CRuntimeConfig, Runtime, RuntimeConfig, RuntimeView, StepOutcome};
