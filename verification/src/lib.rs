//! Stage pipeline engine for batches of small-angle X-ray scattering curves.
//!
//! A batch of samples advances through numbered stages. A priority scheduler
//! hands the sample with the lowest stage counter to the handler registered
//! for its next stage; the handler answers with follow-up requests, an
//! insertion policy admits or rejects them, and a regroup pool gathers the
//! samples by stage for checkpoints and harvesting.
//!
//! Every abscissa, intensity and threshold is a fixed-point number: a signed
//! count of [`data::SCALE`]-ths of one unit. The engine compares and
//! subtracts these numbers exactly; fitting a peak is numerical work that a
//! handler outside this crate does, around the decisions of
//! [`stage::ProcessPeakStage`].

pub mod data;
pub mod runtime;
pub mod stage;
pub mod status;

pub use data::{FlowMetadata, Peak, Sample, SampleError, SampleMetadata};
pub use runtime::{InsertionPolicy, PriorityScheduler, RegroupPool, Runtime, RuntimeConfig};
pub use stage::{Stage, StageId, StageRegistry, StageRequest, StageResult};
pub use status::SaxsStatus;
