//! Client-side experiment enrollment: deterministic bucketing of an
//! installation, targeting rules over the application context, branch
//! selection, and the decisions that keep enrollment stable across restarts
//! and catalog refreshes.

pub mod bucketing;
pub mod engine;
pub mod error;
pub mod experiment;
pub mod matcher;

pub use bucketing::{branch_index, bucket, Identifier, BUCKET_SPACE_SIZE};
pub use error::Error;
pub use experiment::{Branch, Bucket, EnrolledExperiment, Experiment};
pub use matcher::{compare_versions, matches_rule, parse_version, AppContext, Matcher};
pub use engine::{Experiments, PersistedData, Startup, PERSISTED_KEY};
