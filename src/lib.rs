//! Idempotent mirroring of activity records from several services into
//! datapoints of a goal tracker.
//!
//! The library holds the decisions of every synchronisation run: how far
//! back a source is queried, how a source record becomes a datapoint, which
//! datapoints are already mirrored, in which order the missing ones are
//! created, and how a day's stored judgment is corrected. The network calls
//! themselves are made by the caller, which hands the fetched records in and
//! carries out the returned plan.
use vstd::prelude::*;

pub mod activity;
pub mod aggregate;
pub mod append;
pub mod calendar;
pub mod config;
pub mod datapoint;
pub mod dedup;
pub mod records;
pub mod report;
pub mod text;
pub mod watermark;

pub use activity::{get_prompt, sum_duration_by_title, Event, EventData};
pub use aggregate::{Correction, Judgment};
pub use append::{plan_append, AppendPlan};
pub use config::{
    AmazingMarvinCredentials, CategorySyncConfig, FatebookConfig, FocusmateConfig,
    GetQuestionsConfig, GitHubConfig, Key,
};
pub use datapoint::{CanonicalDatapoint, MappingError, TargetDatapoint};
pub use dedup::KeyStrategy;
pub use records::{find_matching_tags, Commit, Question};

verus! {

} // verus!
