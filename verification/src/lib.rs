//! A backup scheduling and execution engine: recurring mirror-copy jobs
//! with skip filters, an optional archive step, tick-based due-ness
//! evaluation, at-most-one run in flight per job, and a plain-text
//! persisted form of the job collection.
pub mod clock;
pub mod codec;
pub mod control;
pub mod filter;
pub mod job;
pub mod paths;
pub mod plan;
pub mod text;
