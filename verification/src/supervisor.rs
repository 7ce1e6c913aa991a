//! The supervisor: the children it keeps running, what it reports of them, and what it answers.

pub mod child;
pub mod conduct;
pub mod lock;
pub mod metrics;
pub mod report;
pub mod sock;
pub mod workload;
