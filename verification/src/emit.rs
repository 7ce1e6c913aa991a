//! The artifacts that are generated for one member.

pub mod ceiling_ipt;
pub mod engine;
pub mod mark;
pub mod policy;
pub mod shape;
pub mod workload;
