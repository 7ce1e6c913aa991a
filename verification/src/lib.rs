//! The per-host runtime of a converged network fabric: the declaration and its rules, what is
//! derived and emitted from it, and the state machines that keep a member on the fabric.

pub mod cli;
pub mod decl;
pub mod derive;
pub mod emit;
pub mod engine;
pub mod error;
pub mod ipv4;
pub mod json;
pub mod model;
pub mod netlink;
pub mod prober;
pub mod sock_frame;
pub mod supervisor;
pub mod text;
pub mod textmap;
pub mod time;
