//! Evaluation engine for benchmarking automated trading agents against a
//! derivatives exchange.
//!
//! The crate scores how many distinct capabilities an agent exercised
//! (coverage) and verifies that an agent satisfied an ordered scenario of
//! expected effects (ground-truth validation). Both consume an already
//! serialized log of executed actions; neither performs I/O itself.
#![verifier::loop_isolation(false)]

pub mod diff;
pub mod hian;
pub mod normalize;
pub mod pattern;
pub mod plan;
pub mod record;
pub mod score;
pub mod sig;
pub mod text;
pub mod time;
