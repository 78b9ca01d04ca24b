//! Execution core of a streaming, jq-like filter query language.
//!
//! Values flow through a pipeline of composable filter stages; each stage
//! consumes a stream of input values together with an evaluation context and
//! produces a stream of output values together with a possibly-updated
//! context. Raised exceptions are ordinary values multiplexed onto the same
//! stream.

pub mod rational;
pub mod util;
pub mod context;
pub mod channel;
pub mod filter;
pub mod value;
pub mod render;
