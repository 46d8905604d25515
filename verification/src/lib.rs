//! Control loops for autoregressive sequence generation.
//!
//! Two generators share one way of working: a causal text generator that grows
//! a single token sequence over an incremental cache, and a speech transcriber
//! that decodes a long recording window by window. The models themselves are
//! collaborators behind traits; what is verified here is how tokens are chosen,
//! how the sequence and the cursor move from step to step, and when a run stops.

pub mod decoder;
pub mod error;
pub mod files;
pub mod mask;
pub mod sampler;
pub mod score;
pub mod text;
pub mod vocab;
pub mod window;
