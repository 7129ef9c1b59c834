//! A fixed-memory relay for 16-bit audio samples: capture buffers drawn from a
//! bounded pool travel through a network sink and a storage sink and return to
//! the pool, with every step stated and proved.

pub mod codec;
pub mod error;
pub mod sample_buffer;
pub mod chunking;
pub mod throughput;
pub mod sink;
pub mod state;
pub mod model;
pub mod invariants;
pub mod lifecycle;
pub mod pipeline;
pub mod stream;
