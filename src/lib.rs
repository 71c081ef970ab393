//! A byte-stream adapter over a framed, encrypted channel.
//!
//! [`Output`] holds the buffering state of one secured connection: the
//! decoded frame that reads are served from, and the plaintext that writes
//! accumulate until a whole frame can be handed to the channel. The channel
//! itself is driven by the caller, who asks the adapter what to do next and
//! reports back what the channel answered.

mod frame_bytes;
pub mod model;
pub mod laws;

mod output;

pub use output::{DecodedItem, Output, ReadError, ReadStep, MAX_FRAME_LEN};
