//! A scrollable history over a live stream of fixed-size sample chunks.
//!
//! Chunks are grouped into pages; a window of resident pages is kept in
//! memory, and pages outside it are written to and read back from a keyed
//! store that the embedding program runs on the library's behalf.
use vstd::prelude::*;

pub mod buffer;
pub mod chunk;
pub mod laws;
pub mod recorder;
pub mod ring;
pub mod store;
pub mod timeline;
pub mod view;
pub mod window;

pub use buffer::Buffer;
pub use chunk::Chunk;
pub use ring::RingBuffer;
pub use store::{Data, FetchHandle, RequestModel, StoreRequest};
pub use recorder::Recorder;
pub use timeline::{tick_sequence, Step, StepIter, Tick, Timeline};
pub use view::View;

verus! {

/// A range whose end does not lie after its start.
#[derive(Clone, Copy, Debug, PartialEq, Eq, Structural)]
pub enum RangeError {
    InvalidRange,
}

} // verus!
