//! The core of a small document search service: a tokenizer, an inverted
//! index with its snapshot, the queue, worker pool and scheduler that feed
//! the index, and the vocabulary of the wire protocol.
//!
//! Everything here is sequential and keeps no file or connection open: the
//! caller owns the threads, the locks and the disk, and asks the library
//! what to do next.

pub mod channel;
pub mod decimal;
pub mod inverted_index;
pub mod json;
pub mod protocol;
pub mod scheduler;
pub mod threadpool;

pub use crate::protocol::{STATE_FILE, UPLOADS_DIR};
