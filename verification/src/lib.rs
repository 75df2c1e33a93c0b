//! Consistent whole-file snapshots of files that may change while they are read.
//!
//! A [`ConsistentBufReader`] holds the bytes of a file that were observed
//! unchanged on two consecutive whole-file reads, and hands them out through a
//! single forward-only cursor.

pub mod error;
pub mod laws;
pub mod reader;
pub mod sampler;
pub mod text;

pub use error::{InconsistentReadError, LineError};
pub use reader::ConsistentBufReader;
pub use sampler::{ReadOutcome, Sampler, Step, DEFAULT_RETRY_COUNT};
