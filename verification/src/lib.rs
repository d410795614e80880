//! Buffered access to a forward-only byte source with a limited seek
//! capability.
//!
//! [`BufStreamReader`] wraps a [`ByteSource`] — a provider that can only hand
//! out bytes in order, such as a network stream or a pipe — and adds
//! positional access on top of it, so that it can feed consumers (binary
//! parsers, for instance) that need to seek.
//!
//! Seeking is limited by the following constraints:
//!
//! - Only a small window of bytes is buffered (its size is the
//!   `buffer_size` parameter of [`BufStreamReader::new()`]).
//! - The end of the stream is never known, so seeking from the end is not
//!   supported.
//! - Seeking backward is allowed only while the targeted position is still
//!   within the current window; everything before the window is gone for
//!   good.
//!
//! The window is filled lazily: constructing a reader performs no read, and
//! a reader over an empty source fails with [`Error::Exhausted`] on the
//! first read or seek that needs data.

mod laws;
mod reader;
mod source;

pub use crate::laws::lemma_pending_depends_on_position;
pub use crate::laws::lemma_sequential_reads_compose;
pub use crate::reader::seek_target;
pub use crate::reader::BufStreamReader;
pub use crate::reader::Error;
pub use crate::reader::SeekFrom;
pub use crate::source::ByteSource;
pub use crate::source::MemorySource;
pub use crate::source::SourceError;
