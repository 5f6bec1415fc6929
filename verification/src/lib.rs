//! Operation log and inline-markup detector of a rich-text note editor.
//!
//! The editor keeps no rendered buffer on disk. Every edit becomes an
//! operation in an append-only log, and a document is whatever replaying that
//! log from an empty buffer yields. While the user types, a small state
//! machine watches for `*word*` and `**word**`, removes the marker characters
//! and applies a formatting tag to the text between them.
//!
//! - [`text_ops`]: the operations and the events of the text widget.
//! - [`tags`]: the markup detector.
//! - [`document`]: the document that operations act on.
//! - [`replay`]: carrying out operations, one or a whole log.
//! - [`markup`]: what the detector's operations do to a document.
//! - [`codec`] and [`codec_laws`]: the stored form of a log.
//! - [`oplog`]: the append-only log.
//! - [`session`]: document, log and detector driven by events.

pub mod text_ops;
pub mod tags;
pub mod document;
pub mod replay;
pub mod markup;
pub mod codec;
pub mod codec_laws;
pub mod oplog;
pub mod session;
