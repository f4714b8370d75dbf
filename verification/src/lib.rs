//! A polyglot document codec: one byte stream that is at the same time an
//! HTML page and a POSIX ustar archive.
//!
//! The tar side is built from 512-byte headers whose text fields double as
//! HTML markup; file payloads travel base64-encoded as element text. The
//! modules below split the work into the header codec, the escape byte
//! templates, the encoding engine, the decoder, and the document-level
//! tools that splice tar content into an input page and recover it from a
//! saved copy.

pub mod b64;
pub mod builder;
pub mod bytes;
pub mod decompiler;
pub mod document;
pub mod dom;
pub mod engine;
pub mod entry;
pub mod escape;
pub mod header;
pub mod html;
pub mod octal;
pub mod roundtrip;
pub mod sanitize;

pub use bytes::SeqOfBytes;
