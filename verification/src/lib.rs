//! Streaming protobuf wire-format encoding.
//!
//! The crate encodes structured values into the protobuf binary wire format
//! without knowing their total serialized size in advance.  A buffered writer
//! records where each deferred length prefix will sit and materializes the
//! prefixes only when the frozen message is read out.

pub mod buf;
pub mod raw;

mod stream;

pub use stream::{FieldType, ProtoBufStream, StreamIndex, StreamTag};
