//! Codec for the Blaze packet protocol: length-prefixed packet framing and
//! the tagged data format (TDF) used for packet payloads.

pub mod tag;
pub mod varint;
pub mod error;
pub mod reader;
pub mod writer;
pub mod codec;
pub mod types;
pub mod maps;
pub mod tagging;
pub mod lookup;
pub mod pretty;
pub mod payload;
pub mod packet;
pub mod router;
