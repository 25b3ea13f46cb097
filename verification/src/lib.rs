//! An extended text-archive format: many named files, optionally binary,
//! packed into one plain-text stream, with structured per-file tags
//! (snippet references, edit programs) and comment-embedded command links.

pub mod archive;
pub mod decoder;
pub mod detect;
pub mod editapply;
pub mod editparse;
pub mod encoder;
pub mod model;
pub mod roundtrip;
pub mod strutil;
pub mod tags;
pub mod trusted;

pub use model::{
    Archive, BinaryReason, Command, DecodeError, EditApplyError, EditBlock, EditOperation,
    EditParseError, EditRef, EncodeError, EncodingConfig, EncodingDetection, File, SnippetParseError,
    SnippetRef, SnippetRefError, TextEncoding,
};
pub use decoder::Decoder;
pub use encoder::Encoder;
