//! Parsing, validation, decoding and encoding of BMP images.
pub mod raw;
pub mod runtime;
