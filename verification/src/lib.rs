//! Binary-artifact reconstruction primitives: a signature-based offset
//! locator, a memory-snapshot-to-file restorer, and a decoder for an
//! obfuscated chunked-compression container.

pub mod json;
pub mod locator;
pub mod pattern;
pub mod restorer;
pub mod sections;
pub mod tlzma;
