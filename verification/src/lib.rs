//! Builder for self-bootstrapping polyglot artifacts: byte sequences that are
//! at once a WASM module, an HTML document and, optionally, a TAR archive.
//!
//! The crate is organised around three verified cores: the anchor resolver
//! over HTML templates (`dom`, `html`), the polyglot composer (`compose`),
//! and the capability bytecode generator (`bytecode`).

pub mod bytecode;
pub mod compose;
pub mod dom;
pub mod error;
pub mod html;
