//! A byte-exact codec for the export and core-instance sections of the
//! WebAssembly module and component binary formats.
//!
//! The encoding side builds section payloads (`ExportSection`,
//! `InstanceSection`); the decoding side reads them back through a bounded
//! cursor (`BinaryReader`, `InstanceSectionReader`). Every function states its
//! effect over the byte-level models in `leb` and the record models in
//! `exports` and `instances`, and `laws` proves how the two sides fit together.

pub mod error;
pub mod leb;
pub mod kinds;
pub mod reader;
pub mod section;
pub mod exports;
pub mod instances;
pub mod laws;

pub use error::DecodeError;
pub use exports::{Export, ExportEntry, ExportSection};
pub use instances::{
    Instance, InstanceSection, InstanceSectionIter, InstanceSectionReader, InstantiationArg,
    ModuleArg,
};
pub use kinds::{ExportKind, ExternalKind};
pub use leb::{encode_str, encode_u32};
pub use reader::BinaryReader;
pub use section::encode_section;
