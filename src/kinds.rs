//! The single-byte kind tags ("sorts") that say which index space an item
//! refers to, in the two families this codec reads and writes.
use vstd::prelude::*;

verus! {

/// Tag byte of a core function.
pub const CORE_FUNCTION_SORT: u8 = 0x00;

/// Tag byte of a core table.
pub const CORE_TABLE_SORT: u8 = 0x01;

/// Tag byte of a core memory.
pub const CORE_MEMORY_SORT: u8 = 0x02;

/// Tag byte of a core global.
pub const CORE_GLOBAL_SORT: u8 = 0x03;

/// Tag byte of a core tag (exception handling).
pub const CORE_TAG_SORT: u8 = 0x04;

/// Tag byte of a core instance.
pub const CORE_INSTANCE_SORT: u8 = 0x12;

/// The kind of an export from a WebAssembly module (encoding side).
#[derive(Clone, Copy, Debug, PartialEq, Eq, Structural)]
pub enum ExportKind {
    /// The export is a function.
    Func,
    /// The export is a table.
    Table,
    /// The export is a memory.
    Memory,
    /// The export is a global.
    Global,
    /// The export is a tag.
    Tag,
}

/// The tag byte that stands for an export kind.
pub open spec fn export_kind_byte(k: ExportKind) -> u8 {
    match k {
        ExportKind::Func => CORE_FUNCTION_SORT,
        ExportKind::Table => CORE_TABLE_SORT,
        ExportKind::Memory => CORE_MEMORY_SORT,
        ExportKind::Global => CORE_GLOBAL_SORT,
        ExportKind::Tag => CORE_TAG_SORT,
    }
}

impl ExportKind {
    /// Appends the tag byte of this kind to `sink`.
    pub fn encode(&self, sink: &mut Vec<u8>)
        ensures
            final(sink)@ == old(sink)@.push(export_kind_byte(*self)),
    {
        sink.push(
            match self {
                ExportKind::Func => CORE_FUNCTION_SORT,
                ExportKind::Table => CORE_TABLE_SORT,
                ExportKind::Memory => CORE_MEMORY_SORT,
                ExportKind::Global => CORE_GLOBAL_SORT,
                ExportKind::Tag => CORE_TAG_SORT,
            },
        );
    }
}

/// The kind of an item named by a decoded export or instantiation argument.
#[derive(Clone, Copy, Debug, PartialEq, Eq, Structural)]
pub enum ExternalKind {
    /// A function.
    Func,
    /// A table.
    Table,
    /// A memory.
    Memory,
    /// A global.
    Global,
    /// A tag.
    Tag,
    /// An instance.
    Instance,
}

/// The tag byte that stands for an external kind.
pub open spec fn external_kind_byte(k: ExternalKind) -> u8 {
    match k {
        ExternalKind::Func => CORE_FUNCTION_SORT,
        ExternalKind::Table => CORE_TABLE_SORT,
        ExternalKind::Memory => CORE_MEMORY_SORT,
        ExternalKind::Global => CORE_GLOBAL_SORT,
        ExternalKind::Tag => CORE_TAG_SORT,
        ExternalKind::Instance => CORE_INSTANCE_SORT,
    }
}

/// The decoded kind of an export kind.
pub open spec fn external_of_export_kind(k: ExportKind) -> ExternalKind {
    match k {
        ExportKind::Func => ExternalKind::Func,
        ExportKind::Table => ExternalKind::Table,
        ExportKind::Memory => ExternalKind::Memory,
        ExportKind::Global => ExternalKind::Global,
        ExportKind::Tag => ExternalKind::Tag,
    }
}

/// The export family: function, table, memory, global and tag.
pub open spec fn export_kind_of_byte(b: u8) -> Option<ExternalKind> {
    if b == CORE_FUNCTION_SORT {
        Some(ExternalKind::Func)
    } else if b == CORE_TABLE_SORT {
        Some(ExternalKind::Table)
    } else if b == CORE_MEMORY_SORT {
        Some(ExternalKind::Memory)
    } else if b == CORE_GLOBAL_SORT {
        Some(ExternalKind::Global)
    } else if b == CORE_TAG_SORT {
        Some(ExternalKind::Tag)
    } else {
        None
    }
}

/// The instantiation-argument family: the export family and instances.
pub open spec fn arg_kind_of_byte(b: u8) -> Option<ExternalKind> {
    if b == CORE_INSTANCE_SORT {
        Some(ExternalKind::Instance)
    } else {
        export_kind_of_byte(b)
    }
}

} // verus!
