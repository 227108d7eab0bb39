//! Export records: the encoding side (`Export`, `ExportSection`) and the
//! decoding side (`ExportEntry`, `BinaryReader::read_export`).
use crate::error::DecodeError;
use crate::kinds::{export_kind_byte, external_of_export_kind, ExportKind, ExternalKind};
use crate::leb::{encode_str, encode_u32, parse_u32, text_bytes, text_fits, uvarint};
use crate::reader::{parse_export_kind, parse_text, stepped, BinaryReader};
use crate::section::{encode_section, section_bytes, SectionView};
use vstd::prelude::*;

verus! {

/// An export from a WebAssembly module: its kind, and an index into the
/// index space of that kind.
#[derive(Clone, Copy, Debug, PartialEq, Eq, Structural)]
pub enum Export {
    /// The export is a function.
    Func(u32),
    /// The export is a table.
    Table(u32),
    /// The export is a memory.
    Memory(u32),
    /// The export is a global.
    Global(u32),
    /// The export is a tag.
    Tag(u32),
}

/// The kind of an export, given by its variant.
pub open spec fn kind_of(e: Export) -> ExportKind {
    match e {
        Export::Func(_) => ExportKind::Func,
        Export::Table(_) => ExportKind::Table,
        Export::Memory(_) => ExportKind::Memory,
        Export::Global(_) => ExportKind::Global,
        Export::Tag(_) => ExportKind::Tag,
    }
}

/// The index of an export.
pub open spec fn index_of(e: Export) -> u32 {
    match e {
        Export::Func(i) => i,
        Export::Table(i) => i,
        Export::Memory(i) => i,
        Export::Global(i) => i,
        Export::Tag(i) => i,
    }
}

/// An export's kind and index on the wire: the tag byte, then the index.
pub open spec fn export_ref_bytes(e: Export) -> Seq<u8> {
    seq![export_kind_byte(kind_of(e))] + uvarint(index_of(e) as nat)
}

/// A named export on the wire: the name, the tag byte, then the index.
pub open spec fn export_record(name: Seq<char>, e: Export) -> Seq<u8> {
    text_bytes(name) + export_ref_bytes(e)
}

/// What decoding a named export gives back: the name, the kind, the index.
pub open spec fn export_model(name: Seq<char>, e: Export) -> (Seq<char>, ExternalKind, u32) {
    (name, external_of_export_kind(kind_of(e)), index_of(e))
}

impl Export {
    /// The kind of the export.
    pub fn kind(&self) -> (r: ExportKind)
        ensures
            r == kind_of(*self),
    {
        match self {
            Export::Func(_) => ExportKind::Func,
            Export::Table(_) => ExportKind::Table,
            Export::Memory(_) => ExportKind::Memory,
            Export::Global(_) => ExportKind::Global,
            Export::Tag(_) => ExportKind::Tag,
        }
    }

    /// The index of the export.
    pub fn index(&self) -> (r: u32)
        ensures
            r == index_of(*self),
    {
        match self {
            Export::Func(i) | Export::Table(i) | Export::Memory(i) | Export::Global(i) | Export::Tag(
                i,
            ) => *i,
        }
    }

    /// Appends the export's tag byte and index to `sink`.
    pub fn encode(&self, sink: &mut Vec<u8>)
        ensures
            final(sink)@ == old(sink)@ + export_ref_bytes(*self),
    {
        self.kind().encode(sink);
        let ghost mid = sink@;
        encode_u32(self.index(), sink);
        assert(sink@ =~= old(sink)@ + export_ref_bytes(*self));
    }
}

/// The section id of the export section in a module.
pub const EXPORT_SECTION_ID: u8 = 7;

/// A builder for the export section of a WebAssembly module.
#[derive(Clone, Debug)]
pub struct ExportSection {
    bytes: Vec<u8>,
    num_added: u32,
}

impl View for ExportSection {
    type V = SectionView;

    closed spec fn view(&self) -> SectionView {
        SectionView { bytes: self.bytes@, count: self.num_added as nat }
    }
}

impl Default for ExportSection {
    /// An empty section.
    fn default() -> (r: Self)
        ensures
            r@ == (SectionView { bytes: Seq::empty(), count: 0 }),
    {
        ExportSection::new()
    }
}

impl ExportSection {
    /// An empty export section.
    pub fn new() -> (r: Self)
        ensures
            r@ == (SectionView { bytes: Seq::empty(), count: 0 }),
    {
        ExportSection { bytes: Vec::new(), num_added: 0 }
    }

    /// The number of exports added.
    pub fn len(&self) -> (r: u32)
        ensures
            r as nat == self@.count,
    {
        self.num_added
    }

    /// Whether no export has been added.
    pub fn is_empty(&self) -> (r: bool)
        ensures
            r == (self@.count == 0),
    {
        self.num_added == 0
    }

    /// Adds an export under `name`.
    pub fn export(&mut self, name: &str, export: Export)
        requires
            old(self)@.count < u32::MAX,
            text_fits(name@),
        ensures
            final(self)@ == (SectionView {
                bytes: old(self)@.bytes + export_record(name@, export),
                count: old(self)@.count + 1,
            }),
    {
        encode_str(name, &mut self.bytes);
        export.encode(&mut self.bytes);
        assert(self.bytes@ =~= old(self)@.bytes + export_record(name@, export));
        self.num_added = self.num_added + 1;
    }

    /// Appends the section's content to `sink`: the export count, then the
    /// exports.
    pub fn encode(&self, sink: &mut Vec<u8>)
        ensures
            final(sink)@ == old(sink)@ + section_bytes(self@.count, self@.bytes),
    {
        encode_section(sink, self.num_added, self.bytes.as_slice());
    }

    /// The section id of the export section.
    pub fn id(&self) -> (r: u8)
        ensures
            r == EXPORT_SECTION_ID,
    {
        EXPORT_SECTION_ID
    }
}

/// A decoded export: its name, a view into the input, its kind and index.
#[derive(Clone, Copy, Debug)]
pub struct ExportEntry<'a> {
    /// The name of the export.
    pub name: &'a str,
    /// The kind of the exported item.
    pub kind: ExternalKind,
    /// The index of the exported item.
    pub index: u32,
}

impl<'a> View for ExportEntry<'a> {
    type V = (Seq<char>, ExternalKind, u32);

    open spec fn view(&self) -> (Seq<char>, ExternalKind, u32) {
        (self.name@, self.kind, self.index)
    }
}

/// Reading an export record: a text, a tag of the export family, and a
/// 32-bit index.
pub open spec fn parse_export(data: Seq<u8>, pos: int, base: int) -> Result<
    ((Seq<char>, ExternalKind, u32), int),
    DecodeError,
> {
    match parse_text(data, pos, base) {
        Err(e) => Err(e),
        Ok((name, p1)) => match parse_export_kind(data, p1, base) {
            Err(e) => Err(e),
            Ok((kind, p2)) => match parse_u32(data, p2, base) {
                Err(e) => Err(e),
                Ok((index, p3)) => Ok(((name, kind, index), p3)),
            },
        },
    }
}

/// The view of a decoded export result.
pub open spec fn export_result(r: Result<ExportEntry, DecodeError>) -> Result<
    (Seq<char>, ExternalKind, u32),
    DecodeError,
> {
    match r {
        Ok(e) => Ok(e@),
        Err(e) => Err(e),
    }
}

impl<'a> BinaryReader<'a> {
    /// Reads an export record; on failure nothing is consumed.
    pub fn read_export(&mut self) -> (r: Result<ExportEntry<'a>, DecodeError>)
        requires
            old(self).wf(),
        ensures
            final(self).wf(),
            final(self)@.pos >= old(self)@.pos,
            stepped(
                old(self)@,
                final(self)@,
                export_result(r),
                parse_export(old(self)@.data, old(self)@.pos, old(self)@.base),
            ),
    {
        let mut rd = *self;
        let name = match rd.read_string() {
            Ok(s) => s,
            Err(e) => {
                return Err(e);
            },
        };
        let kind = match rd.read_external_kind() {
            Ok(k) => k,
            Err(e) => {
                return Err(e);
            },
        };
        let index = match rd.read_var_u32() {
            Ok(i) => i,
            Err(e) => {
                return Err(e);
            },
        };
        *self = rd;
        Ok(ExportEntry { name, kind, index })
    }
}

} // verus!
