//! Core instance records: the encoding side (`ModuleArg`, `InstanceSection`)
//! and the decoding side (`InstantiationArg`, `Instance`,
//! `InstanceSectionReader` and its bounded iteration).
use crate::error::DecodeError;
use crate::exports::{export_record, parse_export, Export, ExportEntry};
use crate::kinds::{ExternalKind, CORE_INSTANCE_SORT};
use crate::leb::{encode_str, encode_u32, parse_u32, text_bytes, text_fits, uvarint};
use crate::reader::{parse_arg_kind, parse_text, parse_u8, stepped, BinaryReader, ReaderView};
use crate::section::{encode_section, section_bytes, SectionView};
use vstd::prelude::*;

verus! {

/// Leading byte of an instance record that instantiates a module.
pub const INSTANTIATE_DISCRIMINANT: u8 = 0x00;

/// Leading byte of an instance record built from exported items.
pub const FROM_EXPORTS_DISCRIMINANT: u8 = 0x01;

/// A decoded record of a name, a kind and an index.
pub type ItemModel = (Seq<char>, ExternalKind, u32);

/// An argument to a module instantiation.
#[derive(Clone, Copy, Debug, PartialEq, Eq, Structural)]
pub enum ModuleArg {
    /// The argument is an instance.
    Instance(u32),
}

/// The index that a module argument refers to.
pub open spec fn arg_index(a: ModuleArg) -> u32 {
    match a {
        ModuleArg::Instance(i) => i,
    }
}

/// A module argument on the wire: the instance tag, then the index.
pub open spec fn module_arg_bytes(a: ModuleArg) -> Seq<u8> {
    seq![CORE_INSTANCE_SORT] + uvarint(arg_index(a) as nat)
}

impl ModuleArg {
    /// Appends the argument's tag byte and index to `sink`.
    pub fn encode(&self, sink: &mut Vec<u8>)
        ensures
            final(sink)@ == old(sink)@ + module_arg_bytes(*self),
    {
        let (sort, idx) = match self {
            ModuleArg::Instance(idx) => (CORE_INSTANCE_SORT, *idx),
        };
        sink.push(sort);
        encode_u32(idx, sink);
        assert(sink@ =~= old(sink)@ + module_arg_bytes(*self));
    }
}

/// Named arguments as the caller hands them over.
pub open spec fn named_args<'a>(s: Seq<(&'a str, ModuleArg)>) -> Seq<(Seq<char>, ModuleArg)> {
    s.map_values(|p: (&'a str, ModuleArg)| (p.0@, p.1))
}

/// Named exports as the caller hands them over.
pub open spec fn named_exports<'a>(s: Seq<(&'a str, Export)>) -> Seq<(Seq<char>, Export)> {
    s.map_values(|p: (&'a str, Export)| (p.0@, p.1))
}

/// Every name fits the 32-bit length prefix.
pub open spec fn names_fit<T>(s: Seq<(Seq<char>, T)>) -> bool {
    forall|i: int| 0 <= i < s.len() ==> text_fits(#[trigger] s[i].0)
}

/// The named arguments on the wire, one after the other.
pub open spec fn args_bytes(args: Seq<(Seq<char>, ModuleArg)>) -> Seq<u8>
    decreases args.len(),
{
    if args.len() == 0 {
        Seq::empty()
    } else {
        args_bytes(args.drop_last()) + text_bytes(args.last().0) + module_arg_bytes(args.last().1)
    }
}

/// The named exports on the wire, one after the other.
pub open spec fn exports_bytes(exports: Seq<(Seq<char>, Export)>) -> Seq<u8>
    decreases exports.len(),
{
    if exports.len() == 0 {
        Seq::empty()
    } else {
        exports_bytes(exports.drop_last()) + export_record(exports.last().0, exports.last().1)
    }
}

/// An instantiation record on the wire.
pub open spec fn instantiate_record(module_index: u32, args: Seq<(Seq<char>, ModuleArg)>) -> Seq<
    u8,
> {
    seq![INSTANTIATE_DISCRIMINANT] + uvarint(module_index as nat) + uvarint(args.len())
        + args_bytes(args)
}

/// An export-items record on the wire.
pub open spec fn export_items_record(exports: Seq<(Seq<char>, Export)>) -> Seq<u8> {
    seq![FROM_EXPORTS_DISCRIMINANT] + uvarint(exports.len()) + exports_bytes(exports)
}

/// The section id of the core instance section in a component.
pub const CORE_INSTANCE_SECTION_ID: u8 = 2;

/// A builder for the core instance section of a WebAssembly component.
#[derive(Clone, Debug)]
pub struct InstanceSection {
    bytes: Vec<u8>,
    num_added: u32,
}

impl View for InstanceSection {
    type V = SectionView;

    closed spec fn view(&self) -> SectionView {
        SectionView { bytes: self.bytes@, count: self.num_added as nat }
    }
}

impl Default for InstanceSection {
    /// An empty section.
    fn default() -> (r: Self)
        ensures
            r@ == (SectionView { bytes: Seq::empty(), count: 0 }),
    {
        InstanceSection::new()
    }
}

impl InstanceSection {
    /// An empty instance section.
    pub fn new() -> (r: Self)
        ensures
            r@ == (SectionView { bytes: Seq::empty(), count: 0 }),
    {
        InstanceSection { bytes: Vec::new(), num_added: 0 }
    }

    /// The number of instances added.
    pub fn len(&self) -> (r: u32)
        ensures
            r as nat == self@.count,
    {
        self.num_added
    }

    /// Whether no instance has been added.
    pub fn is_empty(&self) -> (r: bool)
        ensures
            r == (self@.count == 0),
    {
        self.num_added == 0
    }

    /// Adds an instance made by instantiating module `module_index` with the
    /// named arguments `args`, in the order given.
    pub fn instantiate(&mut self, module_index: u32, args: &[(&str, ModuleArg)])
        requires
            old(self)@.count < u32::MAX,
            args@.len() <= u32::MAX,
            names_fit(named_args(args@)),
        ensures
            final(self)@ == (SectionView {
                bytes: old(self)@.bytes + instantiate_record(module_index, named_args(args@)),
                count: old(self)@.count + 1,
            }),
    {
        self.bytes.push(INSTANTIATE_DISCRIMINANT);
        encode_u32(module_index, &mut self.bytes);
        encode_u32(args.len() as u32, &mut self.bytes);
        let ghost head = self.bytes@;
        let mut i: usize = 0;
        while i < args.len()
            invariant
                i <= args@.len(),
                self.num_added as nat == old(self)@.count,
                head == old(self)@.bytes + seq![INSTANTIATE_DISCRIMINANT] + uvarint(
                    module_index as nat,
                ) + uvarint(args@.len()),
                names_fit(named_args(args@)),
                self.bytes@ == head + args_bytes(named_args(args@).subrange(0, i as int)),
            decreases args@.len() - i,
        {
            let (name, arg) = args[i];
            assert(named_args(args@)[i as int] == (name@, arg));
            assert(text_fits(named_args(args@)[i as int].0));
            let ghost before = self.bytes@;
            encode_str(name, &mut self.bytes);
            arg.encode(&mut self.bytes);
            let ghost s = named_args(args@).subrange(0, i + 1);
            assert(s.drop_last() =~= named_args(args@).subrange(0, i as int));
            assert(self.bytes@ =~= head + args_bytes(s));
            i = i + 1;
        }
        assert(named_args(args@).subrange(0, args@.len() as int) =~= named_args(args@));
        assert(self.bytes@ =~= old(self)@.bytes + instantiate_record(
            module_index,
            named_args(args@),
        ));
        self.num_added = self.num_added + 1;
    }

    /// Adds an instance made of the named exports `exports`, in the order
    /// given.
    pub fn export_items(&mut self, exports: &[(&str, Export)])
        requires
            old(self)@.count < u32::MAX,
            exports@.len() <= u32::MAX,
            names_fit(named_exports(exports@)),
        ensures
            final(self)@ == (SectionView {
                bytes: old(self)@.bytes + export_items_record(named_exports(exports@)),
                count: old(self)@.count + 1,
            }),
    {
        self.bytes.push(FROM_EXPORTS_DISCRIMINANT);
        encode_u32(exports.len() as u32, &mut self.bytes);
        let ghost head = self.bytes@;
        let mut i: usize = 0;
        while i < exports.len()
            invariant
                i <= exports@.len(),
                self.num_added as nat == old(self)@.count,
                head == old(self)@.bytes + seq![FROM_EXPORTS_DISCRIMINANT] + uvarint(
                    exports@.len(),
                ),
                names_fit(named_exports(exports@)),
                self.bytes@ == head + exports_bytes(named_exports(exports@).subrange(0, i as int)),
            decreases exports@.len() - i,
        {
            let (name, export) = exports[i];
            assert(named_exports(exports@)[i as int] == (name@, export));
            assert(text_fits(named_exports(exports@)[i as int].0));
            encode_str(name, &mut self.bytes);
            export.encode(&mut self.bytes);
            let ghost s = named_exports(exports@).subrange(0, i + 1);
            assert(s.drop_last() =~= named_exports(exports@).subrange(0, i as int));
            assert(self.bytes@ =~= head + exports_bytes(s));
            i = i + 1;
        }
        assert(named_exports(exports@).subrange(0, exports@.len() as int) =~= named_exports(
            exports@,
        ));
        assert(self.bytes@ =~= old(self)@.bytes + export_items_record(named_exports(exports@)));
        self.num_added = self.num_added + 1;
    }

    /// Appends the section's content to `sink`: the instance count, then
    /// the instance records.
    pub fn encode(&self, sink: &mut Vec<u8>)
        ensures
            final(sink)@ == old(sink)@ + section_bytes(self@.count, self@.bytes),
    {
        encode_section(sink, self.num_added, self.bytes.as_slice());
    }

    /// The section id of the core instance section.
    pub fn id(&self) -> (r: u8)
        ensures
            r == CORE_INSTANCE_SECTION_ID,
    {
        CORE_INSTANCE_SECTION_ID
    }
}

/// A decoded argument to a module instantiation.
#[derive(Clone, Copy, Debug)]
pub struct InstantiationArg<'a> {
    /// The name of the module argument.
    pub name: &'a str,
    /// The kind of the module argument.
    pub kind: ExternalKind,
    /// The index of the argument item.
    pub index: u32,
}

impl<'a> View for InstantiationArg<'a> {
    type V = ItemModel;

    open spec fn view(&self) -> ItemModel {
        (self.name@, self.kind, self.index)
    }
}

/// A decoded core instance.
#[derive(Clone, Debug)]
pub enum Instance<'a> {
    /// The instance comes from instantiating a module.
    Instantiate {
        /// The module index.
        module_index: u32,
        /// The instantiation arguments.
        args: Vec<InstantiationArg<'a>>,
    },
    /// The instance is made of exported items.
    FromExports(Vec<ExportEntry<'a>>),
}

/// What a decoded instance is.
pub enum InstanceModel {
    Instantiate { module_index: u32, args: Seq<ItemModel> },
    FromExports(Seq<ItemModel>),
}

/// The views of decoded arguments.
pub open spec fn args_view<'a>(s: Seq<InstantiationArg<'a>>) -> Seq<ItemModel> {
    s.map_values(|a: InstantiationArg<'a>| a@)
}

/// The views of decoded exports.
pub open spec fn entries_view<'a>(s: Seq<ExportEntry<'a>>) -> Seq<ItemModel> {
    s.map_values(|e: ExportEntry<'a>| e@)
}

impl<'a> View for Instance<'a> {
    type V = InstanceModel;

    open spec fn view(&self) -> InstanceModel {
        match self {
            Instance::Instantiate { module_index, args } => InstanceModel::Instantiate {
                module_index: *module_index,
                args: args_view(args@),
            },
            Instance::FromExports(exports) => InstanceModel::FromExports(entries_view(exports@)),
        }
    }
}

/// The view of a decoded instance result.
pub open spec fn instance_result(r: Result<Instance, DecodeError>) -> Result<
    InstanceModel,
    DecodeError,
> {
    match r {
        Ok(i) => Ok(i@),
        Err(e) => Err(e),
    }
}

/// Reading an instantiation argument: a text, a tag of the argument family,
/// and a 32-bit index.
pub open spec fn parse_arg(data: Seq<u8>, pos: int, base: int) -> Result<(ItemModel, int), DecodeError> {
    match parse_text(data, pos, base) {
        Err(e) => Err(e),
        Ok((name, p1)) => match parse_arg_kind(data, p1, base) {
            Err(e) => Err(e),
            Ok((kind, p2)) => match parse_u32(data, p2, base) {
                Err(e) => Err(e),
                Ok((index, p3)) => Ok(((name, kind, index), p3)),
            },
        },
    }
}

/// Reading `n` instantiation arguments one after the other; the first
/// failure is the result.
pub open spec fn parse_args(data: Seq<u8>, pos: int, base: int, n: nat) -> Result<
    (Seq<ItemModel>, int),
    DecodeError,
>
    decreases n,
{
    if n == 0 {
        Ok((Seq::empty(), pos))
    } else {
        match parse_args(data, pos, base, (n - 1) as nat) {
            Err(e) => Err(e),
            Ok((items, p)) => match parse_arg(data, p, base) {
                Err(e) => Err(e),
                Ok((item, q)) => Ok((items.push(item), q)),
            },
        }
    }
}

/// Reading `n` export records one after the other; the first failure is
/// the result.
pub open spec fn parse_exports(data: Seq<u8>, pos: int, base: int, n: nat) -> Result<
    (Seq<ItemModel>, int),
    DecodeError,
>
    decreases n,
{
    if n == 0 {
        Ok((Seq::empty(), pos))
    } else {
        match parse_exports(data, pos, base, (n - 1) as nat) {
            Err(e) => Err(e),
            Ok((items, p)) => match parse_export(data, p, base) {
                Err(e) => Err(e),
                Ok((item, q)) => Ok((items.push(item), q)),
            },
        }
    }
}

/// Reading an instance record: the discriminant byte, then an
/// instantiation (module index, argument count, arguments) or a list of
/// exports (count, exports).
pub open spec fn parse_instance(data: Seq<u8>, pos: int, base: int) -> Result<
    (InstanceModel, int),
    DecodeError,
> {
    match parse_u8(data, pos, base) {
        Err(e) => Err(e),
        Ok((d, p)) => if d == INSTANTIATE_DISCRIMINANT {
            match parse_u32(data, p, base) {
                Err(e) => Err(e),
                Ok((module_index, p1)) => match parse_u32(data, p1, base) {
                    Err(e) => Err(e),
                    Ok((n, p2)) => match parse_args(data, p2, base, n as nat) {
                        Err(e) => Err(e),
                        Ok((args, p3)) => Ok(
                            (InstanceModel::Instantiate { module_index, args }, p3),
                        ),
                    },
                },
            }
        } else if d == FROM_EXPORTS_DISCRIMINANT {
            match parse_u32(data, p, base) {
                Err(e) => Err(e),
                Ok((n, p1)) => match parse_exports(data, p1, base, n as nat) {
                    Err(e) => Err(e),
                    Ok((exports, p2)) => Ok((InstanceModel::FromExports(exports), p2)),
                },
            }
        } else {
            Err(DecodeError::InvalidDiscriminant { byte: d, offset: (base + pos) as usize })
        },
    }
}

/// Once reading the first `k` arguments fails, reading more fails the same
/// way.
pub proof fn lemma_parse_args_fail(data: Seq<u8>, pos: int, base: int, k: nat, n: nat)
    requires
        k <= n,
        parse_args(data, pos, base, k) is Err,
    ensures
        parse_args(data, pos, base, n) == parse_args(data, pos, base, k),
    decreases n,
{
    if n > k {
        lemma_parse_args_fail(data, pos, base, k, (n - 1) as nat);
    }
}

/// Once reading the first `k` exports fails, reading more fails the same
/// way.
pub proof fn lemma_parse_exports_fail(data: Seq<u8>, pos: int, base: int, k: nat, n: nat)
    requires
        k <= n,
        parse_exports(data, pos, base, k) is Err,
    ensures
        parse_exports(data, pos, base, n) == parse_exports(data, pos, base, k),
    decreases n,
{
    if n > k {
        lemma_parse_exports_fail(data, pos, base, k, (n - 1) as nat);
    }
}

impl<'a> BinaryReader<'a> {
    /// Reads an instantiation argument; on failure nothing is consumed.
    pub fn read_instantiation_arg(&mut self) -> (r: Result<InstantiationArg<'a>, DecodeError>)
        requires
            old(self).wf(),
        ensures
            final(self).wf(),
            final(self)@.pos >= old(self)@.pos,
            stepped(
                old(self)@,
                final(self)@,
                match r {
                    Ok(a) => Ok(a@),
                    Err(e) => Err(e),
                },
                parse_arg(old(self)@.data, old(self)@.pos, old(self)@.base),
            ),
    {
        let mut rd = *self;
        let name = match rd.read_string() {
            Ok(s) => s,
            Err(e) => {
                return Err(e);
            },
        };
        let kind = match rd.read_arg_kind() {
            Ok(k) => k,
            Err(e) => {
                return Err(e);
            },
        };
        let index = match rd.read_var_u32() {
            Ok(i) => i,
            Err(e) => {
                return Err(e);
            },
        };
        *self = rd;
        Ok(InstantiationArg { name, kind, index })
    }

    /// Reads `count` instantiation arguments; on failure nothing is consumed.
    fn read_instantiation_args(&mut self, count: u32) -> (r: Result<
        Vec<InstantiationArg<'a>>,
        DecodeError,
    >)
        requires
            old(self).wf(),
        ensures
            final(self).wf(),
            final(self)@.pos >= old(self)@.pos,
            stepped(
                old(self)@,
                final(self)@,
                match r {
                    Ok(v) => Ok(args_view(v@)),
                    Err(e) => Err(e),
                },
                parse_args(old(self)@.data, old(self)@.pos, old(self)@.base, count as nat),
            ),
    {
        let ghost start = self@;
        let mut rd = *self;
        let mut out: Vec<InstantiationArg<'a>> = Vec::new();
        let mut i: u32 = 0;
        assert(args_view(out@) =~= Seq::<ItemModel>::empty());
        while i < count
            invariant
                start == old(self)@,
                *self == *old(self),
                self.wf(),
                rd.wf(),
                i <= count,
                rd@.data == start.data,
                rd@.base == start.base,
                rd@.pos >= start.pos,
                parse_args(start.data, start.pos, start.base, i as nat) == Ok::<
                    (Seq<ItemModel>, int),
                    DecodeError,
                >((args_view(out@), rd@.pos)),
            decreases count - i,
        {
            match rd.read_instantiation_arg() {
                Ok(a) => {
                    assert(args_view(out@.push(a)) =~= args_view(out@).push(a@));
                    out.push(a);
                },
                Err(e) => {
                    proof {
                        lemma_parse_args_fail(
                            start.data,
                            start.pos,
                            start.base,
                            (i + 1) as nat,
                            count as nat,
                        );
                    }
                    return Err(e);
                },
            }
            i = i + 1;
        }
        *self = rd;
        Ok(out)
    }

    /// Reads `count` export records; on failure nothing is consumed.
    fn read_exports(&mut self, count: u32) -> (r: Result<Vec<ExportEntry<'a>>, DecodeError>)
        requires
            old(self).wf(),
        ensures
            final(self).wf(),
            final(self)@.pos >= old(self)@.pos,
            stepped(
                old(self)@,
                final(self)@,
                match r {
                    Ok(v) => Ok(entries_view(v@)),
                    Err(e) => Err(e),
                },
                parse_exports(old(self)@.data, old(self)@.pos, old(self)@.base, count as nat),
            ),
    {
        let ghost start = self@;
        let mut rd = *self;
        let mut out: Vec<ExportEntry<'a>> = Vec::new();
        let mut i: u32 = 0;
        assert(entries_view(out@) =~= Seq::<ItemModel>::empty());
        while i < count
            invariant
                start == old(self)@,
                *self == *old(self),
                self.wf(),
                rd.wf(),
                i <= count,
                rd@.data == start.data,
                rd@.base == start.base,
                rd@.pos >= start.pos,
                parse_exports(start.data, start.pos, start.base, i as nat) == Ok::<
                    (Seq<ItemModel>, int),
                    DecodeError,
                >((entries_view(out@), rd@.pos)),
            decreases count - i,
        {
            match rd.read_export() {
                Ok(a) => {
                    assert(entries_view(out@.push(a)) =~= entries_view(out@).push(a@));
                    out.push(a);
                },
                Err(e) => {
                    proof {
                        lemma_parse_exports_fail(
                            start.data,
                            start.pos,
                            start.base,
                            (i + 1) as nat,
                            count as nat,
                        );
                    }
                    return Err(e);
                },
            }
            i = i + 1;
        }
        *self = rd;
        Ok(out)
    }

    /// Reads an instance record; on failure nothing is consumed.
    pub fn read_instance(&mut self) -> (r: Result<Instance<'a>, DecodeError>)
        requires
            old(self).wf(),
        ensures
            final(self).wf(),
            final(self)@.pos >= old(self)@.pos,
            stepped(
                old(self)@,
                final(self)@,
                instance_result(r),
                parse_instance(old(self)@.data, old(self)@.pos, old(self)@.base),
            ),
    {
        let offset = self.original_position();
        let mut rd = *self;
        let d = match rd.read_u8() {
            Ok(b) => b,
            Err(e) => {
                return Err(e);
            },
        };
        if d == INSTANTIATE_DISCRIMINANT {
            let module_index = match rd.read_var_u32() {
                Ok(v) => v,
                Err(e) => {
                    return Err(e);
                },
            };
            let n = match rd.read_var_u32() {
                Ok(v) => v,
                Err(e) => {
                    return Err(e);
                },
            };
            let args = match rd.read_instantiation_args(n) {
                Ok(v) => v,
                Err(e) => {
                    return Err(e);
                },
            };
            *self = rd;
            Ok(Instance::Instantiate { module_index, args })
        } else if d == FROM_EXPORTS_DISCRIMINANT {
            let n = match rd.read_var_u32() {
                Ok(v) => v,
                Err(e) => {
                    return Err(e);
                },
            };
            let exports = match rd.read_exports(n) {
                Ok(v) => v,
                Err(e) => {
                    return Err(e);
                },
            };
            *self = rd;
            Ok(Instance::FromExports(exports))
        } else {
            Err(DecodeError::InvalidDiscriminant { byte: d, offset })
        }
    }
}

/// Reading `n` instance records one after the other; the first failure is
/// the result.
pub open spec fn parse_instances(data: Seq<u8>, pos: int, base: int, n: nat) -> Result<
    (Seq<InstanceModel>, int),
    DecodeError,
>
    decreases n,
{
    if n == 0 {
        Ok((Seq::empty(), pos))
    } else {
        match parse_instances(data, pos, base, (n - 1) as nat) {
            Err(e) => Err(e),
            Ok((items, p)) => match parse_instance(data, p, base) {
                Err(e) => Err(e),
                Ok((item, q)) => Ok((items.push(item), q)),
            },
        }
    }
}

/// What an instance section reader is: its cursor, and the item count read
/// from the section's start.
pub struct InstanceReaderView {
    pub cursor: ReaderView,
    pub count: nat,
}

/// A reader for the core instance section of a WebAssembly component.
#[derive(Clone, Copy, Debug)]
pub struct InstanceSectionReader<'a> {
    reader: BinaryReader<'a>,
    count: u32,
}

impl<'a> View for InstanceSectionReader<'a> {
    type V = InstanceReaderView;

    closed spec fn view(&self) -> InstanceReaderView {
        InstanceReaderView { cursor: self.reader@, count: self.count as nat }
    }
}

/// The cursor lies within its data, and every absolute offset fits a `usize`.
pub open spec fn cursor_wf(c: ReaderView) -> bool {
    0 <= c.pos <= c.data.len() && 0 <= c.base && c.base + c.data.len() <= usize::MAX
}

impl<'a> InstanceSectionReader<'a> {
    /// The reader is well formed.
    pub open spec fn wf(&self) -> bool {
        cursor_wf(self@.cursor) && self@.count <= u32::MAX
    }

    /// A reader for the section content `data`, whose first byte is at
    /// absolute offset `offset`: it reads the item count and stands at the
    /// first record.
    pub fn new(data: &'a [u8], offset: usize) -> (r: Result<Self, DecodeError>)
        requires
            offset + data@.len() <= usize::MAX,
        ensures
            match r {
                Ok(rd) => rd.wf() && rd@.cursor.data == data@ && rd@.cursor.base == offset
                    && parse_u32(data@, 0, offset as int) == Ok::<(u32, int), DecodeError>(
                    (rd@.count as u32, rd@.cursor.pos),
                ),
                Err(e) => parse_u32(data@, 0, offset as int) == Err::<(u32, int), DecodeError>(e),
            },
    {
        let mut reader = BinaryReader::new_with_offset(data, offset);
        match reader.read_var_u32() {
            Ok(count) => Ok(InstanceSectionReader { reader, count }),
            Err(e) => Err(e),
        }
    }

    /// The absolute offset of the reader's cursor.
    pub fn original_position(&self) -> (r: usize)
        requires
            self.wf(),
        ensures
            r == self@.cursor.base + self@.cursor.pos,
    {
        self.reader.original_position()
    }

    /// The number of instance records that the section declares.
    pub fn get_count(&self) -> (r: u32)
        ensures
            r as nat == self@.count,
    {
        self.count
    }

    /// Reads the next instance record; on failure nothing is consumed.
    pub fn read(&mut self) -> (r: Result<Instance<'a>, DecodeError>)
        requires
            old(self).wf(),
        ensures
            final(self).wf(),
            final(self)@.count == old(self)@.count,
            final(self)@.cursor.pos >= old(self)@.cursor.pos,
            stepped(
                old(self)@.cursor,
                final(self)@.cursor,
                instance_result(r),
                parse_instance(old(self)@.cursor.data, old(self)@.cursor.pos, old(self)@.cursor.base),
            ),
    {
        self.reader.read_instance()
    }

    /// Whether the cursor has reached the end of the data.
    pub fn eof(&self) -> (r: bool)
        requires
            self.wf(),
        ensures
            r == (self@.cursor.pos >= self@.cursor.data.len()),
    {
        self.reader.eof()
    }

    /// The absolute span of the section's whole buffer, from its first byte
    /// to its end; reads do not change it.
    pub fn range(&self) -> (r: (usize, usize))
        requires
            self.wf(),
        ensures
            r.0 == self@.cursor.base,
            r.1 == self@.cursor.base + self@.cursor.data.len(),
    {
        self.reader.range()
    }

    /// A sequence of at most the declared count of records, which stops
    /// after the first failure.
    pub fn into_iter(self) -> (r: InstanceSectionIter<'a>)
        requires
            self.wf(),
        ensures
            r.wf(),
            r@ == (IterView { cursor: self@.cursor, remaining: self@.count, done: false }),
    {
        let remaining = self.count;
        InstanceSectionIter { reader: self, remaining, done: false }
    }
}

/// What the bounded iteration is: the cursor, how many records may still
/// be read, and whether a failure has ended it.
pub struct IterView {
    pub cursor: ReaderView,
    pub remaining: nat,
    pub done: bool,
}

/// One pull of the bounded iteration: nothing once the count is used up or
/// a failure has been yielded; otherwise the next record, or its failure,
/// which ends the iteration.
pub open spec fn iter_step(v: IterView) -> (Option<Result<InstanceModel, DecodeError>>, IterView) {
    if v.done || v.remaining == 0 {
        (None, v)
    } else {
        match parse_instance(v.cursor.data, v.cursor.pos, v.cursor.base) {
            Ok((m, p)) => (
                Some(Ok(m)),
                IterView {
                    cursor: ReaderView { pos: p, ..v.cursor },
                    remaining: (v.remaining - 1) as nat,
                    done: false,
                },
            ),
            Err(e) => (Some(Err(e)), IterView { done: true, ..v }),
        }
    }
}

/// The view of what one pull yields.
pub open spec fn pull_view(r: Option<Result<Instance, DecodeError>>) -> Option<
    Result<InstanceModel, DecodeError>,
> {
    match r {
        None => None,
        Some(x) => Some(instance_result(x)),
    }
}

/// The bounded iteration over the records of an instance section.
#[derive(Clone, Debug)]
pub struct InstanceSectionIter<'a> {
    reader: InstanceSectionReader<'a>,
    remaining: u32,
    done: bool,
}

impl<'a> View for InstanceSectionIter<'a> {
    type V = IterView;

    closed spec fn view(&self) -> IterView {
        IterView { cursor: self.reader@.cursor, remaining: self.remaining as nat, done: self.done }
    }
}

impl<'a> InstanceSectionIter<'a> {
    /// The iteration is well formed.
    pub open spec fn wf(&self) -> bool {
        cursor_wf(self@.cursor) && self@.remaining <= u32::MAX
    }

    /// Pulls the next record.
    pub fn next(&mut self) -> (r: Option<Result<Instance<'a>, DecodeError>>)
        requires
            old(self).wf(),
        ensures
            final(self).wf(),
            (pull_view(r), final(self)@) == iter_step(old(self)@),
    {
        if self.done || self.remaining == 0 {
            return None;
        }
        let item = self.reader.read();
        match item {
            Ok(_) => {
                self.remaining = self.remaining - 1;
            },
            Err(_) => {
                self.done = true;
            },
        }
        Some(item)
    }
}

} // verus!
