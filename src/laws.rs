//! What holds between the encoders and the decoders: round trips, minimal
//! integer encodings, rejection of bad tags and discriminants, safety under
//! truncation, and the bounded iteration's count.
use crate::error::DecodeError;
use crate::exports::{export_model, export_record, parse_export, Export};
use crate::instances::{
    args_bytes, export_items_record, lemma_parse_args_fail, lemma_parse_exports_fail, exports_bytes, instantiate_record, module_arg_bytes,
    names_fit, parse_arg, parse_args, parse_exports, parse_instance, parse_instances, arg_index,
    iter_step, InstanceModel, ItemModel, IterView, ModuleArg,
};
use crate::kinds::{arg_kind_of_byte, export_kind_of_byte, ExternalKind};
use crate::leb::{parse_u32, pow128, text_bytes, text_fits, u32_groups, utf8_of, uvarint};
use crate::reader::{parse_text, ReaderView};
use crate::section::section_bytes;
use vstd::prelude::*;

verus! {

broadcast use vstd::utf8::group_utf8_lib;

/// `data` holds `enc` from relative position `pos` on.
pub open spec fn holds_at(data: Seq<u8>, pos: int, enc: Seq<u8>) -> bool {
    0 <= pos && pos + enc.len() <= data.len() && data.subrange(pos, pos + enc.len()) == enc
}

/// Splitting what `data` holds at `pos` into its two parts.
pub proof fn lemma_holds_split(data: Seq<u8>, pos: int, x: Seq<u8>, y: Seq<u8>)
    requires
        holds_at(data, pos, x + y),
    ensures
        holds_at(data, pos, x),
        holds_at(data, pos + x.len(), y),
{
    let whole = data.subrange(pos, pos + (x + y).len());
    assert(data.subrange(pos, pos + x.len()) =~= whole.subrange(0, x.len() as int));
    assert(whole.subrange(0, x.len() as int) =~= x);
    assert(data.subrange(pos + x.len(), pos + x.len() + y.len()) =~= whole.subrange(
        x.len() as int,
        whole.len() as int,
    ));
    assert(whole.subrange(x.len() as int, whole.len() as int) =~= y);
}

proof fn lemma_uvarint_first(v: nat)
    ensures
        uvarint(v).len() >= 1,
        v < 128 ==> uvarint(v) == seq![v as u8],
        v >= 128 ==> uvarint(v) == seq![((v % 128) + 128) as u8] + uvarint(v / 128),
{
}

proof fn lemma_groups_decode(data: Seq<u8>, pos: int, base: int, i: nat, acc: nat, w: nat)
    requires
        i <= 4,
        acc < pow128(i),
        w * pow128(i) + acc <= u32::MAX,
        holds_at(data, pos + i, uvarint(w)),
    ensures
        u32_groups(data, pos, base, i, acc) == Ok::<(u32, int), DecodeError>(
            ((acc + w * pow128(i)) as u32, pos + i + uvarint(w).len()),
        ),
    decreases 4 - i,
{
    lemma_uvarint_first(w);
    let p = pow128(i);
    assert(pow128(4) == 268435456) by {
        assert(pow128(0) == 1);
        assert(pow128(1) == 128);
        assert(pow128(2) == 16384);
        assert(pow128(3) == 2097152);
    }
    assert(data[pos + i] == uvarint(w)[0]) by {
        assert(data.subrange(pos + i, pos + i + uvarint(w).len())[0] == data[pos + i]);
    }
    if w < 128 {
        if i == 4 {
            assert(w < 16) by (nonlinear_arith)
                requires
                    w * 268435456 + acc <= 4294967295,
            ;
        }
    } else {
        if i == 4 {
            assert(false) by (nonlinear_arith)
                requires
                    w >= 128,
                    w * 268435456 + acc <= 4294967295,
            ;
        }
        let low = w % 128;
        let hi = w / 128;
        assert(pow128(i + 1) == 128 * p);
        assert(acc + low * p < 128 * p) by (nonlinear_arith)
            requires
                acc < p,
                low < 128,
        ;
        assert(hi * (128 * p) + (acc + low * p) == w * p + acc) by (nonlinear_arith)
            requires
                w == 128 * hi + low,
        ;
        lemma_holds_split(data, pos + i, seq![((w % 128) + 128) as u8], uvarint(hi));
        lemma_groups_decode(data, pos, base, i + 1, acc + low * p, hi);
    }
}

/// The uvarint encoding of a 32-bit value, found at `pos`, decodes to that
/// value and ends where the encoding ends.
pub proof fn lemma_u32_decode(data: Seq<u8>, pos: int, base: int, v: u32)
    requires
        holds_at(data, pos, uvarint(v as nat)),
    ensures
        parse_u32(data, pos, base) == Ok::<(u32, int), DecodeError>(
            (v, pos + uvarint(v as nat).len()),
        ),
{
    assert(pow128(0) == 1);
    lemma_groups_decode(data, pos, base, 0, 0, v as nat);
}

/// The uvarint encoding of `v` has exactly as many bytes as `v` needs
/// seven-bit groups.
pub proof fn lemma_uvarint_len(v: nat)
    ensures
        uvarint(v).len() >= 1,
        v < pow128(uvarint(v).len()),
        uvarint(v).len() == 1 || pow128((uvarint(v).len() - 1) as nat) <= v,
    decreases v,
{
    lemma_uvarint_first(v);
    assert(pow128(0) == 1);
    assert(pow128(1) == 128);
    if v >= 128 {
        lemma_uvarint_len(v / 128);
        let n = uvarint(v / 128).len();
        assert(uvarint(v).len() == n + 1);
        assert(pow128(n + 1) == 128 * pow128(n));
        assert(v < 128 * pow128(n)) by (nonlinear_arith)
            requires
                v / 128 < pow128(n),
        ;
        if n == 1 {
            assert(pow128(1) == 128);
        } else {
            assert(pow128(n) == 128 * pow128((n - 1) as nat));
            assert(128 * pow128((n - 1) as nat) <= v) by (nonlinear_arith)
                requires
                    pow128((n - 1) as nat) <= v / 128,
            ;
        }
    }
}

/// Every 32-bit value survives encoding and decoding, whatever follows it,
/// and its encoding is minimal: one byte per seven-bit group that the value
/// needs, so the last byte carries the top group and no byte is redundant.
pub proof fn law_uvarint_round_trip(v: u32, rest: Seq<u8>, base: int)
    ensures
        parse_u32(uvarint(v as nat) + rest, 0, base) == Ok::<(u32, int), DecodeError>(
            (v, uvarint(v as nat).len() as int),
        ),
        v < pow128(uvarint(v as nat).len()),
        uvarint(v as nat).len() == 1 || pow128((uvarint(v as nat).len() - 1) as nat) <= v,
{
    let data = uvarint(v as nat) + rest;
    assert(data.subrange(0, uvarint(v as nat).len() as int) =~= uvarint(v as nat));
    lemma_u32_decode(data, 0, base, v);
    lemma_uvarint_len(v as nat);
}

/// A text found at `pos` decodes to itself.
pub proof fn lemma_text_decode(data: Seq<u8>, pos: int, base: int, name: Seq<char>)
    requires
        text_fits(name),
        holds_at(data, pos, text_bytes(name)),
    ensures
        parse_text(data, pos, base) == Ok::<(Seq<char>, int), DecodeError>(
            (name, pos + text_bytes(name).len()),
        ),
{
    let len = utf8_of(name).len();
    lemma_holds_split(data, pos, uvarint(len), utf8_of(name));
    lemma_u32_decode(data, pos, base, len as u32);
}

/// A named export found at `pos` decodes to its name, kind and index.
pub proof fn lemma_export_decode(data: Seq<u8>, pos: int, base: int, name: Seq<char>, e: Export)
    requires
        text_fits(name),
        holds_at(data, pos, export_record(name, e)),
    ensures
        parse_export(data, pos, base) == Ok::<(ItemModel, int), DecodeError>(
            (export_model(name, e), pos + export_record(name, e).len()),
        ),
{
    let t = text_bytes(name);
    let k = seq![crate::kinds::export_kind_byte(crate::exports::kind_of(e))];
    let i = uvarint(crate::exports::index_of(e) as nat);
    assert(export_record(name, e) =~= t + (k + i));
    lemma_holds_split(data, pos, t, k + i);
    lemma_holds_split(data, pos + t.len(), k, i);
    lemma_text_decode(data, pos, base, name);
    assert(data[pos + t.len()] == k[0]) by {
        assert(data.subrange(pos + t.len(), pos + t.len() + 1)[0] == data[pos + t.len()]);
    }
    lemma_u32_decode(data, pos + t.len() + 1, base, crate::exports::index_of(e));
}

/// A named module argument found at `pos` decodes to its name, the instance
/// kind and its index.
pub proof fn lemma_arg_decode(data: Seq<u8>, pos: int, base: int, name: Seq<char>, a: ModuleArg)
    requires
        text_fits(name),
        holds_at(data, pos, text_bytes(name) + module_arg_bytes(a)),
    ensures
        parse_arg(data, pos, base) == Ok::<(ItemModel, int), DecodeError>(
            (arg_model(name, a), pos + (text_bytes(name) + module_arg_bytes(a)).len()),
        ),
{
    let t = text_bytes(name);
    let k = seq![crate::kinds::CORE_INSTANCE_SORT];
    let i = uvarint(arg_index(a) as nat);
    assert(text_bytes(name) + module_arg_bytes(a) =~= t + (k + i));
    lemma_holds_split(data, pos, t, k + i);
    lemma_holds_split(data, pos + t.len(), k, i);
    lemma_text_decode(data, pos, base, name);
    assert(data[pos + t.len()] == k[0]) by {
        assert(data.subrange(pos + t.len(), pos + t.len() + 1)[0] == data[pos + t.len()]);
    }
    lemma_u32_decode(data, pos + t.len() + 1, base, arg_index(a));
}

/// What decoding a named module argument gives back.
pub open spec fn arg_model(name: Seq<char>, a: ModuleArg) -> ItemModel {
    (name, ExternalKind::Instance, arg_index(a))
}

/// What decoding named module arguments gives back.
pub open spec fn args_models(args: Seq<(Seq<char>, ModuleArg)>) -> Seq<ItemModel> {
    args.map_values(|p: (Seq<char>, ModuleArg)| arg_model(p.0, p.1))
}

/// What decoding named exports gives back.
pub open spec fn exports_models(exports: Seq<(Seq<char>, Export)>) -> Seq<ItemModel> {
    exports.map_values(|p: (Seq<char>, Export)| export_model(p.0, p.1))
}

/// Named module arguments found at `pos` decode to their models, in order.
pub proof fn lemma_args_decode(
    data: Seq<u8>,
    pos: int,
    base: int,
    args: Seq<(Seq<char>, ModuleArg)>,
)
    requires
        names_fit(args),
        holds_at(data, pos, args_bytes(args)),
    ensures
        parse_args(data, pos, base, args.len()) == Ok::<(Seq<ItemModel>, int), DecodeError>(
            (args_models(args), pos + args_bytes(args).len()),
        ),
    decreases args.len(),
{
    if args.len() == 0 {
        assert(args_models(args) =~= Seq::<ItemModel>::empty());
    } else {
        let init = args.drop_last();
        let (name, a) = args.last();
        assert(names_fit(init)) by {
            assert forall|i: int| 0 <= i < init.len() implies text_fits(#[trigger] init[i].0) by {
                assert(init[i] == args[i]);
            }
        }
        assert(text_fits(args[args.len() - 1].0));
        assert(args_bytes(args) =~= args_bytes(init) + (text_bytes(name) + module_arg_bytes(a)));
        lemma_holds_split(data, pos, args_bytes(init), text_bytes(name) + module_arg_bytes(a));
        lemma_args_decode(data, pos, base, init);
        lemma_arg_decode(data, pos + args_bytes(init).len(), base, name, a);
        assert(args_models(args) =~= args_models(init).push(arg_model(name, a)));
    }
}

/// Named exports found at `pos` decode to their models, in order.
pub proof fn lemma_exports_decode(
    data: Seq<u8>,
    pos: int,
    base: int,
    exports: Seq<(Seq<char>, Export)>,
)
    requires
        names_fit(exports),
        holds_at(data, pos, exports_bytes(exports)),
    ensures
        parse_exports(data, pos, base, exports.len()) == Ok::<(Seq<ItemModel>, int), DecodeError>(
            (exports_models(exports), pos + exports_bytes(exports).len()),
        ),
    decreases exports.len(),
{
    if exports.len() == 0 {
        assert(exports_models(exports) =~= Seq::<ItemModel>::empty());
    } else {
        let init = exports.drop_last();
        let (name, e) = exports.last();
        assert(names_fit(init)) by {
            assert forall|i: int| 0 <= i < init.len() implies text_fits(#[trigger] init[i].0) by {
                assert(init[i] == exports[i]);
            }
        }
        assert(text_fits(exports[exports.len() - 1].0));
        lemma_holds_split(data, pos, exports_bytes(init), export_record(name, e));
        lemma_exports_decode(data, pos, base, init);
        lemma_export_decode(data, pos + exports_bytes(init).len(), base, name, e);
        assert(exports_models(exports) =~= exports_models(init).push(export_model(name, e)));
    }
}

/// An instance as handed to the section builder: the arguments of
/// `InstanceSection::instantiate`, or those of `InstanceSection::export_items`.
pub enum InstanceItem {
    Instantiate { module_index: u32, args: Seq<(Seq<char>, ModuleArg)> },
    ExportItems(Seq<(Seq<char>, Export)>),
}

/// The builder accepts the item: its list fits a 32-bit count and each name
/// fits a 32-bit length.
pub open spec fn item_valid(it: InstanceItem) -> bool {
    match it {
        InstanceItem::Instantiate { args, .. } => args.len() <= u32::MAX && names_fit(args),
        InstanceItem::ExportItems(exports) => exports.len() <= u32::MAX && names_fit(exports),
    }
}

/// The record that the builder appends for the item.
pub open spec fn item_record(it: InstanceItem) -> Seq<u8> {
    match it {
        InstanceItem::Instantiate { module_index, args } => instantiate_record(module_index, args),
        InstanceItem::ExportItems(exports) => export_items_record(exports),
    }
}

/// The records of several items, one after the other.
pub open spec fn items_bytes(items: Seq<InstanceItem>) -> Seq<u8>
    decreases items.len(),
{
    if items.len() == 0 {
        Seq::empty()
    } else {
        items_bytes(items.drop_last()) + item_record(items.last())
    }
}

/// What decoding the item's record gives back.
pub open spec fn decoded_item(it: InstanceItem) -> InstanceModel {
    match it {
        InstanceItem::Instantiate { module_index, args } => InstanceModel::Instantiate {
            module_index,
            args: args_models(args),
        },
        InstanceItem::ExportItems(exports) => InstanceModel::FromExports(exports_models(exports)),
    }
}

proof fn lemma_byte_at(data: Seq<u8>, pos: int, b: u8)
    requires
        holds_at(data, pos, seq![b]),
    ensures
        data[pos] == b,
{
    assert(data.subrange(pos, pos + 1)[0] == data[pos]);
}

/// An instance record found at `pos` decodes to the item it was built from.
pub proof fn lemma_instance_decode(data: Seq<u8>, pos: int, base: int, it: InstanceItem)
    requires
        item_valid(it),
        holds_at(data, pos, item_record(it)),
    ensures
        parse_instance(data, pos, base) == Ok::<(InstanceModel, int), DecodeError>(
            (decoded_item(it), pos + item_record(it).len()),
        ),
{
    match it {
        InstanceItem::Instantiate { module_index, args } => {
            let d = seq![crate::instances::INSTANTIATE_DISCRIMINANT];
            let m = uvarint(module_index as nat);
            let n = uvarint(args.len());
            lemma_holds_split(data, pos, d + m + n, args_bytes(args));
            lemma_holds_split(data, pos, d + m, n);
            lemma_holds_split(data, pos, d, m);
            lemma_byte_at(data, pos, crate::instances::INSTANTIATE_DISCRIMINANT);
            lemma_u32_decode(data, pos + 1, base, module_index);
            lemma_u32_decode(data, pos + 1 + m.len(), base, args.len() as u32);
            lemma_args_decode(data, pos + 1 + m.len() + n.len(), base, args);
        },
        InstanceItem::ExportItems(exports) => {
            let d = seq![crate::instances::FROM_EXPORTS_DISCRIMINANT];
            let n = uvarint(exports.len());
            lemma_holds_split(data, pos, d + n, exports_bytes(exports));
            lemma_holds_split(data, pos, d, n);
            lemma_byte_at(data, pos, crate::instances::FROM_EXPORTS_DISCRIMINANT);
            lemma_u32_decode(data, pos + 1, base, exports.len() as u32);
            lemma_exports_decode(data, pos + 1 + n.len(), base, exports);
        },
    }
}

/// Instance records found at `pos` decode to their items, in order.
pub proof fn lemma_instances_decode(data: Seq<u8>, pos: int, base: int, items: Seq<InstanceItem>)
    requires
        forall|i: int| 0 <= i < items.len() ==> item_valid(#[trigger] items[i]),
        holds_at(data, pos, items_bytes(items)),
    ensures
        parse_instances(data, pos, base, items.len()) == Ok::<
            (Seq<InstanceModel>, int),
            DecodeError,
        >((items.map_values(|it: InstanceItem| decoded_item(it)), pos + items_bytes(items).len())),
    decreases items.len(),
{
    if items.len() == 0 {
        assert(items.map_values(|it: InstanceItem| decoded_item(it)) =~= Seq::<
            InstanceModel,
        >::empty());
    } else {
        let init = items.drop_last();
        let last = items.last();
        assert forall|i: int| 0 <= i < init.len() implies item_valid(#[trigger] init[i]) by {
            assert(init[i] == items[i]);
        }
        assert(item_valid(items[items.len() - 1]));
        lemma_holds_split(data, pos, items_bytes(init), item_record(last));
        lemma_instances_decode(data, pos, base, init);
        lemma_instance_decode(data, pos + items_bytes(init).len(), base, last);
        assert(items.map_values(|it: InstanceItem| decoded_item(it)) =~= init.map_values(
            |it: InstanceItem| decoded_item(it),
        ).push(decoded_item(last)));
    }
}

/// Round trip of an instance section: the content that a builder produces
/// from a sequence of items (whatever bytes follow it) declares as many
/// items as were added, and reading that many records gives back each
/// item's fields in the order they were added, ending where the content
/// ends.
pub proof fn law_instance_section_round_trip(items: Seq<InstanceItem>, rest: Seq<u8>, base: int)
    requires
        items.len() <= u32::MAX,
        forall|i: int| 0 <= i < items.len() ==> item_valid(#[trigger] items[i]),
    ensures
        ({
            let data = section_bytes(items.len(), items_bytes(items)) + rest;
            let k = uvarint(items.len()).len() as int;
            parse_u32(data, 0, base) == Ok::<(u32, int), DecodeError>((items.len() as u32, k))
                && parse_instances(data, k, base, items.len()) == Ok::<
                (Seq<InstanceModel>, int),
                DecodeError,
            >(
                (
                    items.map_values(|it: InstanceItem| decoded_item(it)),
                    k + items_bytes(items).len(),
                ),
            )
        }),
{
    let data = section_bytes(items.len(), items_bytes(items)) + rest;
    let c = uvarint(items.len());
    assert(data =~= (c + items_bytes(items)) + rest);
    assert(data.subrange(0, (c + items_bytes(items)).len() as int) =~= c + items_bytes(items));
    lemma_holds_split(data, 0, c, items_bytes(items));
    lemma_u32_decode(data, 0, base, items.len() as u32);
    lemma_instances_decode(data, c.len() as int, base, items);
}

/// Round trip of named exports: a section of them (as `ExportSection`
/// builds it, or as an export-items record lists them), whatever bytes
/// follow it, declares their number, and reading that many export records
/// gives back each name, kind and index in order.
pub proof fn law_export_section_round_trip(
    exports: Seq<(Seq<char>, Export)>,
    rest: Seq<u8>,
    base: int,
)
    requires
        exports.len() <= u32::MAX,
        names_fit(exports),
    ensures
        ({
            let data = section_bytes(exports.len(), exports_bytes(exports)) + rest;
            let k = uvarint(exports.len()).len() as int;
            parse_u32(data, 0, base) == Ok::<(u32, int), DecodeError>((exports.len() as u32, k))
                && parse_exports(data, k, base, exports.len()) == Ok::<
                (Seq<ItemModel>, int),
                DecodeError,
            >((exports_models(exports), k + exports_bytes(exports).len()))
        }),
{
    let data = section_bytes(exports.len(), exports_bytes(exports)) + rest;
    let c = uvarint(exports.len());
    assert(data =~= (c + exports_bytes(exports)) + rest);
    assert(data.subrange(0, (c + exports_bytes(exports)).len() as int) =~= c + exports_bytes(
        exports,
    ));
    lemma_holds_split(data, 0, c, exports_bytes(exports));
    lemma_u32_decode(data, 0, base, exports.len() as u32);
    lemma_exports_decode(data, c.len() as int, base, exports);
}

/// A name followed by a byte outside the export family does not decode as
/// an export: the error is `InvalidTag`, at the offset of that byte.
pub proof fn law_export_tag_rejected(data: Seq<u8>, pos: int, base: int, name: Seq<char>, b: u8)
    requires
        text_fits(name),
        export_kind_of_byte(b) is None,
        holds_at(data, pos, text_bytes(name) + seq![b]),
    ensures
        parse_export(data, pos, base) == Err::<(ItemModel, int), DecodeError>(
            DecodeError::InvalidTag {
                byte: b,
                offset: (base + pos + text_bytes(name).len()) as usize,
            },
        ),
{
    lemma_holds_split(data, pos, text_bytes(name), seq![b]);
    lemma_text_decode(data, pos, base, name);
    lemma_byte_at(data, pos + text_bytes(name).len(), b);
}

/// A name followed by a byte outside the instantiation-argument family does
/// not decode as an argument: the error is `InvalidTag`, at the offset of
/// that byte.
pub proof fn law_arg_tag_rejected(data: Seq<u8>, pos: int, base: int, name: Seq<char>, b: u8)
    requires
        text_fits(name),
        arg_kind_of_byte(b) is None,
        holds_at(data, pos, text_bytes(name) + seq![b]),
    ensures
        parse_arg(data, pos, base) == Err::<(ItemModel, int), DecodeError>(
            DecodeError::InvalidTag {
                byte: b,
                offset: (base + pos + text_bytes(name).len()) as usize,
            },
        ),
{
    lemma_holds_split(data, pos, text_bytes(name), seq![b]);
    lemma_text_decode(data, pos, base, name);
    lemma_byte_at(data, pos + text_bytes(name).len(), b);
}

/// An instance record whose leading byte is neither `0x00` nor `0x01` is
/// rejected with `InvalidDiscriminant` at the offset of that byte, whatever
/// follows.
pub proof fn law_discriminant_rejected(data: Seq<u8>, pos: int, base: int, b: u8)
    requires
        b != crate::instances::INSTANTIATE_DISCRIMINANT,
        b != crate::instances::FROM_EXPORTS_DISCRIMINANT,
        holds_at(data, pos, seq![b]),
    ensures
        parse_instance(data, pos, base) == Err::<(InstanceModel, int), DecodeError>(
            DecodeError::InvalidDiscriminant { byte: b, offset: (base + pos) as usize },
        ),
{
    lemma_byte_at(data, pos, b);
}

/// The first `k` pulls of a bounded iteration that starts in state `v`:
/// what each yielded, and the state after them.
pub open spec fn iter_run(v: IterView, k: nat) -> (
    Seq<Option<Result<InstanceModel, DecodeError>>>,
    IterView,
)
    decreases k,
{
    if k == 0 {
        (Seq::empty(), v)
    } else {
        let (out, w) = iter_run(v, (k - 1) as nat);
        let (x, w2) = iter_step(w);
        (out.push(x), w2)
    }
}

proof fn lemma_instances_len(data: Seq<u8>, pos: int, base: int, n: nat)
    requires
        parse_instances(data, pos, base, n) is Ok,
    ensures
        (parse_instances(data, pos, base, n)->Ok_0).0.len() == n,
    decreases n,
{
    if n > 0 {
        lemma_instances_len(data, pos, base, (n - 1) as nat);
    }
}

proof fn lemma_instances_prefix(data: Seq<u8>, pos: int, base: int, n: nat, k: nat)
    requires
        k <= n,
        parse_instances(data, pos, base, n) is Ok,
    ensures
        parse_instances(data, pos, base, k) is Ok,
        (parse_instances(data, pos, base, k)->Ok_0).0 == (parse_instances(data, pos, base, n)->Ok_0).0.subrange(0, k as int),
    decreases n,
{
    let ms = (parse_instances(data, pos, base, n)->Ok_0).0;
    lemma_instances_len(data, pos, base, n);
    if k == n {
        assert(ms.subrange(0, k as int) =~= ms);
    } else {
        let prev = (parse_instances(data, pos, base, (n - 1) as nat)->Ok_0).0;
        assert(ms == prev.push((parse_instance(data, (parse_instances(data, pos, base, (n - 1) as nat)->Ok_0).1, base)->Ok_0).0));
        lemma_instances_prefix(data, pos, base, (n - 1) as nat, k);
        lemma_instances_len(data, pos, base, (n - 1) as nat);
        assert(prev.subrange(0, k as int) =~= ms.subrange(0, k as int));
    }
}

proof fn lemma_iter_run_within(data: Seq<u8>, pos: int, base: int, n: nat, k: nat)
    requires
        k <= n,
        parse_instances(data, pos, base, n) is Ok,
    ensures
        ({
            let v0 = IterView {
                cursor: ReaderView { data, pos, base },
                remaining: n,
                done: false,
            };
            let pk = parse_instances(data, pos, base, k)->Ok_0;
            iter_run(v0, k).1 == IterView {
                cursor: ReaderView { data, pos: pk.1, base },
                remaining: (n - k) as nat,
                done: false,
            } && iter_run(v0, k).0 == pk.0.map_values(
                |m: InstanceModel| Some(Ok::<InstanceModel, DecodeError>(m)),
            )
        }),
    decreases k,
{
    lemma_instances_prefix(data, pos, base, n, k);
    let v0 = IterView { cursor: ReaderView { data, pos, base }, remaining: n, done: false };
    if k == 0 {
        assert(iter_run(v0, k).0 =~= (parse_instances(data, pos, base, k)->Ok_0).0.map_values(
            |m: InstanceModel| Some(Ok::<InstanceModel, DecodeError>(m)),
        ));
    } else {
        lemma_iter_run_within(data, pos, base, n, (k - 1) as nat);
        let prev = parse_instances(data, pos, base, (k - 1) as nat)->Ok_0;
        let pk = parse_instances(data, pos, base, k)->Ok_0;
        assert(pk.0 == prev.0.push((parse_instance(data, prev.1, base)->Ok_0).0));
        assert(iter_run(v0, k).0 =~= pk.0.map_values(
            |m: InstanceModel| Some(Ok::<InstanceModel, DecodeError>(m)),
        ));
    }
}

proof fn lemma_iter_run_beyond(data: Seq<u8>, pos: int, base: int, n: nat, j: nat)
    requires
        parse_instances(data, pos, base, n) is Ok,
    ensures
        ({
            let v0 = IterView {
                cursor: ReaderView { data, pos, base },
                remaining: n,
                done: false,
            };
            iter_run(v0, n + j).1 == iter_run(v0, n).1 && iter_run(v0, n + j).0 == iter_run(
                v0,
                n,
            ).0 + Seq::new(j, |i: int| None::<Result<InstanceModel, DecodeError>>)
        }),
    decreases j,
{
    let v0 = IterView { cursor: ReaderView { data, pos, base }, remaining: n, done: false };
    lemma_iter_run_within(data, pos, base, n, n);
    if j == 0 {
        assert(iter_run(v0, n).0 + Seq::new(j, |i: int| None::<Result<InstanceModel, DecodeError>>)
            =~= iter_run(v0, n).0);
    } else {
        lemma_iter_run_beyond(data, pos, base, n, (j - 1) as nat);
        assert(iter_run(v0, n + j) == {
            let (out, w) = iter_run(v0, (n + j - 1) as nat);
            let (x, w2) = iter_step(w);
            (out.push(x), w2)
        });
        assert(iter_run(v0, n).0 + Seq::new(j, |i: int| None::<Result<InstanceModel, DecodeError>>)
            =~= (iter_run(v0, n).0 + Seq::new(
            (j - 1) as nat,
            |i: int| None::<Result<InstanceModel, DecodeError>>,
        )).push(None));
    }
}

/// Count exhaustion: when the `n` declared records are well formed, the
/// bounded iteration yields exactly those `n` records, in order, and then
/// nothing more, whatever bytes remain after them.
pub proof fn law_count_exhaustion(data: Seq<u8>, pos: int, base: int, n: nat, extra: nat)
    requires
        parse_instances(data, pos, base, n) is Ok,
    ensures
        ({
            let v0 = IterView {
                cursor: ReaderView { data, pos, base },
                remaining: n,
                done: false,
            };
            let out = iter_run(v0, n + extra).0;
            let ms = (parse_instances(data, pos, base, n)->Ok_0).0;
            out.len() == n + extra && (forall|i: int|
                0 <= i < n ==> #[trigger] out[i] == Some(Ok::<InstanceModel, DecodeError>(ms[i])))
                && (forall|i: int| n <= i < n + extra ==> #[trigger] out[i] is None)
        }),
{
    let v0 = IterView { cursor: ReaderView { data, pos, base }, remaining: n, done: false };
    lemma_iter_run_within(data, pos, base, n, n);
    lemma_iter_run_beyond(data, pos, base, n, extra);
    let ms = (parse_instances(data, pos, base, n)->Ok_0).0;
    lemma_instances_len(data, pos, base, n);
    assert(ms.subrange(0, n as int) =~= ms);
    let out = iter_run(v0, n + extra).0;
    assert forall|i: int| 0 <= i < n implies #[trigger] out[i] == Some(
        Ok::<InstanceModel, DecodeError>(ms[i]),
    ) by {
        assert(out[i] == iter_run(v0, n).0[i]);
    }
    assert forall|i: int| n <= i < n + extra implies #[trigger] out[i] is None by {
        assert(out[i] == Seq::new(extra, |i: int| None::<Result<InstanceModel, DecodeError>>)[i - n]);
    }
}

/// `data` ends strictly inside `enc`, which it holds from `pos` on.
pub open spec fn cut_at(data: Seq<u8>, pos: int, enc: Seq<u8>) -> bool {
    0 <= pos <= data.len() < pos + enc.len() && data.subrange(pos, data.len() as int)
        == enc.subrange(0, data.len() - pos)
}

/// The outcome is a failure for want of bytes, reported at an absolute
/// offset between `lo` and `hi`.
pub open spec fn eof_within<T>(r: Result<T, DecodeError>, lo: int, hi: int) -> bool {
    match r {
        Err(DecodeError::UnexpectedEof { offset }) => lo <= offset <= hi,
        _ => false,
    }
}

proof fn lemma_cut_split(data: Seq<u8>, pos: int, x: Seq<u8>, y: Seq<u8>)
    requires
        cut_at(data, pos, x + y),
    ensures
        cut_at(data, pos, x) || (holds_at(data, pos, x) && cut_at(data, pos + x.len(), y)),
{
    let xy = x + y;
    let d = data.subrange(pos, data.len() as int);
    if data.len() < pos + x.len() {
        assert(xy.subrange(0, data.len() - pos) =~= x.subrange(0, data.len() - pos));
    } else {
        assert(data.subrange(pos, pos + x.len()) =~= d.subrange(0, x.len() as int));
        assert(xy.subrange(0, data.len() - pos).subrange(0, x.len() as int) =~= x);
        assert(data.subrange(pos + x.len(), data.len() as int) =~= d.subrange(
            x.len() as int,
            d.len() as int,
        ));
        assert(xy.subrange(0, data.len() - pos).subrange(x.len() as int, data.len() - pos)
            =~= y.subrange(0, data.len() - pos - x.len()));
    }
}

proof fn lemma_groups_cut(data: Seq<u8>, pos: int, base: int, i: nat, acc: nat, w: nat)
    requires
        0 <= base,
        base + data.len() <= usize::MAX,
        i <= 4,
        acc < pow128(i),
        w * pow128(i) + acc <= u32::MAX,
        cut_at(data, pos + i, uvarint(w)),
    ensures
        eof_within(u32_groups(data, pos, base, i, acc), base + pos, base + data.len()),
    decreases 4 - i,
{
    lemma_uvarint_first(w);
    if pos + i < data.len() {
        let p = pow128(i);
        assert(data[pos + i] == uvarint(w)[0]) by {
            assert(data.subrange(pos + i, data.len() as int)[0] == data[pos + i]);
        }
        assert(w >= 128);
        assert(pow128(4) == 268435456) by {
            assert(pow128(0) == 1);
            assert(pow128(1) == 128);
            assert(pow128(2) == 16384);
            assert(pow128(3) == 2097152);
        }
        if i == 4 {
            assert(false) by (nonlinear_arith)
                requires
                    w >= 128,
                    w * 268435456 + acc <= 4294967295,
            ;
        }
        let low = w % 128;
        let hi = w / 128;
        assert(pow128(i + 1) == 128 * p);
        assert(acc + low * p < 128 * p) by (nonlinear_arith)
            requires
                acc < p,
                low < 128,
        ;
        assert(hi * (128 * p) + (acc + low * p) == w * p + acc) by (nonlinear_arith)
            requires
                w == 128 * hi + low,
        ;
        lemma_cut_split(data, pos + i, seq![((w % 128) + 128) as u8], uvarint(hi));
        lemma_groups_cut(data, pos, base, i + 1, acc + low * p, hi);
    }
}

proof fn lemma_u32_cut(data: Seq<u8>, pos: int, base: int, v: u32)
    requires
        0 <= base,
        base + data.len() <= usize::MAX,
        cut_at(data, pos, uvarint(v as nat)),
    ensures
        eof_within(parse_u32(data, pos, base), base + pos, base + data.len()),
{
    assert(pow128(0) == 1);
    lemma_groups_cut(data, pos, base, 0, 0, v as nat);
}

proof fn lemma_text_cut(data: Seq<u8>, pos: int, base: int, name: Seq<char>)
    requires
        0 <= base,
        base + data.len() <= usize::MAX,
        text_fits(name),
        cut_at(data, pos, text_bytes(name)),
    ensures
        eof_within(parse_text(data, pos, base), base + pos, base + data.len()),
{
    let len = utf8_of(name).len();
    lemma_cut_split(data, pos, uvarint(len), utf8_of(name));
    if cut_at(data, pos, uvarint(len)) {
        lemma_u32_cut(data, pos, base, len as u32);
    } else {
        lemma_u32_decode(data, pos, base, len as u32);
    }
}

proof fn lemma_ref_cut(
    data: Seq<u8>,
    pos: int,
    name: Seq<char>,
    tag: u8,
    index: u32,
)
    requires
        text_fits(name),
        cut_at(data, pos, text_bytes(name) + (seq![tag] + uvarint(index as nat))),
    ensures
        cut_at(data, pos, text_bytes(name)) || (holds_at(data, pos, text_bytes(name))
            && data.len() == pos + text_bytes(name).len()) || (holds_at(
            data,
            pos,
            text_bytes(name) + seq![tag],
        ) && cut_at(data, pos + text_bytes(name).len() + 1, uvarint(index as nat))),
{
    let t = text_bytes(name);
    let k = seq![tag];
    let i = uvarint(index as nat);
    lemma_cut_split(data, pos, t, k + i);
    if !cut_at(data, pos, t) {
        lemma_cut_split(data, pos + t.len(), k, i);
        if !cut_at(data, pos + t.len(), k) {
            assert(data.subrange(pos, pos + t.len() + 1) =~= data.subrange(
                pos,
                pos + t.len(),
            ) + data.subrange(pos + t.len(), pos + t.len() + 1));
        }
    }
}

proof fn lemma_truncation_cuts(full: Seq<u8>, pos: int, rec: Seq<u8>, k: int)
    requires
        holds_at(full, pos, rec),
        pos <= k < pos + rec.len(),
    ensures
        cut_at(full.subrange(0, k), pos, rec),
{
    let data = full.subrange(0, k);
    assert forall|j: int| 0 <= j < k - pos implies data.subrange(pos, k)[j] == rec.subrange(
        0,
        k - pos,
    )[j] by {
        assert(full.subrange(pos, pos + rec.len())[j] == full[pos + j]);
    }
    assert(data.subrange(pos, k) =~= rec.subrange(0, k - pos));
}

proof fn lemma_export_cut(data: Seq<u8>, pos: int, base: int, name: Seq<char>, e: Export)
    requires
        0 <= base,
        base + data.len() <= usize::MAX,
        text_fits(name),
        cut_at(data, pos, export_record(name, e)),
    ensures
        eof_within(parse_export(data, pos, base), base + pos, base + data.len()),
{
    let tag = crate::kinds::export_kind_byte(crate::exports::kind_of(e));
    let index = crate::exports::index_of(e);
    assert(export_record(name, e) =~= text_bytes(name) + (seq![tag] + uvarint(index as nat)));
    lemma_ref_cut(data, pos, name, tag, index);
    let t = text_bytes(name);
    if cut_at(data, pos, t) {
        lemma_text_cut(data, pos, base, name);
    } else if holds_at(data, pos, t) && data.len() == pos + t.len() {
        lemma_text_decode(data, pos, base, name);
    } else {
        lemma_holds_split(data, pos, t, seq![tag]);
        lemma_text_decode(data, pos, base, name);
        lemma_byte_at(data, pos + t.len(), tag);
        lemma_u32_cut(data, pos + t.len() + 1, base, index);
    }
}

proof fn lemma_arg_cut(data: Seq<u8>, pos: int, base: int, name: Seq<char>, a: ModuleArg)
    requires
        0 <= base,
        base + data.len() <= usize::MAX,
        text_fits(name),
        cut_at(data, pos, text_bytes(name) + module_arg_bytes(a)),
    ensures
        eof_within(parse_arg(data, pos, base), base + pos, base + data.len()),
{
    let tag = crate::kinds::CORE_INSTANCE_SORT;
    let index = arg_index(a);
    assert(text_bytes(name) + module_arg_bytes(a) =~= text_bytes(name) + (seq![tag] + uvarint(
        index as nat,
    )));
    lemma_ref_cut(data, pos, name, tag, index);
    let t = text_bytes(name);
    if cut_at(data, pos, t) {
        lemma_text_cut(data, pos, base, name);
    } else if holds_at(data, pos, t) && data.len() == pos + t.len() {
        lemma_text_decode(data, pos, base, name);
    } else {
        lemma_holds_split(data, pos, t, seq![tag]);
        lemma_text_decode(data, pos, base, name);
        lemma_byte_at(data, pos + t.len(), tag);
        lemma_u32_cut(data, pos + t.len() + 1, base, index);
    }
}

proof fn lemma_args_cut(data: Seq<u8>, pos: int, base: int, args: Seq<(Seq<char>, ModuleArg)>)
    requires
        0 <= base,
        base + data.len() <= usize::MAX,
        names_fit(args),
        cut_at(data, pos, args_bytes(args)),
    ensures
        eof_within(parse_args(data, pos, base, args.len()), base + pos, base + data.len()),
    decreases args.len(),
{
    let init = args.drop_last();
    let (name, a) = args.last();
    assert(names_fit(init)) by {
        assert forall|i: int| 0 <= i < init.len() implies text_fits(#[trigger] init[i].0) by {
            assert(init[i] == args[i]);
        }
    }
    assert(text_fits(args[args.len() - 1].0));
    assert(args_bytes(args) =~= args_bytes(init) + (text_bytes(name) + module_arg_bytes(a)));
    lemma_cut_split(data, pos, args_bytes(init), text_bytes(name) + module_arg_bytes(a));
    if cut_at(data, pos, args_bytes(init)) {
        lemma_args_cut(data, pos, base, init);
    } else {
        lemma_args_decode(data, pos, base, init);
        lemma_arg_cut(data, pos + args_bytes(init).len(), base, name, a);
    }
}

proof fn lemma_exports_cut(data: Seq<u8>, pos: int, base: int, exports: Seq<(Seq<char>, Export)>)
    requires
        0 <= base,
        base + data.len() <= usize::MAX,
        names_fit(exports),
        cut_at(data, pos, exports_bytes(exports)),
    ensures
        eof_within(parse_exports(data, pos, base, exports.len()), base + pos, base + data.len()),
    decreases exports.len(),
{
    let init = exports.drop_last();
    let (name, e) = exports.last();
    assert(names_fit(init)) by {
        assert forall|i: int| 0 <= i < init.len() implies text_fits(#[trigger] init[i].0) by {
            assert(init[i] == exports[i]);
        }
    }
    assert(text_fits(exports[exports.len() - 1].0));
    lemma_cut_split(data, pos, exports_bytes(init), export_record(name, e));
    if cut_at(data, pos, exports_bytes(init)) {
        lemma_exports_cut(data, pos, base, init);
    } else {
        lemma_exports_decode(data, pos, base, init);
        lemma_export_cut(data, pos + exports_bytes(init).len(), base, name, e);
    }
}

proof fn lemma_instance_cut(data: Seq<u8>, pos: int, base: int, it: InstanceItem)
    requires
        0 <= base,
        base + data.len() <= usize::MAX,
        item_valid(it),
        cut_at(data, pos, item_record(it)),
    ensures
        eof_within(parse_instance(data, pos, base), base + pos, base + data.len()),
{
    match it {
        InstanceItem::Instantiate { module_index, args } => {
            let d = seq![crate::instances::INSTANTIATE_DISCRIMINANT];
            let m = uvarint(module_index as nat);
            let n = uvarint(args.len());
            lemma_cut_split(data, pos, d + m + n, args_bytes(args));
            if cut_at(data, pos, d + m + n) {
                lemma_cut_split(data, pos, d + m, n);
                if cut_at(data, pos, d + m) {
                    lemma_cut_split(data, pos, d, m);
                    if !cut_at(data, pos, d) {
                        lemma_byte_at(data, pos, crate::instances::INSTANTIATE_DISCRIMINANT);
                        lemma_u32_cut(data, pos + 1, base, module_index);
                    }
                } else {
                    lemma_holds_split(data, pos, d, m);
                    lemma_byte_at(data, pos, crate::instances::INSTANTIATE_DISCRIMINANT);
                    lemma_u32_decode(data, pos + 1, base, module_index);
                    lemma_u32_cut(data, pos + 1 + m.len(), base, args.len() as u32);
                }
            } else {
                lemma_holds_split(data, pos, d + m, n);
                lemma_holds_split(data, pos, d, m);
                lemma_byte_at(data, pos, crate::instances::INSTANTIATE_DISCRIMINANT);
                lemma_u32_decode(data, pos + 1, base, module_index);
                lemma_u32_decode(data, pos + 1 + m.len(), base, args.len() as u32);
                lemma_args_cut(data, pos + 1 + m.len() + n.len(), base, args);
            }
        },
        InstanceItem::ExportItems(exports) => {
            let d = seq![crate::instances::FROM_EXPORTS_DISCRIMINANT];
            let n = uvarint(exports.len());
            lemma_cut_split(data, pos, d + n, exports_bytes(exports));
            if cut_at(data, pos, d + n) {
                lemma_cut_split(data, pos, d, n);
                if !cut_at(data, pos, d) {
                    lemma_byte_at(data, pos, crate::instances::FROM_EXPORTS_DISCRIMINANT);
                    lemma_u32_cut(data, pos + 1, base, exports.len() as u32);
                }
            } else {
                lemma_holds_split(data, pos, d, n);
                lemma_byte_at(data, pos, crate::instances::FROM_EXPORTS_DISCRIMINANT);
                lemma_u32_decode(data, pos + 1, base, exports.len() as u32);
                lemma_exports_cut(data, pos + 1 + n.len(), base, exports);
            }
        },
    }
}

/// Truncation safety of an export record: cut anywhere before its end, it
/// does not decode, and the failure is `UnexpectedEof`, reported between
/// the record's start and the end of the truncated data.
pub proof fn law_truncated_export(
    full: Seq<u8>,
    pos: int,
    base: int,
    name: Seq<char>,
    e: Export,
    k: int,
)
    requires
        0 <= base,
        base + full.len() <= usize::MAX,
        text_fits(name),
        holds_at(full, pos, export_record(name, e)),
        pos <= k < pos + export_record(name, e).len(),
    ensures
        eof_within(parse_export(full.subrange(0, k), pos, base), base + pos, base + k),
{
    lemma_truncation_cuts(full, pos, export_record(name, e), k);
    lemma_export_cut(full.subrange(0, k), pos, base, name, e);
}

/// Truncation safety of an instance record: cut anywhere before its end,
/// it does not decode, and the failure is `UnexpectedEof`, reported between
/// the record's start and the end of the truncated data.
pub proof fn law_truncated_instance(full: Seq<u8>, pos: int, base: int, it: InstanceItem, k: int)
    requires
        0 <= base,
        base + full.len() <= usize::MAX,
        item_valid(it),
        holds_at(full, pos, item_record(it)),
        pos <= k < pos + item_record(it).len(),
    ensures
        eof_within(parse_instance(full.subrange(0, k), pos, base), base + pos, base + k),
{
    lemma_truncation_cuts(full, pos, item_record(it), k);
    lemma_instance_cut(full.subrange(0, k), pos, base, it);
}

/// Record by record round trip of an instance section: in the content
/// that a builder produces from a sequence of items, after the count and
/// the first `k` records have been read one by one (each read starting
/// where the previous one ended, as `InstanceSectionReader::read` does),
/// the next read succeeds and gives back the fields of the `k`-th item
/// added.
pub proof fn law_kth_read(items: Seq<InstanceItem>, rest: Seq<u8>, base: int, k: nat)
    requires
        items.len() <= u32::MAX,
        forall|i: int| 0 <= i < items.len() ==> item_valid(#[trigger] items[i]),
        k < items.len(),
    ensures
        ({
            let data = section_bytes(items.len(), items_bytes(items)) + rest;
            let c = uvarint(items.len()).len() as int;
            parse_instances(data, c, base, k) is Ok && parse_instances(data, c, base, k + 1) is Ok
                && parse_instance(data, (parse_instances(data, c, base, k)->Ok_0).1, base) == Ok::<
                (InstanceModel, int),
                DecodeError,
            >((decoded_item(items[k as int]), (parse_instances(data, c, base, k + 1)->Ok_0).1))
        }),
{
    let data = section_bytes(items.len(), items_bytes(items)) + rest;
    let c = uvarint(items.len()).len() as int;
    law_instance_section_round_trip(items, rest, base);
    lemma_instances_prefix(data, c, base, items.len(), k + 1);
    lemma_instances_prefix(data, c, base, items.len(), k);
    lemma_instances_len(data, c, base, k);
    let all = (parse_instances(data, c, base, items.len())->Ok_0).0;
    assert(all == items.map_values(|it: InstanceItem| decoded_item(it)));
    let upto = (parse_instances(data, c, base, k + 1)->Ok_0).0;
    assert(upto[k as int] == all[k as int]);
}

/// A bad tag inside a whole export-items record: when the record declares
/// `n` exports, fewer than `n` well-formed ones (`before`) come first, and
/// the next name is followed by a byte
/// outside the export family, reading the record fails with `InvalidTag`
/// at the offset of that byte.
pub proof fn law_bad_tag_in_export_items(
    data: Seq<u8>,
    pos: int,
    base: int,
    n: u32,
    before: Seq<(Seq<char>, Export)>,
    name: Seq<char>,
    b: u8,
)
    requires
        before.len() < n,
        names_fit(before),
        text_fits(name),
        export_kind_of_byte(b) is None,
        holds_at(
            data,
            pos,
            seq![crate::instances::FROM_EXPORTS_DISCRIMINANT] + uvarint(n as nat) + exports_bytes(
                before,
            ) + text_bytes(name) + seq![b],
        ),
    ensures
        parse_instance(data, pos, base) == Err::<(InstanceModel, int), DecodeError>(
            DecodeError::InvalidTag {
                byte: b,
                offset: (base + pos + 1 + uvarint(n as nat).len() + exports_bytes(before).len()
                    + text_bytes(name).len()) as usize,
            },
        ),
{
    let d = seq![crate::instances::FROM_EXPORTS_DISCRIMINANT];
    let c = uvarint(n as nat);
    let eb = exports_bytes(before);
    let tail = text_bytes(name) + seq![b];
    assert(d + c + eb + text_bytes(name) + seq![b] =~= (d + c) + (eb + tail));
    lemma_holds_split(data, pos, d + c, eb + tail);
    lemma_holds_split(data, pos, d, c);
    lemma_holds_split(data, pos + 1 + c.len(), eb, tail);
    lemma_byte_at(data, pos, crate::instances::FROM_EXPORTS_DISCRIMINANT);
    lemma_u32_decode(data, pos + 1, base, n);
    let start = pos + 1 + c.len();
    lemma_exports_decode(data, start, base, before);
    law_export_tag_rejected(data, start + eb.len(), base, name, b);
    lemma_parse_exports_fail(data, start, base, (before.len() + 1) as nat, n as nat);
}

/// A bad tag inside a whole instantiation record: when the record declares
/// `n` arguments, fewer than `n` well-formed ones (`before`) come first, and
/// the next name is followed by a
/// byte outside the argument family, reading the record fails with
/// `InvalidTag` at the offset of that byte.
pub proof fn law_bad_tag_in_instantiate(
    data: Seq<u8>,
    pos: int,
    base: int,
    module_index: u32,
    n: u32,
    before: Seq<(Seq<char>, ModuleArg)>,
    name: Seq<char>,
    b: u8,
)
    requires
        before.len() < n,
        names_fit(before),
        text_fits(name),
        arg_kind_of_byte(b) is None,
        holds_at(
            data,
            pos,
            seq![crate::instances::INSTANTIATE_DISCRIMINANT] + uvarint(module_index as nat)
                + uvarint(n as nat) + args_bytes(before) + text_bytes(name) + seq![b],
        ),
    ensures
        parse_instance(data, pos, base) == Err::<(InstanceModel, int), DecodeError>(
            DecodeError::InvalidTag {
                byte: b,
                offset: (base + pos + 1 + uvarint(module_index as nat).len() + uvarint(
                    n as nat,
                ).len() + args_bytes(before).len() + text_bytes(name).len()) as usize,
            },
        ),
{
    let d = seq![crate::instances::INSTANTIATE_DISCRIMINANT];
    let m = uvarint(module_index as nat);
    let c = uvarint(n as nat);
    let ab = args_bytes(before);
    let tail = text_bytes(name) + seq![b];
    assert(d + m + c + ab + text_bytes(name) + seq![b] =~= (d + m + c) + (ab + tail));
    lemma_holds_split(data, pos, d + m + c, ab + tail);
    lemma_holds_split(data, pos, d + m, c);
    lemma_holds_split(data, pos, d, m);
    let start = pos + 1 + m.len() + c.len();
    lemma_holds_split(data, start, ab, tail);
    lemma_byte_at(data, pos, crate::instances::INSTANTIATE_DISCRIMINANT);
    lemma_u32_decode(data, pos + 1, base, module_index);
    lemma_u32_decode(data, pos + 1 + m.len(), base, n);
    lemma_args_decode(data, start, base, before);
    law_arg_tag_rejected(data, start + ab.len(), base, name, b);
    lemma_parse_args_fail(data, start, base, (before.len() + 1) as nat, n as nat);
}

} // verus!
