//! The closed structured-value model and its dispatcher: one case per
//! primitive, optional, sequence, tuple, map, struct and enum-variant kind.
//! `encode_value` walks a value and produces one store handle;
//! `decodes_to` is the decode relation the encoder is proved against: it
//! says exactly when a handle, read back by the decoder's rules, reproduces
//! a value's structural content.

use vstd::prelude::*;

use crate::deserializer::{resolved_items, variant_segment, GarnishDataDeserializer,
    ListAccessor};
use crate::error::GarnishSerializationError;
use crate::number::Scalar;
use crate::options::{GarnishSerializationOptions, OptionalBehavior, StructBehavior,
    VariantNameBehavior};
use crate::serializer::GarnishDataSerializer;
use crate::store::{chars_of, is_byte_list, list_addrs, StoreValue};

verus! {

/// A generic structured value: the closed set of shapes the codec moves in
/// and out of the store.
#[derive(Debug)]
pub enum GarnishValue {
    Bool(bool),
    Integer(i128),
    /// A float, carried as its double-width bit pattern.
    FloatBits(u64),
    Character(char),
    Text(Vec<char>),
    Bytes(Vec<u8>),
    Unit,
    /// An absent optional.
    Absent,
    /// A present optional.
    Present(Box<GarnishValue>),
    UnitStruct(Vec<char>),
    NewtypeStruct(Vec<char>, Box<GarnishValue>),
    Sequence(Vec<GarnishValue>),
    Tuple(Vec<GarnishValue>),
    TupleStruct(Vec<char>, Vec<GarnishValue>),
    MapValue(Vec<(Vec<char>, GarnishValue)>),
    StructValue(Vec<char>, Vec<(Vec<char>, GarnishValue)>),
    UnitVariant(Vec<char>, u32, Vec<char>),
    NewtypeVariant(Vec<char>, u32, Vec<char>, Box<GarnishValue>),
    TupleVariant(Vec<char>, u32, Vec<char>, Vec<GarnishValue>),
    StructVariant(Vec<char>, u32, Vec<char>, Vec<(Vec<char>, GarnishValue)>),
}

/// The index of the first resolved entry that is a `Pair` keyed by `name`.
pub open spec fn find_key(
    cells: Seq<StoreValue>,
    hs: Seq<usize>,
    name: Seq<char>,
) -> Option<int>
    decreases hs.len(),
{
    if hs.len() == 0 {
        None
    } else {
        let h = hs[0];
        let here = if 0 <= (h as int) < cells.len() {
            match cells[h as int] {
                StoreValue::Pair(k, _) => chars_of(cells, k as int) == Some(name),
                _ => false,
            }
        } else {
            false
        };
        if here {
            Some(0)
        } else {
            match find_key(cells, hs.drop_first(), name) {
                Some(j) => Some(j + 1),
                None => None,
            }
        }
    }
}

/// The resolved entry at `h` is a `Pair` whose key is a string-like value
/// that materializes to a readable name: what map and struct decoding
/// demands of every entry.
pub open spec fn entry_readable(cells: Seq<StoreValue>, h: usize) -> bool {
    &&& (h as int) < cells.len()
    &&& match cells[h as int] {
        StoreValue::Pair(k, _) => {
            &&& (k as int) < cells.len()
            &&& (cells[k as int] is CharList || cells[k as int] is Symbol
                || cells[k as int] is Concatenation || cells[k as int] is Slice)
            &&& chars_of(cells, k as int).is_some()
        },
        _ => false,
    }
}

/// The value handle of the `Pair` at `h`.
pub open spec fn pair_value(cells: Seq<StoreValue>, h: usize) -> usize {
    match cells[h as int] {
        StoreValue::Pair(_, v) => v,
        _ => 0,
    }
}

/// The key characters of the `Pair` at `h`.
pub open spec fn pair_key_chars(cells: Seq<StoreValue>, h: usize) -> Option<Seq<char>> {
    match cells[h as int] {
        StoreValue::Pair(k, _) => chars_of(cells, k as int),
        _ => None,
    }
}

/// When reading handle `a` by the decoder's rules — tags checked against
/// the value's own shape, list-likes resolved through the
/// List/Concatenation/Slice view, strings materialized, discriminant
/// symbols split on `"::"` — yields exactly `v`'s structural content.
pub open spec fn decodes_to(cells: Seq<StoreValue>, a: usize, v: GarnishValue) -> bool
    decreases v,
{
    &&& (a as int) < cells.len()
    &&& match v {
        GarnishValue::Bool(b) => cells[a as int] == (if b {
            StoreValue::True
        } else {
            StoreValue::False
        }),
        GarnishValue::Integer(n) => cells[a as int] == StoreValue::Number(Scalar::Integer(n)),
        GarnishValue::FloatBits(bits) => cells[a as int] == StoreValue::Number(
            Scalar::FloatBits(bits)),
        GarnishValue::Character(c) => cells[a as int] == StoreValue::Char(c),
        GarnishValue::Text(cs) => {
            &&& (cells[a as int] is CharList || cells[a as int] is Symbol
                || cells[a as int] is Concatenation || cells[a as int] is Slice)
            &&& chars_of(cells, a as int) == Some(cs@)
        },
        GarnishValue::Bytes(bs) => is_byte_list(cells[a as int], bs@),
        GarnishValue::Unit => cells[a as int] == StoreValue::Unit,
        GarnishValue::Absent => cells[a as int] == StoreValue::Unit,
        GarnishValue::Present(inner) => {
            &&& !(cells[a as int] is Unit)
            &&& decodes_to(cells, a, *inner)
        },
        GarnishValue::UnitStruct(_) => cells[a as int] == StoreValue::Unit,
        GarnishValue::NewtypeStruct(_, inner) => decodes_to(cells, a, *inner),
        GarnishValue::Sequence(items) => items_decode_to(cells, resolved_items(cells, a as int),
            items@),
        GarnishValue::Tuple(items) => items_decode_to(cells, resolved_items(cells, a as int),
            items@),
        GarnishValue::TupleStruct(_, items) => items_decode_to(cells,
            resolved_items(cells, a as int), items@),
        GarnishValue::MapValue(entries) => entries_decode_to(cells,
            resolved_items(cells, a as int), entries@),
        GarnishValue::StructValue(_, fields) => fields_decode_to(cells,
            resolved_items(cells, a as int), fields@),
        GarnishValue::UnitVariant(_, _, variant) => {
            &&& cells[a as int] is Symbol
            &&& match chars_of(cells, a as int) {
                Some(cs) => variant_segment(cs) == Some(variant@),
                None => false,
            }
        },
        GarnishValue::NewtypeVariant(_, _, variant, inner) => {
            match variant_list(cells, a) {
                Some(p) => {
                    &&& variant_name_at(cells, p.0) == Some(variant@)
                    &&& decodes_to(cells, p.1, *inner)
                },
                None => false,
            }
        },
        GarnishValue::TupleVariant(_, _, variant, items) => {
            match variant_list(cells, a) {
                Some(p) => {
                    &&& variant_name_at(cells, p.0) == Some(variant@)
                    &&& items_decode_to(cells, resolved_items(cells, p.1 as int), items@)
                },
                None => false,
            }
        },
        GarnishValue::StructVariant(_, _, variant, fields) => {
            match variant_list(cells, a) {
                Some(p) => {
                    &&& variant_name_at(cells, p.0) == Some(variant@)
                    &&& fields_decode_to(cells, resolved_items(cells, p.1 as int), fields@)
                },
                None => false,
            }
        },
    }
}

/// Each resolved item decodes to the matching element, one for one.
pub open spec fn items_decode_to(
    cells: Seq<StoreValue>,
    resolved: Option<Seq<usize>>,
    items: Seq<GarnishValue>,
) -> bool
    decreases items,
{
    match resolved {
        Some(hs) => {
            &&& hs.len() == items.len()
            &&& forall|i: int| 0 <= i < items.len()
                ==> decodes_to(cells, hs[i], #[trigger] items[i])
        },
        None => false,
    }
}

/// Each resolved entry is a readable pair and decodes, in order, to the
/// matching (key, value) entry.
pub open spec fn entries_decode_to(
    cells: Seq<StoreValue>,
    resolved: Option<Seq<usize>>,
    entries: Seq<(Vec<char>, GarnishValue)>,
) -> bool
    decreases entries,
{
    match resolved {
        Some(hs) => {
            &&& hs.len() == entries.len()
            &&& forall|i: int| 0 <= i < entries.len() ==> {
                &&& entry_readable(cells, hs[i])
                &&& pair_key_chars(cells, hs[i]) == Some((#[trigger] entries[i]).0@)
                &&& decodes_to(cells, pair_value(cells, hs[i]), entries[i].1)
            }
        },
        None => false,
    }
}

/// Every resolved entry is a readable pair, and each declared field finds
/// its value by name — the first entry keyed by the field's name — so
/// entries the shape does not name (such as a trailing metadata pair) are
/// ignored.
pub open spec fn fields_decode_to(
    cells: Seq<StoreValue>,
    resolved: Option<Seq<usize>>,
    fields: Seq<(Vec<char>, GarnishValue)>,
) -> bool
    decreases fields,
{
    match resolved {
        Some(hs) => {
            &&& forall|j: int| 0 <= j < hs.len() ==> entry_readable(cells, #[trigger] hs[j])
            &&& forall|i: int| 0 <= i < fields.len() ==> {
                match find_key(cells, hs, (#[trigger] fields[i]).0@) {
                    Some(j) => decodes_to(cells, pair_value(cells, hs[j]), fields[i].1),
                    None => false,
                }
            }
        },
        None => false,
    }
}

/// The `[discriminant, payload]` list behind a data-carrying variant: its
/// first two entry handles, when the cell is a two-entry `List`.
pub open spec fn variant_list(cells: Seq<StoreValue>, a: usize) -> Option<(usize, usize)> {
    if (a as int) < cells.len() {
        match cells[a as int] {
            StoreValue::List(es) => {
                if es@.len() == 2 {
                    Some((es@[0].0, es@[1].0))
                } else {
                    None
                }
            },
            _ => None,
        }
    } else {
        None
    }
}

/// The variant name a discriminant handle materializes and splits to.
pub open spec fn variant_name_at(cells: Seq<StoreValue>, h: usize) -> Option<Seq<char>> {
    match chars_of(cells, h as int) {
        Some(cs) => variant_segment(cs),
        None => None,
    }
}

/// The value's encoding is a bare `Unit` cell, so decoding it as an
/// optional would read absence.
pub open spec fn encodes_to_unit(v: GarnishValue, opts: GarnishSerializationOptions) -> bool
    decreases v,
{
    match v {
        GarnishValue::Unit => true,
        GarnishValue::Absent => opts.optional_behavior is UnitValue,
        GarnishValue::UnitStruct(_) => opts.struct_typing_behavior is ExcludeTyping,
        GarnishValue::Present(inner) => (opts.optional_behavior is UnitValue)
            && encodes_to_unit(*inner, opts),
        GarnishValue::NewtypeStruct(_, inner) => encodes_to_unit(*inner, opts),
        _ => false,
    }
}

/// A usable enum name: free of the separator and not ending in a colon, so
/// a full discriminant splits back at the right place.
pub open spec fn name_ok(name: Seq<char>) -> bool {
    sep_free(name) && (name.len() == 0 || name[name.len() - 1] != ':')
}

pub open spec fn distinct_names(fields: Seq<(Vec<char>, GarnishValue)>) -> bool {
    forall|i: int, j: int| 0 <= i < j < fields.len()
        ==> (#[trigger] fields[i]).0@ != (#[trigger] fields[j]).0@
}

/// The inputs on which encoding then decoding reproduces the value: the
/// representations the decoder resolves. Absence and presence round-trip
/// under the default unit-value policy (the symbol-tagged pair is not an
/// optional to the decoder); a present value must not itself encode to a
/// bare `Unit`; type-tagged unit structs and tuple structs wrap in ways
/// the decoder does not unwrap; struct fields need distinct names; enum
/// discriminants resolve only under the full naming policy, with names
/// free of the separator.
pub open spec fn rt_ok(v: GarnishValue, opts: GarnishSerializationOptions) -> bool
    decreases v,
{
    match v {
        GarnishValue::Bool(_) => true,
        GarnishValue::Integer(_) => true,
        GarnishValue::FloatBits(_) => true,
        GarnishValue::Character(_) => true,
        GarnishValue::Text(_) => true,
        GarnishValue::Bytes(_) => true,
        GarnishValue::Unit => true,
        GarnishValue::Absent => opts.optional_behavior is UnitValue,
        GarnishValue::Present(inner) => {
            &&& opts.optional_behavior is UnitValue
            &&& rt_ok(*inner, opts)
            &&& !encodes_to_unit(*inner, opts)
        },
        GarnishValue::UnitStruct(_) => opts.struct_typing_behavior is ExcludeTyping,
        GarnishValue::NewtypeStruct(_, inner) => rt_ok(*inner, opts),
        GarnishValue::Sequence(items) => forall|i: int| 0 <= i < items@.len()
            ==> rt_ok(#[trigger] items@[i], opts),
        GarnishValue::Tuple(items) => forall|i: int| 0 <= i < items@.len()
            ==> rt_ok(#[trigger] items@[i], opts),
        GarnishValue::TupleStruct(_, items) => {
            &&& opts.struct_typing_behavior is ExcludeTyping
            &&& forall|i: int| 0 <= i < items@.len() ==> rt_ok(#[trigger] items@[i], opts)
        },
        GarnishValue::MapValue(entries) => forall|i: int| 0 <= i < entries@.len()
            ==> rt_ok((#[trigger] entries@[i]).1, opts),
        GarnishValue::StructValue(_, fields) => {
            &&& distinct_names(fields@)
            &&& forall|i: int| 0 <= i < fields@.len()
                ==> rt_ok((#[trigger] fields@[i]).1, opts)
        },
        GarnishValue::UnitVariant(name, _, variant) => {
            &&& opts.variant_name_behavior is Full
            &&& name_ok(name@)
            &&& sep_free(variant@)
        },
        GarnishValue::NewtypeVariant(name, _, variant, inner) => {
            &&& opts.variant_name_behavior is Full
            &&& name_ok(name@)
            &&& sep_free(variant@)
            &&& rt_ok(*inner, opts)
        },
        GarnishValue::TupleVariant(name, _, variant, items) => {
            &&& opts.variant_name_behavior is Full
            &&& name_ok(name@)
            &&& sep_free(variant@)
            &&& forall|i: int| 0 <= i < items@.len() ==> rt_ok(#[trigger] items@[i], opts)
        },
        GarnishValue::StructVariant(name, _, variant, fields) => {
            &&& opts.variant_name_behavior is Full
            &&& name_ok(name@)
            &&& sep_free(variant@)
            &&& distinct_names(fields@)
            &&& forall|i: int| 0 <= i < fields@.len()
                ==> rt_ok((#[trigger] fields@[i]).1, opts)
        },
    }
}

/// `"::"` occurs nowhere in the text.
pub open spec fn sep_free(s: Seq<char>) -> bool {
    forall|j: int| 0 <= j && j + 2 <= s.len() ==> !((#[trigger] s[j]) == ':' && s[j + 1] == ':')
}

proof fn lemma_first_sep_full(name: Seq<char>, variant: Seq<char>, i: int)
    requires
        sep_free(name),
        name.len() == 0 || name[name.len() - 1] != ':',
        0 <= i <= name.len(),
    ensures
        crate::deserializer::first_sep_from(name + crate::serializer::separator() + variant, i)
            == Some(name.len() as int),
    decreases name.len() - i,
{
    let full = name + crate::serializer::separator() + variant;
    assert(full.len() == name.len() + 2 + variant.len());
    if i == name.len() {
        assert(full[i] == ':');
        assert(full[i + 1] == ':');
    } else {
        assert(full[i] == name[i]);
        if i + 1 < name.len() {
            assert(full[i + 1] == name[i + 1]);
            assert(!(name[i] == ':' && name[i + 1] == ':'));
        } else {
            assert(i + 1 == name.len());
            assert(name[i] != ':');
        }
        lemma_first_sep_full(name, variant, i + 1);
    }
}

proof fn lemma_first_sep_none(s: Seq<char>, i: int)
    requires
        0 <= i,
        forall|j: int| i <= j && j + 2 <= s.len()
            ==> !((#[trigger] s[j]) == ':' && s[j + 1] == ':'),
    ensures
        crate::deserializer::first_sep_from(s, i) is None,
    decreases (if i <= s.len() { s.len() - i } else { 0 }),
{
    if i + 2 <= s.len() {
        assert(!(s[i] == ':' && s[i + 1] == ':'));
        lemma_first_sep_none(s, i + 1);
    }
}

/// Splitting a full `Enum::Variant` discriminant gives the variant name
/// back, whenever neither name contains the separator and the enum name
/// does not end in a colon.
pub proof fn lemma_variant_segment_of_full(name: Seq<char>, variant: Seq<char>)
    requires
        sep_free(name),
        sep_free(variant),
        name.len() == 0 || name[name.len() - 1] != ':',
    ensures
        variant_segment(crate::serializer::full_variant_name(name, variant)) == Some(variant),
{
    let full = crate::serializer::full_variant_name(name, variant);
    assert(full == name + crate::serializer::separator() + variant);
    lemma_first_sep_full(name, variant, 0);
    let start = name.len() + 2;
    assert forall|j: int| start <= j && j + 2 <= full.len()
        implies !((#[trigger] full[j]) == ':' && full[j + 1] == ':') by {
        let k = j - start;
        assert(full[j] == variant[k]);
        assert(full[j + 1] == variant[k + 1]);
        assert(!(variant[k] == ':' && variant[k + 1] == ':'));
    }
    lemma_first_sep_none(full, start as int);
    assert(full.subrange(start as int, full.len() as int) =~= variant);
}

proof fn lemma_find_key_grows(
    pre: Seq<StoreValue>,
    post: Seq<StoreValue>,
    hs: Seq<usize>,
    name: Seq<char>,
)
    requires
        crate::store::grows(pre, post),
        crate::store::wf_cells(pre),
        forall|j: int| 0 <= j < hs.len() ==> entry_readable(pre, #[trigger] hs[j]),
    ensures
        find_key(post, hs, name) == find_key(pre, hs, name),
        forall|j: int| 0 <= j < hs.len() ==> entry_readable(post, #[trigger] hs[j]),
        forall|j: int| 0 <= j < hs.len()
            ==> pair_key_chars(post, #[trigger] hs[j]) == pair_key_chars(pre, hs[j]),
    decreases hs.len(),
{
    assert forall|j: int| 0 <= j < hs.len()
        implies entry_readable(post, #[trigger] hs[j])
            && pair_key_chars(post, hs[j]) == pair_key_chars(pre, hs[j]) by {
        assert(entry_readable(pre, hs[j]));
        assert(post[hs[j] as int] == pre[hs[j] as int]);
        match pre[hs[j] as int] {
            StoreValue::Pair(k, _) => {
                assert(crate::store::cell_wf(pre[hs[j] as int], hs[j] as int));
                crate::store::lemma_chars_of_grows(pre, post, k as int);
            },
            _ => {},
        }
    }
    if hs.len() > 0 {
        lemma_find_key_grows(pre, post, hs.drop_first(), name);
    }
}

/// Appending cells never invalidates an existing decoding.
#[verifier::rlimit(60)]
pub proof fn lemma_decodes_to_grows(
    pre: Seq<StoreValue>,
    post: Seq<StoreValue>,
    a: usize,
    v: GarnishValue,
)
    requires
        crate::store::grows(pre, post),
        crate::store::wf_cells(pre),
        decodes_to(pre, a, v),
    ensures
        decodes_to(post, a, v),
    decreases v,
{
    assert(post[a as int] == pre[a as int]);
    match v {
        GarnishValue::Text(_) => {
            crate::store::lemma_chars_of_grows(pre, post, a as int);
            assert(decodes_to(post, a, v));
        },
        GarnishValue::Present(inner) => {
            lemma_decodes_to_grows(pre, post, a, *inner);
            assert(decodes_to(post, a, v));
        },
        GarnishValue::NewtypeStruct(_, inner) => {
            lemma_decodes_to_grows(pre, post, a, *inner);
            assert(decodes_to(post, a, v));
        },
        GarnishValue::Sequence(items) => {
            lemma_items_grow(pre, post, a, items@);
            assert(decodes_to(post, a, v));
        },
        GarnishValue::Tuple(items) => {
            lemma_items_grow(pre, post, a, items@);
            assert(decodes_to(post, a, v));
        },
        GarnishValue::TupleStruct(_, items) => {
            lemma_items_grow(pre, post, a, items@);
            assert(decodes_to(post, a, v));
        },
        GarnishValue::MapValue(entries) => {
            assert(entries_decode_to(pre, resolved_items(pre, a as int), entries@));
            lemma_entries_grow(pre, post, a, entries@);
            assert(decodes_to(post, a, v));
        },
        GarnishValue::StructValue(_, fields) => {
            assert(fields_decode_to(pre, resolved_items(pre, a as int), fields@));
            lemma_fields_grow(pre, post, a, fields@);
            assert(decodes_to(post, a, v));
        },
        GarnishValue::UnitVariant(_, _, _) => {
            crate::store::lemma_chars_of_grows(pre, post, a as int);
            assert(decodes_to(post, a, v));
        },
        GarnishValue::NewtypeVariant(_, _, _, inner) => {
            let p = variant_list(pre, a).unwrap();
            assert(decodes_to(pre, p.1, *inner));
            lemma_variant_parts_grow(pre, post, a);
            lemma_decodes_to_grows(pre, post, p.1, *inner);
            assert(decodes_to(post, a, v));
        },
        GarnishValue::TupleVariant(_, _, _, items) => {
            let p = variant_list(pre, a).unwrap();
            assert(items_decode_to(pre, resolved_items(pre, p.1 as int), items@));
            lemma_variant_parts_grow(pre, post, a);
            lemma_items_grow(pre, post, p.1, items@);
            assert(items_decode_to(post, resolved_items(post, p.1 as int), items@));
            assert(decodes_to(post, a, v));
        },
        GarnishValue::StructVariant(_, _, _, fields) => {
            let p = variant_list(pre, a).unwrap();
            assert(fields_decode_to(pre, resolved_items(pre, p.1 as int), fields@));
            lemma_variant_parts_grow(pre, post, a);
            lemma_fields_grow(pre, post, p.1, fields@);
            assert(decodes_to(post, a, v));
        },
        _ => {
            assert(decodes_to(post, a, v));
        },
    }
}

proof fn lemma_entries_grow(
    pre: Seq<StoreValue>,
    post: Seq<StoreValue>,
    a: usize,
    entries: Seq<(Vec<char>, GarnishValue)>,
)
    requires
        crate::store::grows(pre, post),
        crate::store::wf_cells(pre),
        entries_decode_to(pre, resolved_items(pre, a as int), entries),
    ensures
        entries_decode_to(post, resolved_items(post, a as int), entries),
    decreases entries,
{
    crate::deserializer::lemma_resolved_items_grows(pre, post, a as int);
    let hs = resolved_items(pre, a as int).unwrap();
    assert forall|i: int| 0 <= i < entries.len() implies {
        &&& entry_readable(post, hs[i])
        &&& pair_key_chars(post, hs[i]) == Some((#[trigger] entries[i]).0@)
        &&& decodes_to(post, pair_value(post, hs[i]), entries[i].1)
    } by {
        let ev = entries[i];
        assert(entry_readable(pre, hs[i])
            && pair_key_chars(pre, hs[i]) == Some(ev.0@)
            && decodes_to(pre, pair_value(pre, hs[i]), ev.1));
        assert(post[hs[i] as int] == pre[hs[i] as int]);
        match pre[hs[i] as int] {
            StoreValue::Pair(k, _) => {
                assert(crate::store::cell_wf(pre[hs[i] as int], hs[i] as int));
                crate::store::lemma_chars_of_grows(pre, post, k as int);
            },
            _ => {},
        }
        lemma_decodes_to_grows(pre, post, pair_value(pre, hs[i]), entries[i].1);
    }
    assert forall|i: int| 0 <= i < entries.len()
        implies entry_readable(post, #[trigger] hs[i]) by {
        let ev = entries[i];
        assert(entry_readable(post, hs[i])
            && pair_key_chars(post, hs[i]) == Some(ev.0@));
    }
}

proof fn lemma_fields_grow(
    pre: Seq<StoreValue>,
    post: Seq<StoreValue>,
    a: usize,
    fields: Seq<(Vec<char>, GarnishValue)>,
)
    requires
        crate::store::grows(pre, post),
        crate::store::wf_cells(pre),
        fields_decode_to(pre, resolved_items(pre, a as int), fields),
    ensures
        fields_decode_to(post, resolved_items(post, a as int), fields),
    decreases fields,
{
    crate::deserializer::lemma_resolved_items_grows(pre, post, a as int);
    let hs = resolved_items(pre, a as int).unwrap();
    lemma_find_key_grows(pre, post, hs, arbitrary());
    assert forall|i: int| 0 <= i < fields.len() implies {
        match find_key(post, hs, (#[trigger] fields[i]).0@) {
            Some(j) => decodes_to(post, pair_value(post, hs[j]), fields[i].1),
            None => false,
        }
    } by {
        let fv = fields[i];
        assert(match find_key(pre, hs, fv.0@) {
            Some(j) => decodes_to(pre, pair_value(pre, hs[j]), fv.1),
            None => false,
        });
        lemma_find_key_grows(pre, post, hs, fv.0@);
        match find_key(pre, hs, fv.0@) {
            Some(j) => {
                lemma_find_key_bounds(pre, hs, fv.0@);
                assert(post[hs[j] as int] == pre[hs[j] as int]);
                lemma_decodes_to_grows(pre, post, pair_value(pre, hs[j]), fv.1);
            },
            None => {},
        }
    }
}

/// `find_key` returns the position of the first matching pair.
proof fn lemma_find_key_first(cells: Seq<StoreValue>, hs: Seq<usize>, name: Seq<char>, i: int)
    requires
        0 <= i < hs.len(),
        entry_readable(cells, hs[i]),
        pair_key_chars(cells, hs[i]) == Some(name),
        forall|j: int| 0 <= j < i ==> pair_key_chars(cells, #[trigger] hs[j]) != Some(name),
    ensures
        find_key(cells, hs, name) == Some(i),
    decreases hs.len(),
{
    if i == 0 {
        assert(match cells[hs[0] as int] {
            StoreValue::Pair(k, _) => chars_of(cells, k as int) == Some(name),
            _ => false,
        });
    } else {
        assert(pair_key_chars(cells, hs[0]) != Some(name));
        let rest = hs.drop_first();
        assert(rest[i - 1] == hs[i]);
        assert forall|j: int| 0 <= j < i - 1
            implies pair_key_chars(cells, #[trigger] rest[j]) != Some(name) by {
            assert(rest[j] == hs[j + 1]);
        }
        lemma_find_key_first(cells, rest, name, i - 1);
    }
}

/// A found key index lies inside the entry list and its entry is a pair
/// keyed by the sought name.
proof fn lemma_find_key_bounds(cells: Seq<StoreValue>, hs: Seq<usize>, name: Seq<char>)
    ensures
        match find_key(cells, hs, name) {
            Some(j) => 0 <= j < hs.len()
                && (hs[j] as int) < cells.len()
                && cells[hs[j] as int] is Pair
                && pair_key_chars(cells, hs[j]) == Some(name),
            None => true,
        },
    decreases hs.len(),
{
    if hs.len() > 0 {
        lemma_find_key_bounds(cells, hs.drop_first(), name);
        match find_key(cells, hs.drop_first(), name) {
            Some(j2) => {
                assert(hs.drop_first()[j2] == hs[j2 + 1]);
            },
            None => {},
        }
    }
}

proof fn lemma_variant_parts_grow(pre: Seq<StoreValue>, post: Seq<StoreValue>, a: usize)
    requires
        crate::store::grows(pre, post),
        crate::store::wf_cells(pre),
        (a as int) < pre.len(),
        variant_list(pre, a).is_some(),
    ensures
        variant_list(post, a) == variant_list(pre, a),
        variant_name_at(post, variant_list(pre, a).unwrap().0)
            == variant_name_at(pre, variant_list(pre, a).unwrap().0),
{
    assert(post[a as int] == pre[a as int]);
    let p = variant_list(pre, a).unwrap();
    match pre[a as int] {
        StoreValue::List(es) => {
            assert(crate::store::cell_wf(pre[a as int], a as int));
            assert(es@[0].0 == p.0);
            assert((p.0 as int) < pre.len());
            crate::store::lemma_chars_of_grows(pre, post, p.0 as int);
        },
        _ => {},
    }
}

proof fn lemma_items_grow(
    pre: Seq<StoreValue>,
    post: Seq<StoreValue>,
    a: usize,
    items: Seq<GarnishValue>,
)
    requires
        crate::store::grows(pre, post),
        crate::store::wf_cells(pre),
        items_decode_to(pre, resolved_items(pre, a as int), items),
    ensures
        items_decode_to(post, resolved_items(post, a as int), items),
    decreases items,
{
    crate::deserializer::lemma_resolved_items_grows(pre, post, a as int);
    let hs = resolved_items(pre, a as int).unwrap();
    assert forall|i: int| 0 <= i < items.len()
        implies decodes_to(post, hs[i], #[trigger] items[i]) by {
        lemma_decodes_to_grows(pre, post, hs[i], items[i]);
    }
}


/// The top of what the encoder writes for a value, under the session's
/// policies: the produced cell's tag and arity, entry keys, discriminant
/// form and wrapping, for every input — including the policy combinations
/// on which the decoder cannot read the value back.
pub open spec fn encoded_top(
    cells: Seq<StoreValue>,
    h: usize,
    v: GarnishValue,
    opts: GarnishSerializationOptions,
) -> bool {
    &&& (h as int) < cells.len()
    &&& match v {
        GarnishValue::Bool(b) => cells[h as int] == (if b {
            StoreValue::True
        } else {
            StoreValue::False
        }),
        GarnishValue::Integer(n) => cells[h as int] == StoreValue::Number(Scalar::Integer(n)),
        GarnishValue::FloatBits(bits) => cells[h as int] == StoreValue::Number(
            Scalar::FloatBits(bits)),
        GarnishValue::Character(c) => cells[h as int] == StoreValue::Char(c),
        GarnishValue::Text(cs) => crate::store::is_char_list(cells[h as int], cs@),
        GarnishValue::Bytes(bs) => is_byte_list(cells[h as int], bs@),
        GarnishValue::Unit => cells[h as int] == StoreValue::Unit,
        GarnishValue::Absent => match opts.optional_behavior {
            OptionalBehavior::UnitValue => cells[h as int] == StoreValue::Unit,
            OptionalBehavior::UnitSymbol => tagged_pair(cells, h,
                crate::serializer::none_name())
                && match cells[h as int] {
                    StoreValue::Pair(_, u) => cells[u as int] == StoreValue::Unit,
                    _ => false,
                },
        },
        GarnishValue::Present(_) => match opts.optional_behavior {
            OptionalBehavior::UnitValue => true,
            OptionalBehavior::UnitSymbol => tagged_pair(cells, h,
                crate::serializer::some_name()),
        },
        GarnishValue::UnitStruct(nm) => match opts.struct_typing_behavior {
            StructBehavior::ExcludeTyping => cells[h as int] == StoreValue::Unit,
            StructBehavior::IncludeTyping => match cells[h as int] {
                StoreValue::List(es) => es@.len() == 1
                    && entry_readable(cells, es@[0].0)
                    && pair_key_chars(cells, es@[0].0)
                        == Some(crate::serializer::metadata_key()),
                _ => false,
            },
        },
        GarnishValue::NewtypeStruct(_, _) => true,
        GarnishValue::Sequence(items) => plain_list(cells, h, items@.len() as int),
        GarnishValue::Tuple(items) => plain_list(cells, h, items@.len() as int),
        GarnishValue::TupleStruct(_, items) => match opts.struct_typing_behavior {
            StructBehavior::ExcludeTyping => plain_list(cells, h, items@.len() as int),
            StructBehavior::IncludeTyping => match cells[h as int] {
                StoreValue::List(es) => es@.len() == 2
                    && (es@[1].0 as int) < cells.len()
                    && plain_list(cells, es@[1].0, items@.len() as int),
                _ => false,
            },
        },
        GarnishValue::MapValue(entries) => keyed_list(cells, h, entries@),
        GarnishValue::StructValue(nm, fields) => match opts.struct_typing_behavior {
            StructBehavior::ExcludeTyping => keyed_list_n(cells, h, fields@,
                fields@.len() as int),
            StructBehavior::IncludeTyping => match cells[h as int] {
                StoreValue::List(es) => {
                    &&& es@.len() == fields@.len() + 1
                    &&& keyed_prefix(cells, es@, fields@, fields@.len() as int)
                    &&& entry_readable(cells, es@[fields@.len() as int].0)
                    &&& pair_key_chars(cells, es@[fields@.len() as int].0)
                        == Some(crate::serializer::metadata_key())
                },
                _ => false,
            },
        },
        GarnishValue::UnitVariant(nm, idx, var) => GarnishDataSerializer::is_discriminant(
            cells[h as int], opts, nm@, var@, idx),
        GarnishValue::NewtypeVariant(nm, idx, var, _) => wrapped_payload(cells, h, opts,
            nm@, var@, idx),
        GarnishValue::TupleVariant(nm, idx, var, items) => wrapped_payload(cells, h, opts,
            nm@, var@, idx)
            && match cells[h as int] {
                StoreValue::List(es) => (es@[1].0 as int) < cells.len()
                    && plain_list(cells, es@[1].0, items@.len() as int),
                _ => false,
            },
        GarnishValue::StructVariant(nm, idx, var, fields) => wrapped_payload(cells, h, opts,
            nm@, var@, idx)
            && match cells[h as int] {
                StoreValue::List(es) => (es@[1].0 as int) < cells.len()
                    && keyed_list_n(cells, es@[1].0, fields@, fields@.len() as int),
                _ => false,
            },
    }
}

/// A `Pair` whose key is the given tag symbol.
pub open spec fn tagged_pair(cells: Seq<StoreValue>, h: usize, tag: Seq<char>) -> bool {
    match cells[h as int] {
        StoreValue::Pair(k, _) => (k as int) < cells.len()
            && crate::store::is_symbol(cells[k as int], tag),
        _ => false,
    }
}

/// A `List` of `n` positional (non-associative) entries.
pub open spec fn plain_list(cells: Seq<StoreValue>, h: usize, n: int) -> bool {
    match cells[h as int] {
        StoreValue::List(es) => es@.len() == n
            && forall|j: int| 0 <= j < es@.len() ==> (#[trigger] es@[j]).1 == false,
        _ => false,
    }
}

/// A `List` of associative `Pair` entries keyed, in order, by the given
/// entry names.
pub open spec fn keyed_list(
    cells: Seq<StoreValue>,
    h: usize,
    entries: Seq<(Vec<char>, GarnishValue)>,
) -> bool {
    match cells[h as int] {
        StoreValue::List(es) => es@.len() == entries.len()
            && keyed_prefix(cells, es@, entries, entries.len() as int),
        _ => false,
    }
}

pub open spec fn keyed_list_n(
    cells: Seq<StoreValue>,
    h: usize,
    entries: Seq<(Vec<char>, GarnishValue)>,
    n: int,
) -> bool {
    match cells[h as int] {
        StoreValue::List(es) => es@.len() == n
            && keyed_prefix(cells, es@, entries, n),
        _ => false,
    }
}

/// The first `n` list entries are associative readable pairs keyed by the
/// matching entry names.
pub open spec fn keyed_prefix(
    cells: Seq<StoreValue>,
    es: Seq<(usize, bool)>,
    entries: Seq<(Vec<char>, GarnishValue)>,
    n: int,
) -> bool {
    forall|j: int| 0 <= j < n ==> {
        &&& (#[trigger] es[j]).1 == true
        &&& entry_readable(cells, es[j].0)
        &&& pair_key_chars(cells, es[j].0) == Some(entries[j].0@)
    }
}

/// The two-element `[discriminant, payload]` wrapping of a data-carrying
/// variant, under the session's naming policy.
pub open spec fn wrapped_payload(
    cells: Seq<StoreValue>,
    h: usize,
    opts: GarnishSerializationOptions,
    nm: Seq<char>,
    var: Seq<char>,
    idx: u32,
) -> bool {
    match cells[h as int] {
        StoreValue::List(es) => {
            &&& es@.len() == 2
            &&& (es@[0].0 as int) < cells.len()
            &&& GarnishDataSerializer::is_discriminant(cells[es@[0].0 as int], opts,
                nm, var, idx)
            &&& es@[0].1 == GarnishDataSerializer::discriminant_assoc(opts)
            &&& es@[1].1 == false
        },
        _ => false,
    }
}

/// A keyed entry prefix keeps its keys as the store grows.
proof fn lemma_keyed_prefix_grows(
    pre: Seq<StoreValue>,
    post: Seq<StoreValue>,
    es: Seq<(usize, bool)>,
    entries: Seq<(Vec<char>, GarnishValue)>,
    n: int,
)
    requires
        crate::store::grows(pre, post),
        crate::store::wf_cells(pre),
        keyed_prefix(pre, es, entries, n),
    ensures
        keyed_prefix(post, es, entries, n),
{
    assert forall|j: int| 0 <= j < n implies {
        &&& (#[trigger] es[j]).1 == true
        &&& entry_readable(post, es[j].0)
        &&& pair_key_chars(post, es[j].0) == Some(entries[j].0@)
    } by {
        assert((es[j]).1 == true && entry_readable(pre, es[j].0)
            && pair_key_chars(pre, es[j].0) == Some(entries[j].0@));
        assert(post[es[j].0 as int] == pre[es[j].0 as int]);
        match pre[es[j].0 as int] {
            StoreValue::Pair(k2, _) => {
                assert(crate::store::cell_wf(pre[es[j].0 as int], es[j].0 as int));
                assert(post[k2 as int] == pre[k2 as int]);
                crate::store::lemma_chars_of_grows(pre, post, k2 as int);
            },
            _ => {},
        }
    }
}

/// The store only grew and every part of the session other than the cell
/// heap is back where it was: what one complete encoding step leaves.
pub open spec fn encode_steps(pre: GarnishDataSerializer, post: GarnishDataSerializer) -> bool {
    &&& crate::store::grows(pre.cells(), post.cells())
    &&& post.store_spec().list_frames() == pre.store_spec().list_frames()
    &&& post.store_spec().value_stack() == pre.store_spec().value_stack()
    &&& GarnishDataSerializer::fields_fixed(pre, post)
}

/// Mid-loop: the open frame's enclosing frames and the session fields are
/// untouched.
pub open spec fn frames_below_fixed(pre: GarnishDataSerializer, post: GarnishDataSerializer)
    -> bool {
    &&& crate::store::grows(pre.cells(), post.cells())
    &&& post.store_spec().list_frames().len() == pre.store_spec().list_frames().len()
    &&& forall|t: int| 0 <= t < pre.store_spec().list_frames().len() - 1
        ==> post.store_spec().list_frames()[t] == #[trigger] pre.store_spec().list_frames()[t]
    &&& post.store_spec().value_stack() == pre.store_spec().value_stack()
    &&& GarnishDataSerializer::fields_fixed(pre, post)
}

proof fn lemma_grows_trans(a: Seq<StoreValue>, b: Seq<StoreValue>, c: Seq<StoreValue>)
    requires
        crate::store::grows(a, b),
        crate::store::grows(b, c),
    ensures
        crate::store::grows(a, c),
{
    assert forall|i: int| 0 <= i < a.len() implies c[i] == #[trigger] a[i] by {
        assert(b[i] == a[i]);
        assert(c[i] == b[i]);
    }
}

/// The innermost open list frame.
pub open spec fn top_frame(ser: GarnishDataSerializer) -> Seq<(usize, bool)> {
    ser.store_spec().list_frames().last()
}

/// Opening a frame, filling it, and closing it leaves the frame stack
/// where it started.
proof fn lemma_frames_restored(
    pre: GarnishDataSerializer,
    opened: GarnishDataSerializer,
    mid: GarnishDataSerializer,
    post: GarnishDataSerializer,
)
    requires
        opened.store_spec().list_frames() == pre.store_spec().list_frames().push(
            Seq::<(usize, bool)>::empty()),
        frames_below_fixed(opened, mid),
        post.store_spec().list_frames() == mid.store_spec().list_frames().drop_last(),
    ensures
        post.store_spec().list_frames() == pre.store_spec().list_frames(),
{
    assert forall|t: int| 0 <= t < pre.store_spec().list_frames().len()
        implies post.store_spec().list_frames()[t]
            == #[trigger] pre.store_spec().list_frames()[t] by {
        assert(mid.store_spec().list_frames()[t]
            == opened.store_spec().list_frames()[t]);
    }
    assert(post.store_spec().list_frames() =~= pre.store_spec().list_frames());
}

/// Encodes every element into the open (empty) list frame, flagged
/// positional.
fn encode_items(ser: &mut GarnishDataSerializer, items: &Vec<GarnishValue>) -> (r: Result<
    (),
    GarnishSerializationError,
>)
    requires
        old(ser).wf(),
        old(ser).store_spec().list_frames().len() > 0,
        old(ser).store_spec().list_frames().last().len() == 0,
    ensures
        final(ser).wf(),
        r.is_ok(),
        frames_below_fixed(*old(ser), *final(ser)),
        final(ser).store_spec().list_frames().last().len() == items@.len(),
        forall|j: int| 0 <= j < items@.len() ==> {
            &&& (#[trigger] top_frame(*final(ser))[j]).1 == false
            &&& (top_frame(*final(ser))[j].0 as int) < final(ser).cells().len()
            &&& (rt_ok(items@[j], old(ser).options_spec())
                ==> decodes_to(final(ser).cells(), top_frame(*final(ser))[j].0, items@[j]))
        },
    decreases items@,
{
    let mut i: usize = 0;
    while i < items.len()
        invariant
            ser.wf(),
            i <= items.len(),
            frames_below_fixed(*old(ser), *ser),
            ser.store_spec().list_frames().len() > 0,
            ser.store_spec().list_frames().last().len() == i,
            forall|j: int| 0 <= j < i ==> {
                &&& (#[trigger] top_frame(*ser)[j]).1 == false
                &&& (top_frame(*ser)[j].0 as int) < ser.cells().len()
                &&& (rt_ok(items@[j], old(ser).options_spec())
                    ==> decodes_to(ser.cells(), top_frame(*ser)[j].0, items@[j]))
            },
        decreases items@.len() - i,
    {
        let ghost pre_cells = ser.cells();
        let ghost pre_frame = top_frame(*ser);
        proof {
            assert(crate::store::wf_cells(pre_cells));
        }
        let h = encode_value(ser, &items[i])?;
        ser.serialize_element(h)?;
        proof {
            assert forall|j: int| 0 <= j < i + 1 implies {
                &&& (#[trigger] top_frame(*ser)[j]).1 == false
                &&& (top_frame(*ser)[j].0 as int) < ser.cells().len()
                &&& (rt_ok(items@[j], old(ser).options_spec())
                    ==> decodes_to(ser.cells(), top_frame(*ser)[j].0, items@[j]))
            } by {
                let f = ser.store_spec().list_frames().last();
                if j < i {
                    assert(f[j] == pre_frame[j]);
                    if rt_ok(items@[j], old(ser).options_spec()) {
                        assert(decodes_to(pre_cells, pre_frame[j].0, items@[j]));
                        lemma_decodes_to_grows(pre_cells, ser.cells(), pre_frame[j].0,
                            items@[j]);
                    }
                } else {
                    assert(f[j] == (h, false));
                }
            }
        }
        i = i + 1;
    }
    Ok(())
}

/// Encodes every (name, value) entry into the open (empty) list frame as
/// an associative `Pair(Symbol(name), value)`.
#[verifier::rlimit(100)]
fn encode_entries(
    ser: &mut GarnishDataSerializer,
    entries: &Vec<(Vec<char>, GarnishValue)>,
) -> (r: Result<(), GarnishSerializationError>)
    requires
        old(ser).wf(),
        old(ser).store_spec().list_frames().len() > 0,
        old(ser).store_spec().list_frames().last().len() == 0,
    ensures
        final(ser).wf(),
        r.is_ok(),
        frames_below_fixed(*old(ser), *final(ser)),
        final(ser).store_spec().list_frames().last().len() == entries@.len(),
        forall|j: int| 0 <= j < entries@.len() ==> {
            &&& (#[trigger] top_frame(*final(ser))[j]).1 == true
            &&& entry_readable(final(ser).cells(), top_frame(*final(ser))[j].0)
            &&& pair_key_chars(final(ser).cells(), top_frame(*final(ser))[j].0)
                == Some(entries@[j].0@)
            &&& (rt_ok(entries@[j].1, old(ser).options_spec())
                ==> decodes_to(final(ser).cells(),
                    pair_value(final(ser).cells(), top_frame(*final(ser))[j].0),
                    entries@[j].1))
        },
    decreases entries@,
{
    let mut i: usize = 0;
    while i < entries.len()
        invariant
            ser.wf(),
            i <= entries.len(),
            frames_below_fixed(*old(ser), *ser),
            ser.store_spec().list_frames().len() > 0,
            ser.store_spec().list_frames().last().len() == i,
            forall|j: int| 0 <= j < i ==> {
                &&& (#[trigger] top_frame(*ser)[j]).1 == true
                &&& entry_readable(ser.cells(), top_frame(*ser)[j].0)
                &&& pair_key_chars(ser.cells(), top_frame(*ser)[j].0)
                    == Some(entries@[j].0@)
                &&& (rt_ok(entries@[j].1, old(ser).options_spec())
                    ==> decodes_to(ser.cells(), pair_value(ser.cells(), top_frame(*ser)[j].0),
                        entries@[j].1))
            },
        decreases entries@.len() - i,
    {
        let ghost pre_cells = ser.cells();
        let ghost head_frame = top_frame(*ser);
        proof {
            assert(crate::store::wf_cells(pre_cells));
        }
        let h = encode_value(ser, &entries[i].1)?;
        let ghost mid_cells = ser.cells();
        let mid_len: usize = ser.data().len();
        ser.serialize_field(&entries[i].0, h)?;
        let now_len: usize = ser.data().len();
        proof {
            let n = mid_cells.len() as int;
            assert(now_len as int == mid_len as int + 2);
            lemma_grows_trans(pre_cells, mid_cells, ser.cells());
            lemma_entries_step(pre_cells, mid_cells, ser.cells(), head_frame, entries@,
                i as int, h, mid_len, old(ser).options_spec());
            assert(top_frame(*ser) =~= head_frame.push(((mid_len + 1) as usize, true)));
            assert forall|j: int| 0 <= j < i + 1 implies {
                &&& (#[trigger] top_frame(*ser)[j]).1 == true
                &&& entry_readable(ser.cells(), top_frame(*ser)[j].0)
                &&& pair_key_chars(ser.cells(), top_frame(*ser)[j].0)
                    == Some(entries@[j].0@)
                &&& (rt_ok(entries@[j].1, old(ser).options_spec())
                    ==> decodes_to(ser.cells(), pair_value(ser.cells(), top_frame(*ser)[j].0),
                        entries@[j].1))
            } by {
                assert(top_frame(*ser)[j]
                    == head_frame.push(((mid_len + 1) as usize, true))[j]);
            }
        }
        i = i + 1;
    }
    Ok(())
}

/// One entry appended to an entry frame: earlier entries keep decoding
/// across the growth, and the new pair decodes its value.
proof fn lemma_entries_step(
    pre: Seq<StoreValue>,
    mid: Seq<StoreValue>,
    now: Seq<StoreValue>,
    head_frame: Seq<(usize, bool)>,
    entries: Seq<(Vec<char>, GarnishValue)>,
    i: int,
    h: usize,
    nm: usize,
    opts: GarnishSerializationOptions,
)
    requires
        crate::store::wf_cells(pre),
        crate::store::wf_cells(mid),
        crate::store::grows(pre, mid),
        crate::store::grows(mid, now),
        nm as int == mid.len(),
        now.len() == mid.len() + 2,
        crate::store::is_symbol(now[nm as int], entries[i].0@),
        now[nm as int + 1] == StoreValue::Pair(nm, h),
        (h as int) < mid.len(),
        nm < usize::MAX,
        0 <= i < entries.len(),
        head_frame.len() == i,
        forall|j: int| 0 <= j < i ==> {
            &&& (#[trigger] head_frame[j]).1 == true
            &&& entry_readable(pre, head_frame[j].0)
            &&& pair_key_chars(pre, head_frame[j].0) == Some(entries[j].0@)
            &&& (rt_ok(entries[j].1, opts)
                ==> decodes_to(pre, pair_value(pre, head_frame[j].0), entries[j].1))
        },
        rt_ok(entries[i].1, opts) ==> decodes_to(mid, h, entries[i].1),
    ensures
        forall|j: int| 0 <= j < i + 1 ==> {
            &&& (#[trigger] head_frame.push(((nm + 1) as usize, true))[j]).1 == true
            &&& entry_readable(now, head_frame.push(((nm + 1) as usize, true))[j].0)
            &&& pair_key_chars(now, head_frame.push(((nm + 1) as usize, true))[j].0)
                == Some(entries[j].0@)
            &&& (rt_ok(entries[j].1, opts)
                ==> decodes_to(now,
                    pair_value(now, head_frame.push(((nm + 1) as usize, true))[j].0),
                    entries[j].1))
        },
{
    lemma_grows_trans(pre, mid, now);
    let f_now = head_frame.push(((nm + 1) as usize, true));
    assert forall|j: int| 0 <= j < i + 1 implies {
        &&& (#[trigger] f_now[j]).1 == true
        &&& entry_readable(now, f_now[j].0)
        &&& pair_key_chars(now, f_now[j].0) == Some(entries[j].0@)
        &&& (rt_ok(entries[j].1, opts)
            ==> decodes_to(now, pair_value(now, f_now[j].0), entries[j].1))
    } by {
        let ev = entries[j];
        if j < i {
            assert(f_now[j] == head_frame[j]);
            assert(entry_readable(pre, head_frame[j].0));
            assert(now[head_frame[j].0 as int] == pre[head_frame[j].0 as int]);
            match pre[head_frame[j].0 as int] {
                StoreValue::Pair(k, _) => {
                    assert(crate::store::cell_wf(pre[head_frame[j].0 as int],
                        head_frame[j].0 as int));
                    crate::store::lemma_chars_of_grows(pre, now, k as int);
                },
                _ => {},
            }
            if rt_ok(ev.1, opts) {
                assert(decodes_to(pre, pair_value(pre, head_frame[j].0), ev.1));
                lemma_decodes_to_grows(pre, now, pair_value(pre, head_frame[j].0), ev.1);
            }
        } else {
            assert(j == i);
            assert(f_now[j] == ((nm + 1) as usize, true));
            assert(now[nm as int + 1] == StoreValue::Pair(nm, h));
            assert(chars_of(now, nm as int) == Some(ev.0@));
            if rt_ok(ev.1, opts) {
                assert(decodes_to(mid, h, ev.1));
                lemma_decodes_to_grows(mid, now, h, ev.1);
            }
        }
    }
}

/// Encodes a structured value, producing exactly one handle. On every
/// input the store only grows and the session comes back to rest; on the
/// round-trip inputs ([`rt_ok`]) the produced handle decodes back to the
/// value ([`decodes_to`]): decoding reproduces the value's structural
/// content.
#[verifier::rlimit(100)]
#[verifier::spinoff_prover]
pub fn encode_value(ser: &mut GarnishDataSerializer, v: &GarnishValue) -> (r: Result<
    usize,
    GarnishSerializationError,
>)
    requires
        old(ser).wf(),
    ensures
        final(ser).wf(),
        r.is_ok(),
        encode_steps(*old(ser), *final(ser)),
        r matches Ok(h) ==> {
            &&& (h as int) < final(ser).cells().len()
            &&& encoded_top(final(ser).cells(), h, *v, old(ser).options_spec())
            &&& (rt_ok(*v, old(ser).options_spec()) ==> {
                &&& decodes_to(final(ser).cells(), h, *v)
                &&& (!encodes_to_unit(*v, old(ser).options_spec())
                    ==> !(final(ser).cells()[h as int] is Unit))
            })
        },
    decreases v,
{
    match v {
        GarnishValue::Bool(b) => {
            let h = ser.serialize_bool(*b)?;
            proof {
                assert(encoded_top(ser.cells(), h, *v, old(ser).options_spec()));
            }
            Ok(h)
        },
        GarnishValue::Integer(n) => {
            let h = ser.add_convertible_number(Scalar::Integer(*n))?;
            proof {
                assert(encoded_top(ser.cells(), h, *v, old(ser).options_spec()));
            }
            Ok(h)
        },
        GarnishValue::FloatBits(bits) => {
            let h = ser.serialize_float_bits(*bits)?;
            proof {
                assert(encoded_top(ser.cells(), h, *v, old(ser).options_spec()));
            }
            Ok(h)
        },
        GarnishValue::Character(c) => {
            let h = ser.serialize_char(*c)?;
            proof {
                assert(encoded_top(ser.cells(), h, *v, old(ser).options_spec()));
            }
            Ok(h)
        },
        GarnishValue::Text(cs) => {
            let h = ser.serialize_str(cs)?;
            proof {
                assert(encoded_top(ser.cells(), h, *v, old(ser).options_spec()));
            }
            Ok(h)
        },
        GarnishValue::Bytes(bs) => {
            let h = ser.serialize_bytes(bs)?;
            proof {
                assert(encoded_top(ser.cells(), h, *v, old(ser).options_spec()));
            }
            Ok(h)
        },
        GarnishValue::Unit => {
            let h = ser.serialize_unit()?;
            proof {
                assert(encoded_top(ser.cells(), h, *v, old(ser).options_spec()));
            }
            Ok(h)
        },
        GarnishValue::Absent => {
            let h = ser.serialize_none()?;
            proof {
                assert(encoded_top(ser.cells(), h, *v, old(ser).options_spec()));
            }
            Ok(h)
        },
        GarnishValue::Present(inner) => {
            let ih = encode_value(ser, &**inner)?;
            let ghost mid = *ser;
            let r = ser.serialize_some(ih)?;
            proof {
                if rt_ok(*v, old(ser).options_spec()) {
                    assert(rt_ok(**inner, old(ser).options_spec()));
                    assert(decodes_to(mid.cells(), ih, **inner));
                    assert(r == ih);
                    assert(ser.cells() == mid.cells());
                }
                assert(encoded_top(ser.cells(), r, *v, old(ser).options_spec()));
            }
            Ok(r)
        },
        GarnishValue::UnitStruct(name) => {
            let h = ser.serialize_unit_struct(name)?;
            proof {
                assert(encoded_top(ser.cells(), h, *v, old(ser).options_spec()));
            }
            Ok(h)
        },
        GarnishValue::NewtypeStruct(_, inner) => {
            let ih = encode_value(ser, &**inner)?;
            let ghost mid = *ser;
            let r = ser.serialize_newtype_struct(ih)?;
            proof {
                if rt_ok(*v, old(ser).options_spec()) {
                    assert(rt_ok(**inner, old(ser).options_spec()));
                    assert(decodes_to(mid.cells(), ih, **inner));
                    assert(r == ih);
                    assert(ser.cells() == mid.cells());
                }
                assert(encoded_top(ser.cells(), r, *v, old(ser).options_spec()));
            }
            Ok(r)
        },
        GarnishValue::Sequence(items) => {
            ser.serialize_seq(Some(items.len()))?;
            let ghost opened = *ser;
            encode_items(ser, items)?;
            let ghost mid = *ser;
            let r = ser.end()?;
            proof {
                lemma_frames_restored(*old(ser), opened, mid, *ser);
                lemma_close_items(mid, *ser, r, items@, old(ser).options_spec(), *v);
                assert(plain_list(ser.cells(), r, items@.len() as int)) by {
                    assert(crate::store::is_list(ser.cells()[r as int],
                        top_frame(mid)));
                    assert forall|j: int| 0 <= j < top_frame(mid).len()
                        implies (#[trigger] top_frame(mid)[j]).1 == false by {}
                }
                assert(encoded_top(ser.cells(), r, *v, old(ser).options_spec()));
            }
            Ok(r)
        },
        GarnishValue::Tuple(items) => {
            ser.serialize_seq(Some(items.len()))?;
            let ghost opened = *ser;
            encode_items(ser, items)?;
            let ghost mid = *ser;
            let r = ser.end()?;
            proof {
                lemma_frames_restored(*old(ser), opened, mid, *ser);
                lemma_close_items(mid, *ser, r, items@, old(ser).options_spec(), *v);
                assert(plain_list(ser.cells(), r, items@.len() as int)) by {
                    assert(crate::store::is_list(ser.cells()[r as int],
                        top_frame(mid)));
                    assert forall|j: int| 0 <= j < top_frame(mid).len()
                        implies (#[trigger] top_frame(mid)[j]).1 == false by {}
                }
                assert(encoded_top(ser.cells(), r, *v, old(ser).options_spec()));
            }
            Ok(r)
        },
        GarnishValue::TupleStruct(name, items) => {
            match ser.options().struct_typing_behavior {
                StructBehavior::ExcludeTyping => {
                    ser.serialize_seq(Some(items.len()))?;
                    let ghost opened = *ser;
                    encode_items(ser, items)?;
                    let ghost mid = *ser;
                    let r = ser.end()?;
                    proof {
                        lemma_frames_restored(*old(ser), opened, mid, *ser);
                        lemma_close_items(mid, *ser, r, items@, old(ser).options_spec(), *v);
                        assert(plain_list(ser.cells(), r, items@.len() as int)) by {
                            assert(crate::store::is_list(ser.cells()[r as int],
                                top_frame(mid)));
                            assert forall|j: int| 0 <= j < top_frame(mid).len()
                                implies (#[trigger] top_frame(mid)[j]).1 == false by {}
                        }
                        assert(encoded_top(ser.cells(), r, *v, old(ser).options_spec()));
                    }
                    Ok(r)
                },
                StructBehavior::IncludeTyping => {
                    let sym = ser.add_symbol(name);
                    ser.serialize_seq(Some(items.len()))?;
                    let ghost opened = *ser;
                    encode_items(ser, items)?;
                    let ghost mid = *ser;
                    let r = ser.end_wrapped(sym, false)?;
                    proof {
                        lemma_frames_restored(*old(ser), opened, mid, *ser);
                        let n0 = mid.cells().len() as int;
                        assert(plain_list(ser.cells(), n0 as usize, items@.len() as int)) by {
                            assert(crate::store::is_list(ser.cells()[n0],
                                top_frame(mid)));
                            assert forall|j: int| 0 <= j < top_frame(mid).len()
                                implies (#[trigger] top_frame(mid)[j]).1 == false by {}
                        }
                        assert(encoded_top(ser.cells(), r, *v, old(ser).options_spec()));
                    }
                    Ok(r)
                },
            }
        },
        GarnishValue::MapValue(entries) => {
            ser.serialize_map(Some(entries.len()))?;
            let ghost opened = *ser;
            encode_entries(ser, entries)?;
            let ghost mid = *ser;
            let r = ser.end()?;
            proof {
                lemma_frames_restored(*old(ser), opened, mid, *ser);
                lemma_close_entries(mid, *ser, r, entries@, old(ser).options_spec(), *v);
                assert(keyed_prefix(mid.cells(), top_frame(mid), entries@,
                    entries@.len() as int));
                lemma_keyed_prefix_grows(mid.cells(), ser.cells(), top_frame(mid),
                    entries@, entries@.len() as int);
                assert(keyed_list(ser.cells(), r, entries@)) by {
                    assert(crate::store::is_list(ser.cells()[r as int], top_frame(mid)));
                }
                assert(encoded_top(ser.cells(), r, *v, old(ser).options_spec()));
            }
            Ok(r)
        },
        GarnishValue::StructValue(name, fields) => {
            ser.serialize_map(Some(fields.len()))?;
            let ghost opened = *ser;
            encode_entries(ser, fields)?;
            let ghost mid = *ser;
            match ser.options().struct_typing_behavior {
                StructBehavior::ExcludeTyping => {
                    let r = ser.end()?;
                    proof {
                        lemma_frames_restored(*old(ser), opened, mid, *ser);
                        lemma_close_fields(mid, *ser, r, fields@, old(ser).options_spec(),
                            *v, false);
                        assert(keyed_prefix(mid.cells(), top_frame(mid), fields@,
                            fields@.len() as int));
                        lemma_keyed_prefix_grows(mid.cells(), ser.cells(), top_frame(mid),
                            fields@, fields@.len() as int);
                        assert(keyed_list_n(ser.cells(), r, fields@,
                            fields@.len() as int)) by {
                            assert(crate::store::is_list(ser.cells()[r as int],
                                top_frame(mid)));
                        }
                        assert(encoded_top(ser.cells(), r, *v, old(ser).options_spec()));
                    }
                    Ok(r)
                },
                StructBehavior::IncludeTyping => {
                    let r = ser.end_struct_named(name)?;
                    proof {
                        lemma_frames_restored(*old(ser), opened, mid, *ser);
                        lemma_close_fields(mid, *ser, r, fields@, old(ser).options_spec(),
                            *v, true);
                        let n0 = mid.cells().len() as int;
                        assert(keyed_prefix(mid.cells(), top_frame(mid), fields@,
                            fields@.len() as int));
                        lemma_keyed_prefix_grows(mid.cells(), ser.cells(), top_frame(mid),
                            fields@, fields@.len() as int);
                        let es2 = top_frame(mid).push(((n0 + 2) as usize, true));
                        assert(crate::store::is_list(ser.cells()[r as int], es2));
                        assert(keyed_prefix(ser.cells(), es2, fields@,
                            fields@.len() as int)) by {
                            assert forall|j: int| 0 <= j < fields@.len() implies {
                                &&& (#[trigger] es2[j]).1 == true
                                &&& entry_readable(ser.cells(), es2[j].0)
                                &&& pair_key_chars(ser.cells(), es2[j].0)
                                    == Some(fields@[j].0@)
                            } by {
                                assert(es2[j] == top_frame(mid)[j]);
                                assert((#[trigger] top_frame(mid)[j]).1 == true
                                    && entry_readable(ser.cells(), top_frame(mid)[j].0)
                                    && pair_key_chars(ser.cells(), top_frame(mid)[j].0)
                                        == Some(fields@[j].0@));
                            }
                        }
                        assert(es2[fields@.len() as int] == ((n0 + 2) as usize, true));
                        assert(ser.cells()[n0 + 2]
                            == StoreValue::Pair((n0 + 1) as usize, n0 as usize));
                        assert(crate::store::is_symbol(ser.cells()[n0 + 1],
                            crate::serializer::metadata_key()));
                        assert(entry_readable(ser.cells(), (n0 + 2) as usize));
                        assert(pair_key_chars(ser.cells(), (n0 + 2) as usize)
                            == Some(crate::serializer::metadata_key()));
                        assert(encoded_top(ser.cells(), r, *v, old(ser).options_spec()));
                    }
                    Ok(r)
                },
            }
        },
        GarnishValue::UnitVariant(name, idx, variant) => {
            let r = ser.serialize_unit_variant(name, *idx, variant)?;
            proof {
                if rt_ok(*v, old(ser).options_spec()) {
                    lemma_variant_segment_of_full(name@, variant@);
                }
                assert(encoded_top(ser.cells(), r, *v, old(ser).options_spec()));
            }
            Ok(r)
        },
        GarnishValue::NewtypeVariant(name, idx, variant, inner) => {
            let ih = encode_value(ser, &**inner)?;
            let ghost mid = *ser;
            let r = ser.serialize_newtype_variant(name, *idx, variant, ih)?;
            proof {
                if rt_ok(*v, old(ser).options_spec()) {
                    lemma_variant_segment_of_full(name@, variant@);
                    assert(decodes_to(mid.cells(), ih, **inner));
                    lemma_decodes_to_grows(mid.cells(), ser.cells(), ih, **inner);
                    let n = mid.cells().len() as int;
                    assert(variant_list(ser.cells(), r) == Some((n as usize, ih)));
                }
                assert(encoded_top(ser.cells(), r, *v, old(ser).options_spec()));
            }
            Ok(r)
        },
        GarnishValue::TupleVariant(name, idx, variant, items) => {
            let discr = ser.serialize_unit_variant(name, *idx, variant)?;
            let assoc = match ser.options().variant_name_behavior {
                VariantNameBehavior::Index => false,
                _ => true,
            };
            let ghost after_discr = *ser;
            ser.serialize_seq(Some(items.len()))?;
            let ghost opened = *ser;
            encode_items(ser, items)?;
            let ghost mid = *ser;
            let r = ser.end_wrapped(discr, assoc)?;
            proof {
                lemma_frames_restored(*old(ser), opened, mid, *ser);
                if rt_ok(*v, old(ser).options_spec()) {
                    lemma_variant_segment_of_full(name@, variant@);
                    let n = mid.cells().len() as int;
                    assert(variant_list(ser.cells(), r) == Some((discr, n as usize)));
                    assert(ser.cells()[discr as int] == after_discr.cells()[discr as int]);
                    lemma_close_items_at(mid, *ser, n as usize, items@,
                        old(ser).options_spec());
                }
                let n = mid.cells().len() as int;
                assert(ser.cells()[discr as int] == after_discr.cells()[discr as int]);
                assert(plain_list(ser.cells(), n as usize, items@.len() as int)) by {
                    assert(crate::store::is_list(ser.cells()[n], top_frame(mid)));
                    assert forall|j: int| 0 <= j < top_frame(mid).len()
                        implies (#[trigger] top_frame(mid)[j]).1 == false by {}
                }
                assert(encoded_top(ser.cells(), r, *v, old(ser).options_spec()));
            }
            Ok(r)
        },
        GarnishValue::StructVariant(name, idx, variant, fields) => {
            let discr = ser.serialize_unit_variant(name, *idx, variant)?;
            let assoc = match ser.options().variant_name_behavior {
                VariantNameBehavior::Index => false,
                _ => true,
            };
            let ghost after_discr = *ser;
            ser.serialize_map(Some(fields.len()))?;
            let ghost opened = *ser;
            encode_entries(ser, fields)?;
            let ghost mid = *ser;
            let r = ser.end_wrapped(discr, assoc)?;
            proof {
                lemma_frames_restored(*old(ser), opened, mid, *ser);
                if rt_ok(*v, old(ser).options_spec()) {
                    lemma_variant_segment_of_full(name@, variant@);
                    let n = mid.cells().len() as int;
                    assert(variant_list(ser.cells(), r) == Some((discr, n as usize)));
                    assert(ser.cells()[discr as int] == after_discr.cells()[discr as int]);
                    lemma_close_fields_at(mid, *ser, n as usize, fields@,
                        old(ser).options_spec());
                }
                let n = mid.cells().len() as int;
                assert(ser.cells()[discr as int] == after_discr.cells()[discr as int]);
                assert(keyed_prefix(mid.cells(), top_frame(mid), fields@,
                    fields@.len() as int));
                lemma_keyed_prefix_grows(mid.cells(), ser.cells(), top_frame(mid),
                    fields@, fields@.len() as int);
                assert(keyed_list_n(ser.cells(), n as usize, fields@,
                    fields@.len() as int)) by {
                    assert(crate::store::is_list(ser.cells()[n], top_frame(mid)));
                }
                assert(encoded_top(ser.cells(), r, *v, old(ser).options_spec()));
            }
            Ok(r)
        },
    }
}

/// Closing the frame after `encode_items` yields a handle whose resolution
/// decodes element-wise.
proof fn lemma_close_items(
    mid: GarnishDataSerializer,
    post: GarnishDataSerializer,
    r: usize,
    items: Seq<GarnishValue>,
    opts: GarnishSerializationOptions,
    v: GarnishValue,
)
    requires
        mid.wf(),
        post.wf(),
        crate::store::grows(mid.cells(), post.cells()),
        post.cells().len() == mid.cells().len() + 1,
        r == mid.cells().len(),
        mid.store_spec().list_frames().len() > 0,
        crate::store::is_list(post.cells()[r as int], mid.store_spec().list_frames().last()),
        mid.store_spec().list_frames().last().len() == items.len(),
        forall|j: int| 0 <= j < items.len() ==> {
            &&& (top_frame(mid)[j].0 as int) < mid.cells().len()
            &&& (rt_ok(#[trigger] items[j], opts)
                ==> decodes_to(mid.cells(), top_frame(mid)[j].0, items[j]))
        },
        (v matches GarnishValue::Sequence(xs) && xs@ == items)
            || (v matches GarnishValue::Tuple(xs) && xs@ == items)
            || (v matches GarnishValue::TupleStruct(nm, xs) && xs@ == items),
        rt_ok(v, opts) ==> forall|j: int| 0 <= j < items.len()
            ==> rt_ok(#[trigger] items[j], opts),
    ensures
        rt_ok(v, opts) ==> decodes_to(post.cells(), r, v),
        !(post.cells()[r as int] is Unit),
{
    let f = mid.store_spec().list_frames().last();
    if rt_ok(v, opts) {
        assert forall|j: int| 0 <= j < items.len()
            implies decodes_to(post.cells(), list_addrs(f)[j], #[trigger] items[j]) by {
            assert(list_addrs(f)[j] == f[j].0);
            assert(decodes_to(mid.cells(), f[j].0, items[j]));
            lemma_decodes_to_grows(mid.cells(), post.cells(), f[j].0, items[j]);
        }
        assert(resolved_items(post.cells(), r as int) == Some(list_addrs(f)));
        assert(items_decode_to(post.cells(), resolved_items(post.cells(), r as int), items));
    }
}

/// The same, but for a payload handle that is not the final result.
proof fn lemma_close_items_at(
    mid: GarnishDataSerializer,
    post: GarnishDataSerializer,
    lh: usize,
    items: Seq<GarnishValue>,
    opts: GarnishSerializationOptions,
)
    requires
        mid.wf(),
        post.wf(),
        crate::store::grows(mid.cells(), post.cells()),
        post.cells().len() == mid.cells().len() + 2,
        lh == mid.cells().len(),
        mid.store_spec().list_frames().len() > 0,
        crate::store::is_list(post.cells()[lh as int], mid.store_spec().list_frames().last()),
        mid.store_spec().list_frames().last().len() == items.len(),
        forall|j: int| 0 <= j < items.len() ==> {
            &&& (top_frame(mid)[j].0 as int) < mid.cells().len()
            &&& (rt_ok(#[trigger] items[j], opts)
                ==> decodes_to(mid.cells(), top_frame(mid)[j].0, items[j]))
        },
        forall|j: int| 0 <= j < items.len() ==> rt_ok(#[trigger] items[j], opts),
    ensures
        items_decode_to(post.cells(), resolved_items(post.cells(), lh as int), items),
{
    let f = mid.store_spec().list_frames().last();
    assert forall|j: int| 0 <= j < items.len()
        implies decodes_to(post.cells(), list_addrs(f)[j], #[trigger] items[j]) by {
        assert(list_addrs(f)[j] == f[j].0);
        assert(decodes_to(mid.cells(), f[j].0, items[j]));
        lemma_decodes_to_grows(mid.cells(), post.cells(), f[j].0, items[j]);
    }
    assert(resolved_items(post.cells(), lh as int) == Some(list_addrs(f)));
}

/// Closing the frame after `encode_entries` yields a handle whose
/// resolution decodes entry-wise, in order.
#[verifier::rlimit(100)]
proof fn lemma_close_entries(
    mid: GarnishDataSerializer,
    post: GarnishDataSerializer,
    r: usize,
    entries: Seq<(Vec<char>, GarnishValue)>,
    opts: GarnishSerializationOptions,
    v: GarnishValue,
)
    requires
        mid.wf(),
        post.wf(),
        crate::store::grows(mid.cells(), post.cells()),
        post.cells().len() == mid.cells().len() + 1,
        r == mid.cells().len(),
        mid.store_spec().list_frames().len() > 0,
        crate::store::is_list(post.cells()[r as int], mid.store_spec().list_frames().last()),
        mid.store_spec().list_frames().last().len() == entries.len(),
        forall|j: int| 0 <= j < entries.len() ==> {
            &&& entry_readable(mid.cells(), top_frame(mid)[j].0)
            &&& pair_key_chars(mid.cells(), top_frame(mid)[j].0)
                == Some((#[trigger] entries[j]).0@)
            &&& (rt_ok(entries[j].1, opts)
                ==> decodes_to(mid.cells(), pair_value(mid.cells(), top_frame(mid)[j].0),
                    entries[j].1))
        },
        v matches GarnishValue::MapValue(xs) && xs@ == entries,
        rt_ok(v, opts) ==> forall|i: int| 0 <= i < entries.len()
            ==> rt_ok((#[trigger] entries[i]).1, opts),
    ensures
        rt_ok(v, opts) ==> decodes_to(post.cells(), r, v),
        !(post.cells()[r as int] is Unit),
{
    let f = mid.store_spec().list_frames().last();
    let hs = list_addrs(f);
    if rt_ok(v, opts) {
        assert forall|i: int| 0 <= i < entries.len() implies {
            &&& entry_readable(post.cells(), hs[i])
            &&& pair_key_chars(post.cells(), hs[i]) == Some((#[trigger] entries[i]).0@)
            &&& decodes_to(post.cells(), pair_value(post.cells(), hs[i]), entries[i].1)
        } by {
            let ev = entries[i];
            assert(hs[i] == f[i].0);
            assert(entry_readable(mid.cells(), f[i].0)
                && pair_key_chars(mid.cells(), f[i].0) == Some(ev.0@));
            assert(post.cells()[f[i].0 as int] == mid.cells()[f[i].0 as int]);
            match mid.cells()[f[i].0 as int] {
                StoreValue::Pair(k, _) => {
                    assert(crate::store::cell_wf(mid.cells()[f[i].0 as int], f[i].0 as int));
                    crate::store::lemma_chars_of_grows(mid.cells(), post.cells(), k as int);
                },
                _ => {},
            }
            assert(rt_ok(entries[i].1, opts));
            assert(decodes_to(mid.cells(), pair_value(mid.cells(), f[i].0), entries[i].1));
            lemma_decodes_to_grows(mid.cells(), post.cells(),
                pair_value(mid.cells(), f[i].0), entries[i].1);
        }
        match post.cells()[r as int] {
            StoreValue::List(es) => {
                assert(es@ == f);
                assert(list_addrs(es@) == hs);
            },
            _ => {
                assert(false);
            },
        }
        assert forall|i2: int| 0 <= i2 < entries.len()
            implies entry_readable(post.cells(), #[trigger] hs[i2]) by {
            let ev = entries[i2];
            assert(entry_readable(post.cells(), hs[i2])
                && pair_key_chars(post.cells(), hs[i2]) == Some(ev.0@)
                && decodes_to(post.cells(), pair_value(post.cells(), hs[i2]), ev.1));
        }
        assert(resolved_items(post.cells(), r as int) == Some(hs));
        assert(entries_decode_to(post.cells(), resolved_items(post.cells(), r as int),
            entries));
    }
}

/// Fields in an entry frame decode by first-match-by-name lookup, at the
/// handle that closed the frame; `tagged` says whether a trailing metadata
/// pair was appended after the fields.
proof fn lemma_fields_at_handle(
    mid: GarnishDataSerializer,
    post: GarnishDataSerializer,
    lh: usize,
    hs: Seq<usize>,
    fields: Seq<(Vec<char>, GarnishValue)>,
    opts: GarnishSerializationOptions,
)
    requires
        mid.wf(),
        post.wf(),
        crate::store::grows(mid.cells(), post.cells()),
        (lh as int) < post.cells().len(),
        resolved_items(post.cells(), lh as int) == Some(hs),
        fields.len() <= hs.len(),
        forall|j: int| 0 <= j < hs.len() ==> entry_readable(post.cells(), #[trigger] hs[j]),
        forall|j: int| 0 <= j < fields.len()
            ==> pair_key_chars(post.cells(), hs[j]) == Some((#[trigger] fields[j]).0@),
        forall|j: int| fields.len() <= j < hs.len()
            ==> pair_key_chars(post.cells(), #[trigger] hs[j]) == Some(
                crate::serializer::metadata_key()),
        forall|j: int| 0 <= j < fields.len()
            ==> decodes_to(post.cells(), pair_value(post.cells(), hs[j]),
                (#[trigger] fields[j]).1),
        distinct_names(fields),
    ensures
        fields_decode_to(post.cells(), resolved_items(post.cells(), lh as int), fields),
{
    assert forall|i: int| 0 <= i < fields.len() implies {
        match find_key(post.cells(), hs, (#[trigger] fields[i]).0@) {
            Some(j) => decodes_to(post.cells(), pair_value(post.cells(), hs[j]),
                fields[i].1),
            None => false,
        }
    } by {
        let fv = fields[i];
        assert forall|j: int| 0 <= j < i
            implies pair_key_chars(post.cells(), #[trigger] hs[j]) != Some(fv.0@) by {
            assert(pair_key_chars(post.cells(), hs[j]) == Some(fields[j].0@));
            assert(fields[j].0@ != fields[i].0@);
        }
        lemma_find_key_first(post.cells(), hs, fv.0@, i);
    }
}

/// Closing the frame after `encode_entries` as a struct body: every field
/// finds its value by name, the bare close and the type-tagged close alike.
proof fn lemma_close_fields(
    mid: GarnishDataSerializer,
    post: GarnishDataSerializer,
    r: usize,
    fields: Seq<(Vec<char>, GarnishValue)>,
    opts: GarnishSerializationOptions,
    v: GarnishValue,
    tagged: bool,
)
    requires
        mid.wf(),
        post.wf(),
        crate::store::grows(mid.cells(), post.cells()),
        mid.store_spec().list_frames().len() > 0,
        mid.store_spec().list_frames().last().len() == fields.len(),
        !tagged ==> {
            &&& post.cells().len() == mid.cells().len() + 1
            &&& r == mid.cells().len()
            &&& crate::store::is_list(post.cells()[r as int],
                mid.store_spec().list_frames().last())
        },
        tagged ==> {
            let n = mid.cells().len() as int;
            &&& post.cells().len() == n + 4
            &&& crate::store::is_symbol(post.cells()[n + 1],
                crate::serializer::metadata_key())
            &&& post.cells()[n + 2] == StoreValue::Pair((n + 1) as usize, n as usize)
            &&& crate::store::is_list(post.cells()[n + 3],
                mid.store_spec().list_frames().last().push(((n + 2) as usize, true)))
            &&& r == n + 3
        },
        forall|j: int| 0 <= j < fields.len() ==> {
            &&& entry_readable(mid.cells(), top_frame(mid)[j].0)
            &&& pair_key_chars(mid.cells(), top_frame(mid)[j].0)
                == Some((#[trigger] fields[j]).0@)
            &&& (rt_ok(fields[j].1, opts)
                ==> decodes_to(mid.cells(), pair_value(mid.cells(), top_frame(mid)[j].0),
                    fields[j].1))
        },
        (v matches GarnishValue::StructValue(nm, xs) && xs@ == fields),
        rt_ok(v, opts) ==> {
            &&& distinct_names(fields)
            &&& forall|i: int| 0 <= i < fields.len() ==> rt_ok((#[trigger] fields[i]).1, opts)
        },
    ensures
        rt_ok(v, opts) ==> decodes_to(post.cells(), r, v),
        !(post.cells()[r as int] is Unit),
{
    let f = mid.store_spec().list_frames().last();
    let n = mid.cells().len() as int;
    let entries_seq = if tagged { f.push(((n + 2) as usize, true)) } else { f };
    let hs = list_addrs(entries_seq);
    if rt_ok(v, opts) {
        assert forall|j: int| 0 <= j < hs.len()
            implies entry_readable(post.cells(), #[trigger] hs[j])
                && (j < fields.len() ==> pair_key_chars(post.cells(), hs[j])
                    == Some(fields[j].0@))
                && (j >= fields.len() ==> pair_key_chars(post.cells(), hs[j])
                    == Some(crate::serializer::metadata_key())) by {
            if j < fields.len() {
                let fv = fields[j];
                assert(hs[j] == f[j].0);
                assert(entry_readable(mid.cells(), f[j].0)
                    && pair_key_chars(mid.cells(), f[j].0) == Some(fv.0@));
                assert(post.cells()[f[j].0 as int] == mid.cells()[f[j].0 as int]);
                match mid.cells()[f[j].0 as int] {
                    StoreValue::Pair(k, _) => {
                        assert(crate::store::cell_wf(mid.cells()[f[j].0 as int],
                            f[j].0 as int));
                        crate::store::lemma_chars_of_grows(mid.cells(), post.cells(),
                            k as int);
                    },
                    _ => {},
                }
            } else {
                assert(hs[j] == (n + 2) as usize);
                assert(post.cells()[n + 2] == StoreValue::Pair((n + 1) as usize,
                    n as usize));
            }
        }
        assert forall|j: int| 0 <= j < fields.len()
            implies decodes_to(post.cells(), pair_value(post.cells(), #[trigger] hs[j]),
                fields[j].1) by {
            let fv = fields[j];
            assert(hs[j] == f[j].0);
            assert(rt_ok(fv.1, opts));
            assert(decodes_to(mid.cells(), pair_value(mid.cells(), f[j].0), fv.1));
            lemma_decodes_to_grows(mid.cells(), post.cells(),
                pair_value(mid.cells(), f[j].0), fv.1);
        }
        assert(resolved_items(post.cells(), r as int) == Some(hs));
        lemma_fields_at_handle(mid, post, r, hs, fields, opts);
        assert(fields_decode_to(post.cells(), resolved_items(post.cells(), r as int),
            fields));
    }
}

/// The same struct-body close, for a variant payload handle.
proof fn lemma_close_fields_at(
    mid: GarnishDataSerializer,
    post: GarnishDataSerializer,
    lh: usize,
    fields: Seq<(Vec<char>, GarnishValue)>,
    opts: GarnishSerializationOptions,
)
    requires
        mid.wf(),
        post.wf(),
        crate::store::grows(mid.cells(), post.cells()),
        post.cells().len() == mid.cells().len() + 2,
        lh == mid.cells().len(),
        mid.store_spec().list_frames().len() > 0,
        crate::store::is_list(post.cells()[lh as int], mid.store_spec().list_frames().last()),
        mid.store_spec().list_frames().last().len() == fields.len(),
        forall|j: int| 0 <= j < fields.len() ==> {
            &&& entry_readable(mid.cells(), top_frame(mid)[j].0)
            &&& pair_key_chars(mid.cells(), top_frame(mid)[j].0)
                == Some((#[trigger] fields[j]).0@)
            &&& (rt_ok(fields[j].1, opts)
                ==> decodes_to(mid.cells(), pair_value(mid.cells(), top_frame(mid)[j].0),
                    fields[j].1))
        },
        distinct_names(fields),
        forall|i: int| 0 <= i < fields.len() ==> rt_ok((#[trigger] fields[i]).1, opts),
    ensures
        fields_decode_to(post.cells(), resolved_items(post.cells(), lh as int), fields),
{
    let f = mid.store_spec().list_frames().last();
    let hs = list_addrs(f);
    assert forall|j: int| 0 <= j < hs.len()
        implies entry_readable(post.cells(), #[trigger] hs[j])
            && pair_key_chars(post.cells(), hs[j]) == Some(fields[j].0@) by {
        let fv = fields[j];
        assert(hs[j] == f[j].0);
        assert(entry_readable(mid.cells(), f[j].0)
            && pair_key_chars(mid.cells(), f[j].0) == Some(fv.0@));
        assert(post.cells()[f[j].0 as int] == mid.cells()[f[j].0 as int]);
        match mid.cells()[f[j].0 as int] {
            StoreValue::Pair(k, _) => {
                assert(crate::store::cell_wf(mid.cells()[f[j].0 as int], f[j].0 as int));
                crate::store::lemma_chars_of_grows(mid.cells(), post.cells(), k as int);
            },
            _ => {},
        }
    }
    assert forall|j: int| 0 <= j < fields.len()
        implies decodes_to(post.cells(), pair_value(post.cells(), #[trigger] hs[j]),
            fields[j].1) by {
        let fv = fields[j];
        assert(hs[j] == f[j].0);
        assert(rt_ok(fv.1, opts));
        assert(decodes_to(mid.cells(), pair_value(mid.cells(), f[j].0), fv.1));
        lemma_decodes_to_grows(mid.cells(), post.cells(),
            pair_value(mid.cells(), f[j].0), fv.1);
    }
    assert(resolved_items(post.cells(), lh as int) == Some(hs));
    lemma_fields_at_handle(mid, post, lh, hs, fields, opts);
}


/// A requested decode shape: what the caller asks the decoder to read the
/// focal handle as, one case per supported kind.
#[derive(Debug)]
pub enum Shape {
    Bool,
    Integer,
    Float,
    Character,
    Text,
    Bytes,
    Unit,
    Optional(Box<Shape>),
    UnitStruct(Vec<char>),
    NewtypeStruct(Vec<char>, Box<Shape>),
    Sequence(Box<Shape>),
    Tuple(Vec<Shape>),
    TupleStruct(Vec<char>, Vec<Shape>),
    MapOf(Box<Shape>),
    StructOf(Vec<char>, Vec<(Vec<char>, Shape)>),
    EnumOf(Vec<char>, Vec<VariantShape>),
}

/// One variant of a requested enum shape.
#[derive(Debug)]
pub struct VariantShape {
    pub name: Vec<char>,
    pub index: u32,
    pub kind: VariantKind,
}

#[derive(Debug)]
pub enum VariantKind {
    UnitKind,
    NewtypeKind(Box<Shape>),
    TupleKind(Vec<Shape>),
    StructKind(Vec<(Vec<char>, Shape)>),
}

/// The value has exactly the requested shape: same structure, same names.
pub open spec fn shape_fits(s: Shape, v: GarnishValue) -> bool
    decreases s,
{
    match s {
        Shape::Bool => v is Bool,
        Shape::Integer => v is Integer,
        Shape::Float => v is FloatBits,
        Shape::Character => v is Character,
        Shape::Text => v is Text,
        Shape::Bytes => v is Bytes,
        Shape::Unit => v is Unit,
        Shape::Optional(inner) => match v {
            GarnishValue::Absent => true,
            GarnishValue::Present(w) => shape_fits(*inner, *w),
            _ => false,
        },
        Shape::UnitStruct(name) => match v {
            GarnishValue::UnitStruct(n) => n@ == name@,
            _ => false,
        },
        Shape::NewtypeStruct(name, inner) => match v {
            GarnishValue::NewtypeStruct(n, w) => n@ == name@ && shape_fits(*inner, *w),
            _ => false,
        },
        Shape::Sequence(inner) => match v {
            GarnishValue::Sequence(items) => forall|i: int| 0 <= i < items@.len()
                ==> shape_fits(*inner, #[trigger] items@[i]),
            _ => false,
        },
        Shape::Tuple(shapes) => match v {
            GarnishValue::Tuple(items) => items@.len() == shapes@.len()
                && forall|i: int| 0 <= i < items@.len()
                    ==> shape_fits(shapes@[i], #[trigger] items@[i]),
            _ => false,
        },
        Shape::TupleStruct(name, shapes) => match v {
            GarnishValue::TupleStruct(n, items) => n@ == name@
                && items@.len() == shapes@.len()
                && forall|i: int| 0 <= i < items@.len()
                    ==> shape_fits(shapes@[i], #[trigger] items@[i]),
            _ => false,
        },
        Shape::MapOf(inner) => match v {
            GarnishValue::MapValue(entries) => forall|i: int| 0 <= i < entries@.len()
                ==> shape_fits(*inner, (#[trigger] entries@[i]).1),
            _ => false,
        },
        Shape::StructOf(name, fields) => match v {
            GarnishValue::StructValue(n, fvs) => n@ == name@
                && fvs@.len() == fields@.len()
                && forall|i: int| 0 <= i < fvs@.len() ==> {
                    &&& (#[trigger] fvs@[i]).0@ == fields@[i].0@
                    &&& shape_fits(fields@[i].1, fvs@[i].1)
                },
            _ => false,
        },
        Shape::EnumOf(name, variants) => match v {
            GarnishValue::UnitVariant(n, idx, var) => n@ == name@
                && (exists|k: int| 0 <= k < variants@.len()
                    && (#[trigger] variants@[k]).name@ == var@
                    && variants@[k].index == idx
                    && variants@[k].kind is UnitKind),
            GarnishValue::NewtypeVariant(n, idx, var, w) => n@ == name@
                && (exists|k: int| 0 <= k < variants@.len()
                    && (#[trigger] variants@[k]).name@ == var@
                    && variants@[k].index == idx
                    && match variants@[k].kind {
                        VariantKind::NewtypeKind(inner) => shape_fits(*inner, *w),
                        _ => false,
                    }),
            GarnishValue::TupleVariant(n, idx, var, items) => n@ == name@
                && (exists|k: int| 0 <= k < variants@.len()
                    && (#[trigger] variants@[k]).name@ == var@
                    && variants@[k].index == idx
                    && match variants@[k].kind {
                        VariantKind::TupleKind(shapes) => items@.len() == shapes@.len()
                            && forall|i: int| 0 <= i < items@.len()
                                ==> shape_fits(shapes@[i], #[trigger] items@[i]),
                        _ => false,
                    }),
            GarnishValue::StructVariant(n, idx, var, fvs) => n@ == name@
                && (exists|k: int| 0 <= k < variants@.len()
                    && (#[trigger] variants@[k]).name@ == var@
                    && variants@[k].index == idx
                    && match variants@[k].kind {
                        VariantKind::StructKind(fields) => fvs@.len() == fields@.len()
                            && forall|i: int| 0 <= i < fvs@.len() ==> {
                                &&& (#[trigger] fvs@[i]).0@ == fields@[i].0@
                                &&& shape_fits(fields@[i].1, fvs@[i].1)
                            },
                        _ => false,
                    }),
            _ => false,
        },
    }
}

/// Copies a vector of plain values.
fn copy_vec<T: Copy>(v: &Vec<T>) -> (r: Vec<T>)
    ensures r@ == v@,
{
    let mut out: Vec<T> = Vec::new();
    crate::store::append_all(&mut out, v);
    out
}

/// Compares two character vectors by content.
fn chars_eq(a: &Vec<char>, b: &Vec<char>) -> (r: bool)
    ensures r <==> a@ == b@,
{
    if a.len() != b.len() {
        return false;
    }
    let mut i: usize = 0;
    while i < a.len()
        invariant
            i <= a.len(),
            a@.len() == b@.len(),
            forall|j: int| 0 <= j < i ==> a@[j] == b@[j],
        decreases a.len() - i,
    {
        if a[i] != b[i] {
            return false;
        }
        i = i + 1;
    }
    proof {
        assert(a@ =~= b@);
    }
    true
}


/// A handle is decodable under a shape: some value of that shape stands
/// in the decode relation to it. This is the premise under which the
/// decoder owes success.
pub open spec fn decodable(cells: Seq<StoreValue>, a: usize, s: Shape) -> bool {
    exists|w: GarnishValue| shape_fits(s, w) && #[trigger] decodes_to(cells, a, w)
}

/// Any concrete value in the decode relation — such as the one
/// [`encode_value`]'s contract produces — makes its handle decodable.
pub proof fn lemma_decodable_from_witness(
    cells: Seq<StoreValue>,
    a: usize,
    s: Shape,
    v: GarnishValue,
)
    requires
        shape_fits(s, v),
        decodes_to(cells, a, v),
    ensures
        decodable(cells, a, s),
{
}

/// An item row of one element shape decodes from the handle's resolution.
pub open spec fn items_fit(
    cells: Seq<StoreValue>,
    a: usize,
    inner: Shape,
    ws: Seq<GarnishValue>,
) -> bool {
    &&& items_decode_to(cells, resolved_items(cells, a as int), ws)
    &&& forall|i: int| 0 <= i < ws.len() ==> shape_fits(inner, #[trigger] ws[i])
}

pub open spec fn items_witness(cells: Seq<StoreValue>, a: usize, inner: Shape) -> bool {
    exists|ws: Seq<GarnishValue>| #[trigger] items_fit(cells, a, inner, ws)
}

/// An item row of fixed per-position shapes decodes from the resolution.
pub open spec fn shaped_items_fit(
    cells: Seq<StoreValue>,
    a: usize,
    shapes: Seq<Shape>,
    ws: Seq<GarnishValue>,
) -> bool {
    &&& ws.len() == shapes.len()
    &&& items_decode_to(cells, resolved_items(cells, a as int), ws)
    &&& forall|i: int| 0 <= i < ws.len() ==> shape_fits(shapes[i], #[trigger] ws[i])
}

pub open spec fn shaped_items_witness(
    cells: Seq<StoreValue>,
    a: usize,
    shapes: Seq<Shape>,
) -> bool {
    exists|ws: Seq<GarnishValue>| #[trigger] shaped_items_fit(cells, a, shapes, ws)
}

/// An entry row of one value shape decodes from the resolution.
pub open spec fn entries_fit(
    cells: Seq<StoreValue>,
    a: usize,
    inner: Shape,
    es: Seq<(Vec<char>, GarnishValue)>,
) -> bool {
    &&& entries_decode_to(cells, resolved_items(cells, a as int), es)
    &&& forall|i: int| 0 <= i < es.len() ==> shape_fits(inner, (#[trigger] es[i]).1)
}

pub open spec fn entries_witness(cells: Seq<StoreValue>, a: usize, inner: Shape) -> bool {
    exists|es: Seq<(Vec<char>, GarnishValue)>| #[trigger] entries_fit(cells, a, inner, es)
}

/// A field row matching the declared fields decodes from the resolution.
pub open spec fn fields_fit(
    cells: Seq<StoreValue>,
    a: usize,
    fields: Seq<(Vec<char>, Shape)>,
    fvs: Seq<(Vec<char>, GarnishValue)>,
) -> bool {
    &&& fvs.len() == fields.len()
    &&& fields_decode_to(cells, resolved_items(cells, a as int), fvs)
    &&& forall|i: int| 0 <= i < fvs.len() ==> {
        &&& (#[trigger] fvs[i]).0@ == fields[i].0@
        &&& shape_fits(fields[i].1, fvs[i].1)
    }
}

pub open spec fn fields_witness(
    cells: Seq<StoreValue>,
    a: usize,
    fields: Seq<(Vec<char>, Shape)>,
) -> bool {
    exists|fvs: Seq<(Vec<char>, GarnishValue)>| #[trigger] fields_fit(cells, a, fields, fvs)
}

/// A pinpoint unfolding: a decoded character fits the character shape.
proof fn lemma_fits_character(c: char)
    ensures
        shape_fits(Shape::Character, GarnishValue::Character(c)),
{
}

/// A pinpoint unfolding: a `Char` cell decodes to its character.
proof fn lemma_decodes_character(cells: Seq<StoreValue>, a: usize, c: char)
    requires
        (a as int) < cells.len(),
        cells[a as int] == StoreValue::Char(c),
    ensures
        decodes_to(cells, a, GarnishValue::Character(c)),
{
}

/// On success the focus stack is back where it was; a failed decode may
/// leave inner focuses behind (failures are terminal for the session).
pub open spec fn focus_ok(pre: GarnishDataDeserializer, post: GarnishDataDeserializer, ok: bool)
    -> bool {
    if ok {
        post.focus_spec() == pre.focus_spec()
    } else {
        pre.focus_spec().is_prefix_of(post.focus_spec())
    }
}

/// Decodes the focal handle against a requested shape, producing a
/// structured value. Whatever comes back fits the requested shape and
/// stands in the decode relation to the focal handle; and whenever some
/// value of a well-formed requested shape stands in the decode relation to
/// the handle, decoding succeeds. Together with [`encode_value`]'s
/// contract and [`lemma_decode_is_unique`], decoding an encoding succeeds
/// and reads back the encoded content.
#[verifier::rlimit(100)]
#[verifier::spinoff_prover]
pub fn decode_value(de: &mut GarnishDataDeserializer, shape: &Shape) -> (r: Result<
    GarnishValue,
    GarnishSerializationError,
>)
    requires
        old(de).wf(),
    ensures
        final(de).wf(),
        GarnishDataDeserializer::steps_from(*old(de), *final(de)),
        focus_ok(*old(de), *final(de), r.is_ok()),
        r matches Ok(w) ==> {
            &&& shape_fits(*shape, w)
            &&& match old(de).focal() {
                Some(a) => (a as int) < old(de).cells().len()
                    && decodes_to(final(de).cells(), a, w),
                None => false,
            }
        },
        (shape_wf(*shape) && match old(de).focal() {
            Some(a) => decodable(old(de).cells(), a, *shape),
            None => false,
        }) ==> r.is_ok(),
    decreases shape, 0int,
{
    let ghost cells0 = old(de).cells();
    let ghost af = old(de).focal().unwrap();
    let ghost has_w = shape_wf(*shape) && old(de).focal().is_some()
        && decodable(cells0, af, *shape);
    let ghost wv = choose|w2: GarnishValue| shape_fits(*shape, w2)
        && decodes_to(cells0, af, w2);
    proof {
        if has_w {
            assert(shape_fits(*shape, wv) && decodes_to(cells0, af, wv));
        }
    }
    match shape {
        Shape::Bool => {
            let b = match de.deserialize_bool() {
                Ok(b) => b,
                Err(e) => {
                    proof {
                        if has_w {
                            assert(false);
                        }
                    }
                    return Err(e);
                },
            };
            let out = GarnishValue::Bool(b);
            proof {
                assert(shape_fits(*shape, out));
                assert(match old(de).focal() {
                    Some(a2) => (a2 as int) < old(de).cells().len()
                        && decodes_to(de.cells(), a2, out),
                    None => false,
                });
            }
            Ok(out)
        },
        Shape::Integer => {
            match de.deserialize_number() {
                Ok(Scalar::Integer(n)) => {
                    let out = GarnishValue::Integer(n);
                    proof {
                        assert(shape_fits(*shape, out));
                        assert(match old(de).focal() {
                            Some(a2) => (a2 as int) < old(de).cells().len()
                                && decodes_to(de.cells(), a2, out),
                            None => false,
                        });
                    }
                    Ok(out)
                },
                Ok(Scalar::FloatBits(_)) => {
                    proof {
                        if has_w {
                            assert(false);
                        }
                    }
                    Err(GarnishSerializationError::from_message(
                        "Expected an integer number, found a float."))
                },
                Err(e) => {
                    proof {
                        if has_w {
                            assert(false);
                        }
                    }
                    Err(e)
                },
            }
        },
        Shape::Float => {
            match de.deserialize_number() {
                Ok(Scalar::FloatBits(bits)) => {
                    let out = GarnishValue::FloatBits(bits);
                    proof {
                        assert(shape_fits(*shape, out));
                        assert(match old(de).focal() {
                            Some(a2) => (a2 as int) < old(de).cells().len()
                                && decodes_to(de.cells(), a2, out),
                            None => false,
                        });
                    }
                    Ok(out)
                },
                Ok(Scalar::Integer(_)) => {
                    proof {
                        if has_w {
                            assert(false);
                        }
                    }
                    Err(GarnishSerializationError::from_message(
                        "Expected a float number, found an integer."))
                },
                Err(e) => {
                    proof {
                        if has_w {
                            assert(false);
                        }
                    }
                    Err(e)
                },
            }
        },
        Shape::Character => {
            let c = match de.deserialize_char() {
                Ok(c) => c,
                Err(e) => {
                    proof {
                        if has_w {
                            assert(false);
                        }
                    }
                    return Err(e);
                },
            };
            let out = GarnishValue::Character(c);
            proof {
                assert(*shape == Shape::Character);
                lemma_fits_character(c);
                assert(shape_fits(*shape, out));
                let a = old(de).focal().unwrap();
                assert(de.cells()[a as int] == StoreValue::Char(c));
                lemma_decodes_character(de.cells(), a, c);
                assert(match old(de).focal() {
                    Some(a2) => (a2 as int) < old(de).cells().len()
                        && decodes_to(de.cells(), a2, out),
                    None => false,
                });
            }
            Ok(out)
        },
        Shape::Text => {
            let cs = match de.deserialize_string() {
                Ok(cs) => cs,
                Err(e) => {
                    proof {
                        if has_w {
                            assert(false);
                        }
                    }
                    return Err(e);
                },
            };
            let out = GarnishValue::Text(cs);
            proof {
                assert(shape_fits(*shape, out));
                let a = old(de).focal().unwrap();
                assert(Some(out->Text_0@) == chars_of(old(de).cells(), a as int));
                crate::store::lemma_chars_of_grows(old(de).cells(), de.cells(), a as int);
                assert(de.cells()[a as int] == old(de).cells()[a as int]);
                assert(match old(de).focal() {
                    Some(a2) => (a2 as int) < old(de).cells().len()
                        && decodes_to(de.cells(), a2, out),
                    None => false,
                });
            }
            Ok(out)
        },
        Shape::Bytes => {
            let bs = match de.deserialize_byte_buf() {
                Ok(bs) => bs,
                Err(e) => {
                    proof {
                        if has_w {
                            assert(false);
                        }
                    }
                    return Err(e);
                },
            };
            let out = GarnishValue::Bytes(bs);
            proof {
                assert(shape_fits(*shape, out));
                assert(match old(de).focal() {
                    Some(a2) => (a2 as int) < old(de).cells().len()
                        && decodes_to(de.cells(), a2, out),
                    None => false,
                });
            }
            Ok(out)
        },
        Shape::Unit => {
            match de.deserialize_unit() {
                Ok(()) => {},
                Err(e) => {
                    proof {
                        if has_w {
                            assert(false);
                        }
                    }
                    return Err(e);
                },
            }
            let out = GarnishValue::Unit;
            proof {
                assert(shape_fits(*shape, out));
                assert(match old(de).focal() {
                    Some(a2) => (a2 as int) < old(de).cells().len()
                        && decodes_to(de.cells(), a2, out),
                    None => false,
                });
            }
            Ok(out)
        },
        Shape::Optional(inner) => {
            let present = match de.deserialize_option() {
                Ok(p) => p,
                Err(e) => {
                    proof {
                        if has_w {
                            assert(false);
                        }
                    }
                    return Err(e);
                },
            };
            if present {
                proof {
                    if has_w {
                        assert(!(cells0[af as int] is Unit));
                        match wv {
                            GarnishValue::Present(x) => {
                                assert(decodes_to(cells0, af, *x)
                                    && shape_fits(**inner, *x));
                                assert(decodable(cells0, af, **inner));
                            },
                            GarnishValue::Absent => {
                                assert(false);
                            },
                            _ => {
                                assert(false);
                            },
                        }
                    }
                }
                let w = match decode_value(de, &**inner) {
                    Ok(w) => w,
                    Err(e) => {
                        proof {
                            if has_w {
                                assert(false);
                            }
                        }
                        return Err(e);
                    },
                };
                let out = GarnishValue::Present(Box::new(w));
                proof {
                    assert(shape_fits(*shape, out));
                    assert(match old(de).focal() {
                        Some(a2) => (a2 as int) < old(de).cells().len()
                            && decodes_to(de.cells(), a2, out),
                        None => false,
                    });
                }
                Ok(out)
            } else {
                let out = GarnishValue::Absent;
                proof {
                    assert(shape_fits(*shape, out));
                    assert(match old(de).focal() {
                        Some(a2) => (a2 as int) < old(de).cells().len()
                            && decodes_to(de.cells(), a2, out),
                        None => false,
                    });
                }
                Ok(out)
            }
        },
        Shape::UnitStruct(name) => {
            match de.deserialize_unit() {
                Ok(()) => {},
                Err(e) => {
                    proof {
                        if has_w {
                            assert(false);
                        }
                    }
                    return Err(e);
                },
            }
            let out = GarnishValue::UnitStruct(copy_vec(name));
            proof {
                assert(shape_fits(*shape, out));
                assert(match old(de).focal() {
                    Some(a2) => (a2 as int) < old(de).cells().len()
                        && decodes_to(de.cells(), a2, out),
                    None => false,
                });
            }
            Ok(out)
        },
        Shape::NewtypeStruct(name, inner) => {
            proof {
                if has_w {
                    match wv {
                        GarnishValue::NewtypeStruct(_, x) => {
                            assert(decodes_to(cells0, af, *x) && shape_fits(**inner, *x));
                            assert(decodable(cells0, af, **inner));
                        },
                        _ => {
                            assert(false);
                        },
                    }
                }
            }
            let w = match decode_value(de, &**inner) {
                Ok(w) => w,
                Err(e) => {
                    proof {
                        if has_w {
                            assert(false);
                        }
                    }
                    return Err(e);
                },
            };
            let out = GarnishValue::NewtypeStruct(copy_vec(name), Box::new(w));
            proof {
                assert(shape_fits(*shape, out));
                assert(match old(de).focal() {
                    Some(a2) => (a2 as int) < old(de).cells().len()
                        && decodes_to(de.cells(), a2, out),
                    None => false,
                });
            }
            Ok(out)
        },
        Shape::Sequence(inner) => {
            proof {
                if has_w {
                    match wv {
                        GarnishValue::Sequence(items) => {
                            assert(items_decode_to(cells0,
                                resolved_items(cells0, af as int), items@));
                            assert(items_fit(cells0, af, **inner, items@));
                            assert(items_witness(cells0, af, **inner));
                        },
                        _ => {
                            assert(false);
                        },
                    }
                }
            }
            let ws = match decode_uniform_items(de, &**inner) {
                Ok(ws) => ws,
                Err(e) => {
                    proof {
                        if has_w {
                            assert(false);
                        }
                    }
                    return Err(e);
                },
            };
            let out = GarnishValue::Sequence(ws);
            proof {
                assert(shape_fits(*shape, out));
                assert(match old(de).focal() {
                    Some(a2) => (a2 as int) < old(de).cells().len()
                        && decodes_to(de.cells(), a2, out),
                    None => false,
                });
            }
            Ok(out)
        },
        Shape::Tuple(shapes) => {
            proof {
                if has_w {
                    match wv {
                        GarnishValue::Tuple(items) => {
                            assert(items_decode_to(cells0,
                                resolved_items(cells0, af as int), items@));
                            assert(shaped_items_fit(cells0, af, shapes@, items@));
                            assert(shaped_items_witness(cells0, af, shapes@));
                        },
                        _ => {
                            assert(false);
                        },
                    }
                }
            }
            let ws = match decode_shaped_items(de, shapes) {
                Ok(ws) => ws,
                Err(e) => {
                    proof {
                        if has_w {
                            assert(false);
                        }
                    }
                    return Err(e);
                },
            };
            let out = GarnishValue::Tuple(ws);
            proof {
                assert(shape_fits(*shape, out));
                assert(match old(de).focal() {
                    Some(a2) => (a2 as int) < old(de).cells().len()
                        && decodes_to(de.cells(), a2, out),
                    None => false,
                });
            }
            Ok(out)
        },
        Shape::TupleStruct(name, shapes) => {
            proof {
                if has_w {
                    match wv {
                        GarnishValue::TupleStruct(_, items) => {
                            assert(items_decode_to(cells0,
                                resolved_items(cells0, af as int), items@));
                            assert(shaped_items_fit(cells0, af, shapes@, items@));
                            assert(shaped_items_witness(cells0, af, shapes@));
                        },
                        _ => {
                            assert(false);
                        },
                    }
                }
            }
            let ws = match decode_shaped_items(de, shapes) {
                Ok(ws) => ws,
                Err(e) => {
                    proof {
                        if has_w {
                            assert(false);
                        }
                    }
                    return Err(e);
                },
            };
            let out = GarnishValue::TupleStruct(copy_vec(name), ws);
            proof {
                assert(shape_fits(*shape, out));
                assert(match old(de).focal() {
                    Some(a2) => (a2 as int) < old(de).cells().len()
                        && decodes_to(de.cells(), a2, out),
                    None => false,
                });
            }
            Ok(out)
        },
        Shape::MapOf(inner) => {
            proof {
                if has_w {
                    match wv {
                        GarnishValue::MapValue(es0) => {
                            assert(entries_decode_to(cells0,
                                resolved_items(cells0, af as int), es0@));
                            assert(entries_fit(cells0, af, **inner, es0@));
                            assert(entries_witness(cells0, af, **inner));
                        },
                        _ => {
                            assert(false);
                        },
                    }
                }
            }
            let entries = match decode_map_entries(de, &**inner) {
                Ok(es) => es,
                Err(e) => {
                    proof {
                        if has_w {
                            assert(false);
                        }
                    }
                    return Err(e);
                },
            };
            let out = GarnishValue::MapValue(entries);
            proof {
                assert(shape_fits(*shape, out));
                assert(match old(de).focal() {
                    Some(a2) => (a2 as int) < old(de).cells().len()
                        && decodes_to(de.cells(), a2, out),
                    None => false,
                });
            }
            Ok(out)
        },
        Shape::StructOf(name, fields) => {
            proof {
                if has_w {
                    match wv {
                        GarnishValue::StructValue(_, fvs0) => {
                            assert(fields_decode_to(cells0,
                                resolved_items(cells0, af as int), fvs0@));
                            assert(fields_fit(cells0, af, fields@, fvs0@));
                            assert(fields_witness(cells0, af, fields@));
                        },
                        _ => {
                            assert(false);
                        },
                    }
                }
            }
            let fvs = match decode_struct_fields(de, fields) {
                Ok(fvs) => fvs,
                Err(e) => {
                    proof {
                        if has_w {
                            assert(false);
                        }
                    }
                    return Err(e);
                },
            };
            let out = GarnishValue::StructValue(copy_vec(name), fvs);
            proof {
                assert(shape_fits(*shape, out));
                assert(match old(de).focal() {
                    Some(a2) => (a2 as int) < old(de).cells().len()
                        && decodes_to(de.cells(), a2, out),
                    None => false,
                });
            }
            Ok(out)
        },
        Shape::EnumOf(name, variants) => decode_enum(de, shape, name, variants),
    }
}

/// Decodes the focal handle as one of a requested enum's variants.
/// Success is owed whenever some value of the enum shape stands in the
/// decode relation to the handle.
#[verifier::rlimit(100)]
#[verifier::spinoff_prover]
fn decode_enum(
    de: &mut GarnishDataDeserializer,
    shape: &Shape,
    name: &Vec<char>,
    variants: &Vec<VariantShape>,
) -> (r: Result<GarnishValue, GarnishSerializationError>)
    requires
        old(de).wf(),
        match *shape {
            Shape::EnumOf(n2, v2) => n2@ == name@ && v2@ == variants@,
            _ => false,
        },
    ensures
        final(de).wf(),
        GarnishDataDeserializer::steps_from(*old(de), *final(de)),
        focus_ok(*old(de), *final(de), r.is_ok()),
        r matches Ok(w) ==> {
            &&& shape_fits(*shape, w)
            &&& match old(de).focal() {
                Some(a) => (a as int) < old(de).cells().len()
                    && decodes_to(final(de).cells(), a, w),
                None => false,
            }
        },
        (shape_wf(*shape) && match old(de).focal() {
            Some(a) => decodable(old(de).cells(), a, *shape),
            None => false,
        }) ==> r.is_ok(),
    decreases variants@, 0int,
{
    let ghost cells0 = old(de).cells();
    let ghost af = old(de).focal().unwrap();
    let ghost has_w = shape_wf(*shape) && old(de).focal().is_some()
        && decodable(cells0, af, *shape);
    let ghost wv = choose|w2: GarnishValue| shape_fits(*shape, w2)
        && decodes_to(cells0, af, w2);
    proof {
        if has_w {
            assert(shape_fits(*shape, wv) && decodes_to(cells0, af, wv));
            assert(wv is UnitVariant || wv is NewtypeVariant || wv is TupleVariant
                || wv is StructVariant);
        }
    }
    let (t, a0) = match de.value() {
        Ok(p) => p,
        Err(e) => {
            proof {
                if has_w {
                    assert(false);
                }
            }
            return Err(e);
        },
    };
    let from_symbol = match t {
        crate::store::GarnishDataType::Symbol => true,
        _ => false,
    };
    proof {
        if has_w {
            if !(cells0[af as int] is Symbol) {
                assert(!(wv is UnitVariant));
                assert(variant_list(cells0, af) is Some);
                assert(cells0[af as int] is List);
            }
        }
    }
    if !from_symbol {
        let n = match de.data().get_list_len(a0) {
            Ok(n) => n,
            Err(e) => {
                proof {
                    if has_w {
                        assert(false);
                    }
                }
                return crate::error::wrap_err(e);
            },
        };
        if n != 2 {
            proof {
                if has_w {
                    match cells0[af as int] {
                        StoreValue::List(es) => {
                            assert(es@.len() == 2);
                        },
                        _ => {},
                    }
                    assert(false);
                }
            }
            return Err(GarnishSerializationError::from_message(
                "Expected a two-element variant list."));
        }
    }
    let vname = match de.variant_seed() {
        Ok(nm) => nm,
        Err(e) => {
            proof {
                if has_w {
                    if cells0[af as int] is Symbol {
                        assert(old(de).variant_resolution() is Some);
                    } else {
                        match cells0[af as int] {
                            StoreValue::List(es) => {
                                assert(es@.len() == 2);
                                assert(chars_of(cells0, es@[0].0 as int) is Some);
                                assert(variant_segment(
                                    chars_of(cells0, es@[0].0 as int).unwrap()) is Some);
                                assert(old(de).variant_resolution() is Some);
                            },
                            _ => {},
                        }
                    }
                    assert(false);
                }
            }
            return Err(e);
        },
    };
    proof {
        if has_w {
            assert(vname@ == enum_variant_name(wv)) by {
                if cells0[af as int] is Symbol {
                    assert(old(de).variant_resolution().unwrap().0 == vname@);
                } else {
                    match cells0[af as int] {
                        StoreValue::List(es) => {
                            assert(variant_name_at(cells0, es@[0].0)
                                == Some(enum_variant_name(wv)));
                            assert(old(de).variant_resolution().unwrap().0 == vname@);
                        },
                        _ => {},
                    }
                }
            }
            lemma_enum_witness(variants@, wv);
        }
    }
    let mut k: usize = 0;
    let mut found_opt: Option<usize> = None;
    while k < variants.len()
        invariant
            k <= variants@.len(),
            match found_opt {
                Some(f) => (f as int) < variants@.len()
                    && variants@[f as int].name@ == vname@,
                None => forall|t2: int| 0 <= t2 < k
                    ==> (#[trigger] variants@[t2]).name@ != vname@,
            },
        decreases variants@.len() - k,
    {
        if found_opt.is_none() && chars_eq(&variants[k].name, &vname) {
            found_opt = Some(k);
        }
        k = k + 1;
    }
    let found: usize = match found_opt {
        Some(f) => f,
        None => {
            proof {
                if has_w {
                    let kw = choose|kw: int| 0 <= kw < variants@.len()
                        && (#[trigger] variants@[kw]).name@ == enum_variant_name(wv)
                        && enum_witness(variants@[kw], wv);
                    assert(variants@[kw].name@ == vname@);
                    assert(false);
                }
            }
            if !from_symbol {
                de.pop_focus();
            }
            return Err(GarnishSerializationError::from_message(
                "Unknown variant name for the requested enum."));
        },
    };
    let ghost kw = choose|kw: int| 0 <= kw < variants@.len()
        && (#[trigger] variants@[kw]).name@ == enum_variant_name(wv)
        && enum_witness(variants@[kw], wv);
    proof {
        if has_w {
            assert(0 <= kw < variants@.len() && variants@[kw].name@ == vname@
                && enum_witness(variants@[kw], wv));
            assert(kw == found as int) by {
                if kw < found as int {
                    assert(variants@[kw].name@ != variants@[found as int].name@);
                }
                if (found as int) < kw {
                    assert(variants@[found as int].name@ != variants@[kw].name@);
                }
            }
        }
    }
    match &variants[found].kind {
        VariantKind::UnitKind => {
            if !from_symbol {
                proof {
                    if has_w {
                        assert(!(wv is UnitVariant));
                        assert(!(enum_witness(variants@[kw], wv)));
                        assert(false);
                    }
                }
                de.pop_focus();
                return Err(GarnishSerializationError::from_message(
                    "A unit variant decodes from a bare symbol."));
            }
            let out = GarnishValue::UnitVariant(copy_vec(name),
                variants[found].index, copy_vec(&variants[found].name));
            proof {
                assert((found as int) < variants@.len()
                    && variants@[found as int].name@ == vname@);
                assert(shape_fits(*shape, out));
                let av = old(de).focal().unwrap();
                assert(av == a0);
                assert(old(de).cells()[av as int] is Symbol);
                assert(de.cells()[av as int] == old(de).cells()[av as int]);
                crate::store::lemma_chars_of_grows(old(de).cells(), de.cells(),
                    av as int);
                assert(decodes_to(de.cells(), av, out));
            }
            Ok(out)
        },
        VariantKind::NewtypeKind(inner) => {
            if from_symbol {
                proof {
                    if has_w {
                        assert(wv is UnitVariant);
                        assert(!(enum_witness(variants@[kw], wv)));
                        assert(false);
                    }
                }
                return Err(GarnishSerializationError::from_message(
                    "A data-carrying variant decodes from a variant list."));
            }
            let ghost pre_cells = de.cells();
            proof {
                if has_w {
                    match wv {
                        GarnishValue::NewtypeVariant(_, _, _, x) => {
                            let p = variant_list(cells0, af).unwrap();
                            assert(decodes_to(cells0, p.1, *x));
                            lemma_decodes_to_grows(cells0, pre_cells, p.1, *x);
                            match variants@[kw].kind {
                                VariantKind::NewtypeKind(i2) => {
                                    assert(shape_fits(*i2, *x));
                                    assert(variant_kind_wf(variants@[kw].kind));
                                    assert(shape_wf(*i2));
                                    assert(*i2 == **inner);
                                    assert(decodable(pre_cells, p.1, **inner));
                                },
                                _ => {
                                    assert(false);
                                },
                            }
                        },
                        _ => {
                            assert(false);
                        },
                    }
                }
            }
            let w = match decode_value(de, &**inner) {
                Ok(w) => w,
                Err(e) => {
                    proof {
                        if has_w {
                            assert(false);
                        }
                    }
                    return Err(e);
                },
            };
            de.pop_focus();
            proof {
                assert(de.focus_spec() =~= old(de).focus_spec());
            }
            let out = GarnishValue::NewtypeVariant(copy_vec(name),
                variants[found].index, copy_vec(&variants[found].name),
                Box::new(w));
            proof {
                assert((found as int) < variants@.len()
                    && variants@[found as int].name@ == vname@);
                assert(shape_fits(*shape, out));
                let av = old(de).focal().unwrap();
                assert(av == a0);
                let p = old(de).variant_resolution().unwrap().1.unwrap();
                assert(de.cells()[av as int] == old(de).cells()[av as int]);
                match old(de).cells()[av as int] {
                    StoreValue::List(es) => {
                        assert(es@.len() == 2);
                        assert(crate::store::cell_wf(
                            old(de).cells()[av as int], av as int));
                        assert(p == es@[1].0);
                        crate::store::lemma_chars_of_grows(old(de).cells(),
                            de.cells(), es@[0].0 as int);
                        assert(variant_list(de.cells(), av)
                            == Some((es@[0].0, es@[1].0)));
                        assert(variant_name_at(de.cells(), es@[0].0)
                            == Some(vname@));
                    },
                    _ => {
                        assert(false);
                    },
                }
                assert(decodes_to(de.cells(), p, w));
                assert(decodes_to(de.cells(), av, out));
            }
            Ok(out)
        },
        VariantKind::TupleKind(shapes) => {
            if from_symbol {
                proof {
                    if has_w {
                        assert(wv is UnitVariant);
                        assert(!(enum_witness(variants@[kw], wv)));
                        assert(false);
                    }
                }
                return Err(GarnishSerializationError::from_message(
                    "A data-carrying variant decodes from a variant list."));
            }
            let ghost pre_cells = de.cells();
            proof {
                if has_w {
                    match wv {
                        GarnishValue::TupleVariant(_, _, _, xs) => {
                            let p = variant_list(cells0, af).unwrap();
                            assert(items_decode_to(cells0,
                                resolved_items(cells0, p.1 as int), xs@));
                            lemma_items_grow(cells0, pre_cells, p.1, xs@);
                            match variants@[kw].kind {
                                VariantKind::TupleKind(sh2) => {
                                    assert(variant_kind_wf(variants@[kw].kind));
                                    assert(sh2@ == shapes@);
                                    assert(xs@.len() == shapes@.len());
                                    assert(forall|i2: int| 0 <= i2 < xs@.len()
                                        ==> shape_fits(shapes@[i2], #[trigger] xs@[i2]));
                                    assert(shaped_items_fit(pre_cells, p.1, shapes@, xs@));
                                    assert(shaped_items_witness(pre_cells, p.1, shapes@));
                                },
                                _ => {
                                    assert(false);
                                },
                            }
                        },
                        _ => {
                            assert(false);
                        },
                    }
                }
            }
            let ws = match decode_shaped_items(de, shapes) {
                Ok(ws) => ws,
                Err(e) => {
                    proof {
                        if has_w {
                            assert(false);
                        }
                    }
                    return Err(e);
                },
            };
            de.pop_focus();
            proof {
                assert(de.focus_spec() =~= old(de).focus_spec());
            }
            let out = GarnishValue::TupleVariant(copy_vec(name),
                variants[found].index, copy_vec(&variants[found].name), ws);
            proof {
                assert((found as int) < variants@.len()
                    && variants@[found as int].name@ == vname@);
                assert(shape_fits(*shape, out));
                let av = old(de).focal().unwrap();
                assert(av == a0);
                let p = old(de).variant_resolution().unwrap().1.unwrap();
                assert(de.cells()[av as int] == old(de).cells()[av as int]);
                match old(de).cells()[av as int] {
                    StoreValue::List(es) => {
                        assert(es@.len() == 2);
                        assert(crate::store::cell_wf(
                            old(de).cells()[av as int], av as int));
                        assert(p == es@[1].0);
                        crate::store::lemma_chars_of_grows(old(de).cells(),
                            de.cells(), es@[0].0 as int);
                        assert(variant_list(de.cells(), av)
                            == Some((es@[0].0, es@[1].0)));
                        assert(variant_name_at(de.cells(), es@[0].0)
                            == Some(vname@));
                    },
                    _ => {
                        assert(false);
                    },
                }
                assert(items_decode_to(de.cells(),
                    resolved_items(de.cells(), p as int), ws@));
                assert(decodes_to(de.cells(), av, out));
            }
            Ok(out)
        },
        VariantKind::StructKind(fields) => {
            if from_symbol {
                proof {
                    if has_w {
                        assert(wv is UnitVariant);
                        assert(!(enum_witness(variants@[kw], wv)));
                        assert(false);
                    }
                }
                return Err(GarnishSerializationError::from_message(
                    "A data-carrying variant decodes from a variant list."));
            }
            let ghost pre_cells = de.cells();
            proof {
                if has_w {
                    match wv {
                        GarnishValue::StructVariant(_, _, _, xs) => {
                            let p = variant_list(cells0, af).unwrap();
                            assert(fields_decode_to(cells0,
                                resolved_items(cells0, p.1 as int), xs@));
                            lemma_fields_grow(cells0, pre_cells, p.1, xs@);
                            match variants@[kw].kind {
                                VariantKind::StructKind(fd2) => {
                                    assert(variant_kind_wf(variants@[kw].kind));
                                    assert(fd2@ == fields@);
                                    assert(xs@.len() == fields@.len());
                                    assert(forall|i2: int| 0 <= i2 < xs@.len() ==> {
                                        &&& (#[trigger] xs@[i2]).0@ == fields@[i2].0@
                                        &&& shape_fits(fields@[i2].1, xs@[i2].1)
                                    });
                                    assert(fields_fit(pre_cells, p.1, fields@, xs@));
                                    assert(fields_witness(pre_cells, p.1, fields@));
                                },
                                _ => {
                                    assert(false);
                                },
                            }
                        },
                        _ => {
                            assert(false);
                        },
                    }
                }
            }
            let fvs = match decode_struct_fields(de, fields) {
                Ok(fvs) => fvs,
                Err(e) => {
                    proof {
                        if has_w {
                            assert(false);
                        }
                    }
                    return Err(e);
                },
            };
            de.pop_focus();
            proof {
                assert(de.focus_spec() =~= old(de).focus_spec());
            }
            let out = GarnishValue::StructVariant(copy_vec(name),
                variants[found].index, copy_vec(&variants[found].name), fvs);
            proof {
                assert((found as int) < variants@.len()
                    && variants@[found as int].name@ == vname@);
                assert(shape_fits(*shape, out));
                let av = old(de).focal().unwrap();
                assert(av == a0);
                let p = old(de).variant_resolution().unwrap().1.unwrap();
                assert(de.cells()[av as int] == old(de).cells()[av as int]);
                match old(de).cells()[av as int] {
                    StoreValue::List(es) => {
                        assert(es@.len() == 2);
                        assert(crate::store::cell_wf(
                            old(de).cells()[av as int], av as int));
                        assert(p == es@[1].0);
                        crate::store::lemma_chars_of_grows(old(de).cells(),
                            de.cells(), es@[0].0 as int);
                        assert(variant_list(de.cells(), av)
                            == Some((es@[0].0, es@[1].0)));
                        assert(variant_name_at(de.cells(), es@[0].0)
                            == Some(vname@));
                    },
                    _ => {
                        assert(false);
                    },
                }
                assert(fields_decode_to(de.cells(),
                    resolved_items(de.cells(), p as int), fvs@));
                assert(decodes_to(de.cells(), av, out));
            }
            Ok(out)
        },
    }
}

/// Decodes every resolved item of the focal handle against one element
/// shape. Success is owed whenever some item row of that shape decodes
/// from the focal resolution.
#[verifier::rlimit(100)]
#[verifier::spinoff_prover]
fn decode_uniform_items(de: &mut GarnishDataDeserializer, inner: &Shape) -> (r: Result<
    Vec<GarnishValue>,
    GarnishSerializationError,
>)
    requires
        old(de).wf(),
    ensures
        final(de).wf(),
        GarnishDataDeserializer::steps_from(*old(de), *final(de)),
        focus_ok(*old(de), *final(de), r.is_ok()),
        r matches Ok(ws) ==> match old(de).focal() {
            Some(a) => {
                &&& (a as int) < old(de).cells().len()
                &&& items_decode_to(final(de).cells(),
                    resolved_items(final(de).cells(), a as int), ws@)
                &&& forall|i: int| 0 <= i < ws@.len()
                    ==> shape_fits(*inner, #[trigger] ws@[i])
            },
            None => false,
        },
        (shape_wf(*inner) && match old(de).focal() {
            Some(a) => items_witness(old(de).cells(), a, *inner),
            None => false,
        }) ==> r.is_ok(),
    decreases inner, 1int,
{
    let ghost cells0 = old(de).cells();
    let ghost a0 = old(de).focal().unwrap();
    let ghost has_w = shape_wf(*inner) && old(de).focal().is_some()
        && items_witness(cells0, a0, *inner);
    let ghost wit = choose|ws2: Seq<GarnishValue>| items_fit(cells0, a0, *inner, ws2);
    proof {
        if has_w {
            assert(items_fit(cells0, a0, *inner, wit));
        }
    }
    let mut acc = match ListAccessor::new(de) {
        Ok(acc) => acc,
        Err(e) => {
            proof {
                if has_w {
                    assert(items_decode_to(cells0, resolved_items(cells0, a0 as int), wit));
                    assert(resolved_items(cells0, a0 as int) is Some);
                    assert(old(de).focal_resolution()
                        == resolved_items(cells0, a0 as int));
                    assert(false);
                }
            }
            return Err(e);
        },
    };
    let ghost a = old(de).focal().unwrap();
    let ghost hs = acc.remaining();
    proof {
        if has_w {
            assert(items_decode_to(cells0, resolved_items(cells0, a0 as int), wit));
            assert(resolved_items(cells0, a0 as int) == Some(hs));
            assert(hs.len() == wit.len());
        }
    }
    let mut ws: Vec<GarnishValue> = Vec::new();
    while acc.remaining_len() > 0
        invariant
            de.wf(),
            acc.wf(),
            GarnishDataDeserializer::steps_from(*old(de), *de),
            de.focus_spec() == old(de).focus_spec(),
            ws@.len() <= hs.len(),
            acc.remaining() == hs.skip(ws@.len() as int),
            forall|t2: int| 0 <= t2 < ws@.len() ==> {
                &&& decodes_to(de.cells(), hs[t2], #[trigger] ws@[t2])
                &&& shape_fits(*inner, ws@[t2])
            },
            cells0 == old(de).cells(),
            old(de).focal().is_some() ==> old(de).focal() == Some(a0),
            has_w == (shape_wf(*inner) && old(de).focal().is_some()
                && items_witness(cells0, a0, *inner)),
            shape_wf(*inner) || !has_w,
            has_w ==> items_fit(cells0, a0, *inner, wit),
            has_w ==> resolved_items(cells0, a0 as int) == Some(hs),
            has_w ==> hs.len() == wit.len(),
            has_w ==> crate::store::wf_cells(cells0),
            has_w ==> crate::store::grows(cells0, de.cells()),
        decreases acc.remaining().len(),
    {
        let ghost pre_cells = de.cells();
        let item = match acc.next_item() {
            Some(h) => h,
            None => {
                return Err(GarnishSerializationError::from_message(
                    "The resolved view ended early."));
            },
        };
        proof {
            assert(item == hs[ws@.len() as int]);
            assert(acc.remaining() =~= hs.skip(ws@.len() as int + 1));
            assert(crate::store::wf_cells(pre_cells));
            if has_w {
                assert(items_decode_to(cells0, resolved_items(cells0, a0 as int), wit));
                assert(ws@.len() < hs.len());
                let t = ws@.len() as int;
                assert(decodes_to(cells0, hs[t], #[trigger] wit[t]));
            }
        }
        match de.push_focus(item) {
            Ok(()) => {},
            Err(e) => {
                proof {
                    if has_w {
                        assert((item as int) < cells0.len());
                        assert(false);
                    }
                    assert(!has_w);
                }
                return Err(e);
            },
        }
        let w = match decode_value(de, inner) {
            Ok(w) => w,
            Err(e) => {
                proof {
                    if has_w {
                        let t = ws@.len() as int;
                        lemma_decodes_to_grows(cells0, pre_cells, hs[t], wit[t]);
                        assert(decodes_to(pre_cells, item, wit[t])
                            && shape_fits(*inner, wit[t]));
                        assert(decodable(pre_cells, item, *inner));
                        assert(false);
                    }
                }
                return Err(e);
            },
        };
        de.pop_focus();
        proof {
            assert(de.focus_spec() =~= old(de).focus_spec());
        }
        proof {
            assert forall|t2: int| 0 <= t2 < ws@.len() implies {
                &&& decodes_to(de.cells(), hs[t2], #[trigger] ws@[t2])
                &&& shape_fits(*inner, ws@[t2])
            } by {
                assert(decodes_to(pre_cells, hs[t2], ws@[t2]));
                lemma_decodes_to_grows(pre_cells, de.cells(), hs[t2], ws@[t2]);
            }
            if has_w {
                lemma_grows_trans(cells0, pre_cells, de.cells());
            }
        }
        ws.push(w);
    }
    proof {
        assert(ws@.len() == hs.len());
        crate::deserializer::lemma_resolved_items_grows(old(de).cells(), de.cells(),
            a as int);
    }
    Ok(ws)
}

/// Decodes the focal handle's items against a fixed sequence of shapes:
/// the arity must match exactly. Success is owed whenever some item row of
/// those shapes decodes from the focal resolution.
#[verifier::rlimit(100)]
#[verifier::spinoff_prover]
fn decode_shaped_items(de: &mut GarnishDataDeserializer, shapes: &Vec<Shape>) -> (r: Result<
    Vec<GarnishValue>,
    GarnishSerializationError,
>)
    requires
        old(de).wf(),
    ensures
        final(de).wf(),
        GarnishDataDeserializer::steps_from(*old(de), *final(de)),
        focus_ok(*old(de), *final(de), r.is_ok()),
        r matches Ok(ws) ==> match old(de).focal() {
            Some(a) => {
                &&& (a as int) < old(de).cells().len()
                &&& ws@.len() == shapes@.len()
                &&& items_decode_to(final(de).cells(),
                    resolved_items(final(de).cells(), a as int), ws@)
                &&& forall|i: int| 0 <= i < ws@.len()
                    ==> shape_fits(shapes@[i], #[trigger] ws@[i])
            },
            None => false,
        },
        ((forall|i: int| 0 <= i < shapes@.len() ==> shape_wf(#[trigger] shapes@[i]))
            && match old(de).focal() {
            Some(a) => shaped_items_witness(old(de).cells(), a, shapes@),
            None => false,
        }) ==> r.is_ok(),
    decreases shapes@, 1int,
{
    let ghost cells0 = old(de).cells();
    let ghost a0 = old(de).focal().unwrap();
    let ghost has_w = (forall|i: int| 0 <= i < shapes@.len()
        ==> shape_wf(#[trigger] shapes@[i]))
        && old(de).focal().is_some() && shaped_items_witness(cells0, a0, shapes@);
    let ghost wit = choose|ws2: Seq<GarnishValue>| shaped_items_fit(cells0, a0, shapes@, ws2);
    proof {
        if has_w {
            assert(shaped_items_fit(cells0, a0, shapes@, wit));
            assert(items_decode_to(cells0, resolved_items(cells0, a0 as int), wit));
            assert(resolved_items(cells0, a0 as int) is Some);
            assert(resolved_items(cells0, a0 as int).unwrap().len() == shapes@.len());
        }
    }
    let mut acc = match de.deserialize_tuple(shapes.len()) {
        Ok(acc) => acc,
        Err(e) => {
            proof {
                if has_w {
                    assert(old(de).focal_resolution() == resolved_items(cells0, a0 as int));
                    assert(resolved_items(cells0, a0 as int).unwrap().len()
                        == shapes@.len());
                    assert(false);
                }
            }
            return Err(e);
        },
    };
    let ghost a = old(de).focal().unwrap();
    let ghost hs = acc.remaining();
    proof {
        if has_w {
            assert(resolved_items(cells0, a0 as int) == Some(hs));
            assert(hs.len() == wit.len());
        }
    }
    let mut ws: Vec<GarnishValue> = Vec::new();
    let mut i: usize = 0;
    while i < shapes.len()
        invariant
            de.wf(),
            acc.wf(),
            GarnishDataDeserializer::steps_from(*old(de), *de),
            de.focus_spec() == old(de).focus_spec(),
            i <= shapes@.len(),
            ws@.len() == i,
            hs.len() == shapes@.len(),
            acc.remaining() == hs.skip(i as int),
            forall|t2: int| 0 <= t2 < i ==> {
                &&& decodes_to(de.cells(), hs[t2], #[trigger] ws@[t2])
                &&& shape_fits(shapes@[t2], ws@[t2])
            },
            cells0 == old(de).cells(),
            old(de).focal().is_some() ==> old(de).focal() == Some(a0),
            has_w == ((forall|t3: int| 0 <= t3 < shapes@.len()
                ==> shape_wf(#[trigger] shapes@[t3]))
                && old(de).focal().is_some() && shaped_items_witness(cells0, a0, shapes@)),
            has_w ==> shaped_items_fit(cells0, a0, shapes@, wit),
            has_w ==> resolved_items(cells0, a0 as int) == Some(hs),
            has_w ==> hs.len() == wit.len(),
            has_w ==> (forall|t2: int| 0 <= t2 < shapes@.len()
                ==> shape_wf(#[trigger] shapes@[t2])),
            has_w ==> crate::store::wf_cells(cells0),
            has_w ==> crate::store::grows(cells0, de.cells()),
        decreases shapes@.len() - i,
    {
        let ghost pre_cells = de.cells();
        let item = match acc.next_item() {
            Some(h) => h,
            None => {
                return Err(GarnishSerializationError::from_message(
                    "The resolved view ended early."));
            },
        };
        proof {
            assert(item == hs[i as int]);
            assert(acc.remaining() =~= hs.skip(i as int + 1));
            assert(crate::store::wf_cells(pre_cells));
            if has_w {
                assert(items_decode_to(cells0, resolved_items(cells0, a0 as int), wit));
                assert(decodes_to(cells0, hs[i as int], #[trigger] wit[i as int]));
            }
        }
        match de.push_focus(item) {
            Ok(()) => {},
            Err(e) => {
                proof {
                    if has_w {
                        assert((item as int) < cells0.len());
                        assert(false);
                    }
                }
                return Err(e);
            },
        }
        let w = match decode_value(de, &shapes[i]) {
            Ok(w) => w,
            Err(e) => {
                proof {
                    if has_w {
                        let t = i as int;
                        lemma_decodes_to_grows(cells0, pre_cells, hs[t], wit[t]);
                        assert(decodes_to(pre_cells, item, wit[t])
                            && shape_fits(shapes@[t], wit[t]));
                        assert(decodable(pre_cells, item, shapes@[t]));
                        assert(false);
                    }
                }
                return Err(e);
            },
        };
        de.pop_focus();
        proof {
            assert(de.focus_spec() =~= old(de).focus_spec());
        }
        proof {
            assert forall|t2: int| 0 <= t2 < ws@.len() implies {
                &&& decodes_to(de.cells(), hs[t2], #[trigger] ws@[t2])
                &&& shape_fits(shapes@[t2], ws@[t2])
            } by {
                assert(decodes_to(pre_cells, hs[t2], ws@[t2]));
                lemma_decodes_to_grows(pre_cells, de.cells(), hs[t2], ws@[t2]);
            }
            if has_w {
                lemma_grows_trans(cells0, pre_cells, de.cells());
            }
        }
        ws.push(w);
        i = i + 1;
    }
    proof {
        crate::deserializer::lemma_resolved_items_grows(old(de).cells(), de.cells(),
            a as int);
    }
    Ok(ws)
}

/// Decodes every resolved entry of the focal handle as a (key, value)
/// pair, keys materialized to text, values decoded against one shape.
/// Success is owed whenever some entry row of that shape decodes from the
/// focal resolution.
#[verifier::rlimit(100)]
#[verifier::spinoff_prover]
fn decode_map_entries(de: &mut GarnishDataDeserializer, inner: &Shape) -> (r: Result<
    Vec<(Vec<char>, GarnishValue)>,
    GarnishSerializationError,
>)
    requires
        old(de).wf(),
    ensures
        final(de).wf(),
        GarnishDataDeserializer::steps_from(*old(de), *final(de)),
        focus_ok(*old(de), *final(de), r.is_ok()),
        r matches Ok(es) ==> match old(de).focal() {
            Some(a) => {
                &&& (a as int) < old(de).cells().len()
                &&& entries_decode_to(final(de).cells(),
                    resolved_items(final(de).cells(), a as int), es@)
                &&& forall|i: int| 0 <= i < es@.len()
                    ==> shape_fits(*inner, (#[trigger] es@[i]).1)
            },
            None => false,
        },
        (shape_wf(*inner) && match old(de).focal() {
            Some(a) => entries_witness(old(de).cells(), a, *inner),
            None => false,
        }) ==> r.is_ok(),
    decreases inner, 1int,
{
    let ghost cells0 = old(de).cells();
    let ghost a0 = old(de).focal().unwrap();
    let ghost has_w = shape_wf(*inner) && old(de).focal().is_some()
        && entries_witness(cells0, a0, *inner);
    let ghost wit = choose|es2: Seq<(Vec<char>, GarnishValue)>| entries_fit(cells0, a0,
        *inner, es2);
    proof {
        if has_w {
            assert(entries_fit(cells0, a0, *inner, wit));
            assert(entries_decode_to(cells0, resolved_items(cells0, a0 as int), wit));
            assert(resolved_items(cells0, a0 as int) is Some);
        }
    }
    let mut acc = match ListAccessor::new(de) {
        Ok(acc) => acc,
        Err(e) => {
            proof {
                if has_w {
                    assert(old(de).focal_resolution()
                        == resolved_items(cells0, a0 as int));
                    assert(false);
                }
            }
            return Err(e);
        },
    };
    let ghost a = old(de).focal().unwrap();
    let ghost hs = acc.remaining();
    proof {
        if has_w {
            assert(resolved_items(cells0, a0 as int) == Some(hs));
            assert(hs.len() == wit.len());
        }
    }
    let mut es: Vec<(Vec<char>, GarnishValue)> = Vec::new();
    while acc.remaining_len() > 0
        invariant
            de.wf(),
            acc.wf(),
            GarnishDataDeserializer::steps_from(*old(de), *de),
            de.focus_spec() == old(de).focus_spec(),
            es@.len() <= hs.len(),
            acc.remaining() == hs.skip(es@.len() as int),
            forall|t2: int| 0 <= t2 < es@.len() ==> {
                &&& entry_readable(de.cells(), #[trigger] hs[t2])
                &&& pair_key_chars(de.cells(), hs[t2]) == Some(es@[t2].0@)
                &&& decodes_to(de.cells(), pair_value(de.cells(), hs[t2]), es@[t2].1)
                &&& shape_fits(*inner, es@[t2].1)
            },
            cells0 == old(de).cells(),
            old(de).focal().is_some() ==> old(de).focal() == Some(a0),
            has_w == (shape_wf(*inner) && old(de).focal().is_some()
                && entries_witness(cells0, a0, *inner)),
            shape_wf(*inner) || !has_w,
            has_w ==> entries_fit(cells0, a0, *inner, wit),
            has_w ==> resolved_items(cells0, a0 as int) == Some(hs),
            has_w ==> hs.len() == wit.len(),
            has_w ==> crate::store::wf_cells(cells0),
            has_w ==> crate::store::grows(cells0, de.cells()),
        decreases acc.remaining().len(),
    {
        let ghost pre_cells = de.cells();
        let item = match acc.next_item() {
            Some(h) => h,
            None => {
                return Err(GarnishSerializationError::from_message(
                    "The resolved view ended early."));
            },
        };
        proof {
            assert(item == hs[es@.len() as int]);
            assert(acc.remaining() =~= hs.skip(es@.len() as int + 1));
            assert(crate::store::wf_cells(pre_cells));
            if has_w {
                let t = es@.len() as int;
                assert(entries_decode_to(cells0, resolved_items(cells0, a0 as int), wit));
                assert(es@.len() < hs.len());
                let ev = wit[t];
                assert(entry_readable(cells0, hs[t])
                    && pair_key_chars(cells0, hs[t]) == Some(ev.0@)
                    && decodes_to(cells0, pair_value(cells0, hs[t]), ev.1));
                assert(pre_cells[item as int] == cells0[item as int]);
            }
        }
        let (kh, vh) = match de.data().get_pair(item) {
            Ok(p) => p,
            Err(e) => {
                proof {
                    if has_w {
                        assert(false);
                    }
                }
                return crate::error::wrap_err(e);
            },
        };
        proof {
            if has_w {
                let t = es@.len() as int;
                assert(cells0[item as int] == StoreValue::Pair(kh, vh));
                assert((kh as int) < cells0.len());
                assert(pre_cells[kh as int] == cells0[kh as int]);
                assert(chars_of(pre_cells, kh as int) == chars_of(cells0, kh as int)) by {
                    crate::store::lemma_chars_of_grows(cells0, pre_cells, kh as int);
                }
                assert(pair_value(cells0, hs[t]) == vh);
            }
        }
        match de.push_focus(kh) {
            Ok(()) => {},
            Err(e) => {
                proof {
                    if has_w {
                        assert(false);
                    }
                }
                return Err(e);
            },
        }
        let kcs = match de.deserialize_string() {
            Ok(cs) => cs,
            Err(e) => {
                proof {
                    if has_w {
                        assert(false);
                    }
                }
                return Err(e);
            },
        };
        de.pop_focus();
        proof {
            assert(de.focus_spec() =~= old(de).focus_spec());
        }
        match de.push_focus(vh) {
            Ok(()) => {},
            Err(e) => {
                proof {
                    if has_w {
                        assert(crate::store::cell_wf(cells0[item as int], item as int));
                        assert((vh as int) < cells0.len());
                        assert(false);
                    }
                }
                return Err(e);
            },
        }
        let ghost call_cells = de.cells();
        let w = match decode_value(de, inner) {
            Ok(w) => w,
            Err(e) => {
                proof {
                    if has_w {
                        let t = es@.len() as int;
                        lemma_grows_trans(cells0, pre_cells, call_cells);
                        lemma_decodes_to_grows(cells0, call_cells,
                            pair_value(cells0, hs[t]), wit[t].1);
                        assert(decodes_to(call_cells, vh, wit[t].1)
                            && shape_fits(*inner, wit[t].1));
                        assert(decodable(call_cells, vh, *inner));
                        assert(false);
                    }
                }
                return Err(e);
            },
        };
        de.pop_focus();
        proof {
            assert(de.focus_spec() =~= old(de).focus_spec());
        }
        proof {
            assert(chars_of(pre_cells, kh as int) == Some(kcs@));
            assert((kh as int) < pre_cells.len());
            assert(pre_cells[kh as int] is CharList || pre_cells[kh as int] is Symbol
                || pre_cells[kh as int] is Concatenation || pre_cells[kh as int] is Slice);
            assert(de.cells()[kh as int] == pre_cells[kh as int]);
            crate::store::lemma_chars_of_grows(pre_cells, de.cells(), kh as int);
            assert(de.cells()[item as int] == pre_cells[item as int]);
            assert(pair_value(de.cells(), item) == vh);
            assert(decodes_to(de.cells(), vh, w));
            lemma_entry_rows_grow(pre_cells, de.cells(), hs, es@, *inner,
                es@.len() as int);
            if has_w {
                lemma_grows_trans(cells0, pre_cells, de.cells());
            }
        }
        es.push((kcs, w));
    }
    proof {
        assert(es@.len() == hs.len());
        crate::deserializer::lemma_resolved_items_grows(old(de).cells(), de.cells(),
            a as int);
        assert forall|i2: int| 0 <= i2 < es@.len() implies {
            &&& entry_readable(de.cells(), hs[i2])
            &&& pair_key_chars(de.cells(), hs[i2]) == Some((#[trigger] es@[i2]).0@)
            &&& decodes_to(de.cells(), pair_value(de.cells(), hs[i2]), es@[i2].1)
        } by {
            assert(entry_readable(de.cells(), #[trigger] hs[i2]));
        }
        assert(entries_decode_to(de.cells(), resolved_items(de.cells(), a as int), es@));
    }
    Ok(es)
}

/// A decoded entry prefix keeps decoding as the store grows.
proof fn lemma_entry_rows_grow(
    pre: Seq<StoreValue>,
    post: Seq<StoreValue>,
    hs: Seq<usize>,
    es: Seq<(Vec<char>, GarnishValue)>,
    inner: Shape,
    n: int,
)
    requires
        crate::store::grows(pre, post),
        crate::store::wf_cells(pre),
        n <= hs.len(),
        n <= es.len(),
        forall|t2: int| 0 <= t2 < n ==> {
            &&& entry_readable(pre, #[trigger] hs[t2])
            &&& pair_key_chars(pre, hs[t2]) == Some(es[t2].0@)
            &&& decodes_to(pre, pair_value(pre, hs[t2]), es[t2].1)
            &&& shape_fits(inner, es[t2].1)
        },
    ensures
        forall|t2: int| 0 <= t2 < n ==> {
            &&& entry_readable(post, #[trigger] hs[t2])
            &&& pair_key_chars(post, hs[t2]) == Some(es[t2].0@)
            &&& decodes_to(post, pair_value(post, hs[t2]), es[t2].1)
            &&& shape_fits(inner, es[t2].1)
        },
{
    assert forall|t2: int| 0 <= t2 < n implies {
        &&& entry_readable(post, #[trigger] hs[t2])
        &&& pair_key_chars(post, hs[t2]) == Some(es[t2].0@)
        &&& decodes_to(post, pair_value(post, hs[t2]), es[t2].1)
        &&& shape_fits(inner, es[t2].1)
    } by {
        let ev = es[t2];
        assert(entry_readable(pre, hs[t2])
            && pair_key_chars(pre, hs[t2]) == Some(ev.0@)
            && decodes_to(pre, pair_value(pre, hs[t2]), ev.1));
        assert(post[hs[t2] as int] == pre[hs[t2] as int]);
        match pre[hs[t2] as int] {
            StoreValue::Pair(k2, _) => {
                assert(crate::store::cell_wf(pre[hs[t2] as int], hs[t2] as int));
                assert(post[k2 as int] == pre[k2 as int]);
                crate::store::lemma_chars_of_grows(pre, post, k2 as int);
            },
            _ => {},
        }
        lemma_decodes_to_grows(pre, post, pair_value(pre, hs[t2]), ev.1);
    }
}

/// A decoded field prefix keeps its by-name lookup as the store grows.
proof fn lemma_field_rows_grow(
    pre: Seq<StoreValue>,
    post: Seq<StoreValue>,
    hs: Seq<usize>,
    fields: Seq<(Vec<char>, Shape)>,
    fvs: Seq<(Vec<char>, GarnishValue)>,
    n: int,
)
    requires
        crate::store::grows(pre, post),
        crate::store::wf_cells(pre),
        n <= fvs.len(),
        n <= fields.len(),
        forall|j: int| 0 <= j < hs.len() ==> entry_readable(pre, #[trigger] hs[j]),
        forall|t2: int| 0 <= t2 < n ==> {
            &&& (#[trigger] fvs[t2]).0@ == fields[t2].0@
            &&& shape_fits(fields[t2].1, fvs[t2].1)
            &&& match find_key(pre, hs, fields[t2].0@) {
                Some(j) => decodes_to(pre, pair_value(pre, hs[j]), fvs[t2].1),
                None => false,
            }
        },
    ensures
        forall|t2: int| 0 <= t2 < n ==> {
            &&& (#[trigger] fvs[t2]).0@ == fields[t2].0@
            &&& shape_fits(fields[t2].1, fvs[t2].1)
            &&& match find_key(post, hs, fields[t2].0@) {
                Some(j) => decodes_to(post, pair_value(post, hs[j]), fvs[t2].1),
                None => false,
            }
        },
{
    assert forall|t2: int| 0 <= t2 < n implies {
        &&& (#[trigger] fvs[t2]).0@ == fields[t2].0@
        &&& shape_fits(fields[t2].1, fvs[t2].1)
        &&& match find_key(post, hs, fields[t2].0@) {
            Some(j) => decodes_to(post, pair_value(post, hs[j]), fvs[t2].1),
            None => false,
        }
    } by {
        let fv = fvs[t2];
        assert(fv.0@ == fields[t2].0@ && shape_fits(fields[t2].1, fv.1));
        assert(match find_key(pre, hs, fields[t2].0@) {
            Some(j) => decodes_to(pre, pair_value(pre, hs[j]), fv.1),
            None => false,
        });
        lemma_find_key_grows(pre, post, hs, fields[t2].0@);
        match find_key(pre, hs, fields[t2].0@) {
            Some(j) => {
                lemma_find_key_bounds(pre, hs, fields[t2].0@);
                assert(post[hs[j] as int] == pre[hs[j] as int]);
                lemma_decodes_to_grows(pre, post, pair_value(pre, hs[j]), fv.1);
            },
            None => {},
        }
    }
}

/// A prefix of collected entries stays readable, keyed and valued the
/// same, as the store grows.
proof fn lemma_collected_entries_grow(
    pre: Seq<StoreValue>,
    post: Seq<StoreValue>,
    hs: Seq<usize>,
    keys: Seq<Vec<char>>,
    values: Seq<usize>,
    n: int,
)
    requires
        crate::store::grows(pre, post),
        crate::store::wf_cells(pre),
        n <= hs.len(),
        forall|t2: int| 0 <= t2 < n ==> {
            &&& entry_readable(pre, #[trigger] hs[t2])
            &&& pair_key_chars(pre, hs[t2]) == Some(keys[t2]@)
            &&& values[t2] == pair_value(pre, hs[t2])
        },
    ensures
        forall|t2: int| 0 <= t2 < n ==> {
            &&& entry_readable(post, #[trigger] hs[t2])
            &&& pair_key_chars(post, hs[t2]) == Some(keys[t2]@)
            &&& values[t2] == pair_value(post, hs[t2])
        },
{
    assert forall|t2: int| 0 <= t2 < n implies {
        &&& entry_readable(post, #[trigger] hs[t2])
        &&& pair_key_chars(post, hs[t2]) == Some(keys[t2]@)
        &&& values[t2] == pair_value(post, hs[t2])
    } by {
        let kv = keys[t2];
        assert(entry_readable(pre, hs[t2])
            && pair_key_chars(pre, hs[t2]) == Some(kv@)
            && values[t2] == pair_value(pre, hs[t2]));
        assert(post[hs[t2] as int] == pre[hs[t2] as int]);
        match pre[hs[t2] as int] {
            StoreValue::Pair(k2, _) => {
                assert(crate::store::cell_wf(pre[hs[t2] as int], hs[t2] as int));
                crate::store::lemma_chars_of_grows(pre, post, k2 as int);
            },
            _ => {},
        }
    }
}

/// Decodes the focal handle as a struct body: every resolved entry must be
/// a readable pair, and each declared field takes the value of the first
/// entry keyed by its name; entries no field names are ignored. Success is
/// owed whenever some field row matching the declared fields decodes from
/// the focal resolution.
#[verifier::rlimit(100)]
#[verifier::spinoff_prover]
fn decode_struct_fields(
    de: &mut GarnishDataDeserializer,
    fields: &Vec<(Vec<char>, Shape)>,
) -> (r: Result<Vec<(Vec<char>, GarnishValue)>, GarnishSerializationError>)
    requires
        old(de).wf(),
    ensures
        final(de).wf(),
        GarnishDataDeserializer::steps_from(*old(de), *final(de)),
        focus_ok(*old(de), *final(de), r.is_ok()),
        r matches Ok(fvs) ==> match old(de).focal() {
            Some(a) => {
                &&& (a as int) < old(de).cells().len()
                &&& fvs@.len() == fields@.len()
                &&& fields_decode_to(final(de).cells(),
                    resolved_items(final(de).cells(), a as int), fvs@)
                &&& forall|i: int| 0 <= i < fvs@.len() ==> {
                    &&& (#[trigger] fvs@[i]).0@ == fields@[i].0@
                    &&& shape_fits(fields@[i].1, fvs@[i].1)
                }
            },
            None => false,
        },
        ((forall|i: int| 0 <= i < fields@.len() ==> shape_wf((#[trigger] fields@[i]).1))
            && match old(de).focal() {
            Some(a) => fields_witness(old(de).cells(), a, fields@),
            None => false,
        }) ==> r.is_ok(),
    decreases fields@, 1int,
{
    let ghost cells0 = old(de).cells();
    let ghost a0 = old(de).focal().unwrap();
    let ghost has_w = (forall|i: int| 0 <= i < fields@.len()
        ==> shape_wf((#[trigger] fields@[i]).1))
        && old(de).focal().is_some() && fields_witness(cells0, a0, fields@);
    let ghost wit = choose|fvs2: Seq<(Vec<char>, GarnishValue)>| fields_fit(cells0, a0,
        fields@, fvs2);
    proof {
        if has_w {
            assert(fields_fit(cells0, a0, fields@, wit));
            assert(fields_decode_to(cells0, resolved_items(cells0, a0 as int), wit));
            assert(resolved_items(cells0, a0 as int) is Some);
        }
    }
    let mut acc = match ListAccessor::new(de) {
        Ok(acc) => acc,
        Err(e) => {
            proof {
                if has_w {
                    assert(old(de).focal_resolution()
                        == resolved_items(cells0, a0 as int));
                    assert(false);
                }
            }
            return Err(e);
        },
    };
    let ghost a = old(de).focal().unwrap();
    let ghost hs = acc.remaining();
    proof {
        if has_w {
            assert(resolved_items(cells0, a0 as int) == Some(hs));
        }
    }
    let mut keys: Vec<Vec<char>> = Vec::new();
    let mut values: Vec<usize> = Vec::new();
    while acc.remaining_len() > 0
        invariant
            de.wf(),
            acc.wf(),
            GarnishDataDeserializer::steps_from(*old(de), *de),
            de.focus_spec() == old(de).focus_spec(),
            keys@.len() <= hs.len(),
            values@.len() == keys@.len(),
            acc.remaining() == hs.skip(keys@.len() as int),
            forall|t2: int| 0 <= t2 < keys@.len() ==> {
                &&& entry_readable(de.cells(), #[trigger] hs[t2])
                &&& pair_key_chars(de.cells(), hs[t2]) == Some(keys@[t2]@)
                &&& values@[t2] == pair_value(de.cells(), hs[t2])
            },
            cells0 == old(de).cells(),
            old(de).focal().is_some() ==> old(de).focal() == Some(a0),
            has_w == ((forall|t3: int| 0 <= t3 < fields@.len()
                ==> shape_wf((#[trigger] fields@[t3]).1))
                && old(de).focal().is_some() && fields_witness(cells0, a0, fields@)),
            has_w ==> fields_fit(cells0, a0, fields@, wit),
            has_w ==> resolved_items(cells0, a0 as int) == Some(hs),
            has_w ==> (forall|t2: int| 0 <= t2 < fields@.len()
                ==> shape_wf((#[trigger] fields@[t2]).1)),
            has_w ==> crate::store::wf_cells(cells0),
            has_w ==> crate::store::grows(cells0, de.cells()),
        decreases acc.remaining().len(),
    {
        let ghost pre_cells = de.cells();
        let item = match acc.next_item() {
            Some(h) => h,
            None => {
                return Err(GarnishSerializationError::from_message(
                    "The resolved view ended early."));
            },
        };
        proof {
            assert(item == hs[keys@.len() as int]);
            assert(acc.remaining() =~= hs.skip(keys@.len() as int + 1));
            assert(crate::store::wf_cells(pre_cells));
            if has_w {
                let t = keys@.len() as int;
                assert(fields_decode_to(cells0, resolved_items(cells0, a0 as int), wit));
                assert(keys@.len() < hs.len());
                assert(entry_readable(cells0, hs[t]));
                assert(pre_cells[item as int] == cells0[item as int]);
            }
        }
        let (kh, vh) = match de.data().get_pair(item) {
            Ok(p) => p,
            Err(e) => {
                proof {
                    if has_w {
                        assert(false);
                    }
                }
                return crate::error::wrap_err(e);
            },
        };
        proof {
            if has_w {
                assert(cells0[item as int] == StoreValue::Pair(kh, vh));
                assert((kh as int) < cells0.len());
                assert(pre_cells[kh as int] == cells0[kh as int]);
                assert(chars_of(pre_cells, kh as int) == chars_of(cells0, kh as int)) by {
                    crate::store::lemma_chars_of_grows(cells0, pre_cells, kh as int);
                }
            }
        }
        match de.push_focus(kh) {
            Ok(()) => {},
            Err(e) => {
                proof {
                    if has_w {
                        assert(false);
                    }
                }
                return Err(e);
            },
        }
        let kcs = match de.deserialize_string() {
            Ok(cs) => cs,
            Err(e) => {
                proof {
                    if has_w {
                        assert(false);
                    }
                }
                return Err(e);
            },
        };
        de.pop_focus();
        proof {
            assert(de.focus_spec() =~= old(de).focus_spec());
        }
        proof {
            assert(chars_of(pre_cells, kh as int) == Some(kcs@));
            lemma_collected_entries_grow(pre_cells, de.cells(), hs, keys@, values@,
                keys@.len() as int);
            assert(de.cells()[item as int] == pre_cells[item as int]);
            assert((kh as int) < pre_cells.len());
            assert(pre_cells[kh as int] is CharList || pre_cells[kh as int] is Symbol
                || pre_cells[kh as int] is Concatenation || pre_cells[kh as int] is Slice);
            assert(de.cells()[kh as int] == pre_cells[kh as int]);
            crate::store::lemma_chars_of_grows(pre_cells, de.cells(), kh as int);
            assert(entry_readable(de.cells(), item));
            assert(pair_key_chars(de.cells(), item) == Some(kcs@));
            assert(pair_value(de.cells(), item) == vh);
            if has_w {
                lemma_grows_trans(cells0, pre_cells, de.cells());
            }
        }
        keys.push(kcs);
        values.push(vh);
    }
    let entry_count = keys.len();
    proof {
        assert(keys@.len() == hs.len());
    }
    let mut fvs: Vec<(Vec<char>, GarnishValue)> = Vec::new();
    let mut i: usize = 0;
    while i < fields.len()
        invariant
            de.wf(),
            acc.wf(),
            GarnishDataDeserializer::steps_from(*old(de), *de),
            de.focus_spec() == old(de).focus_spec(),
            i <= fields@.len(),
            fvs@.len() == i,
            entry_count == hs.len(),
            keys@.len() == hs.len(),
            values@.len() == hs.len(),
            forall|t2: int| 0 <= t2 < hs.len() ==> {
                &&& entry_readable(de.cells(), #[trigger] hs[t2])
                &&& pair_key_chars(de.cells(), hs[t2]) == Some(keys@[t2]@)
                &&& values@[t2] == pair_value(de.cells(), hs[t2])
            },
            forall|t2: int| 0 <= t2 < i ==> {
                &&& (#[trigger] fvs@[t2]).0@ == fields@[t2].0@
                &&& shape_fits(fields@[t2].1, fvs@[t2].1)
                &&& match find_key(de.cells(), hs, fields@[t2].0@) {
                    Some(j) => decodes_to(de.cells(), pair_value(de.cells(), hs[j]),
                        fvs@[t2].1),
                    None => false,
                }
            },
            cells0 == old(de).cells(),
            old(de).focal().is_some() ==> old(de).focal() == Some(a0),
            has_w == ((forall|t3: int| 0 <= t3 < fields@.len()
                ==> shape_wf((#[trigger] fields@[t3]).1))
                && old(de).focal().is_some() && fields_witness(cells0, a0, fields@)),
            has_w ==> fields_fit(cells0, a0, fields@, wit),
            has_w ==> resolved_items(cells0, a0 as int) == Some(hs),
            has_w ==> (forall|t2: int| 0 <= t2 < fields@.len()
                ==> shape_wf((#[trigger] fields@[t2]).1)),
            has_w ==> crate::store::wf_cells(cells0),
            has_w ==> crate::store::grows(cells0, de.cells()),
        decreases fields@.len() - i,
    {
        let ghost pre_cells = de.cells();
        proof {
            if has_w {
                let t = i as int;
                assert(fields_decode_to(cells0, resolved_items(cells0, a0 as int), wit));
                assert((#[trigger] wit[t]).0@ == fields@[t].0@
                    && shape_fits(fields@[t].1, wit[t].1));
                assert(match find_key(cells0, hs, fields@[t].0@) {
                    Some(j) => decodes_to(cells0, pair_value(cells0, hs[j]), wit[t].1),
                    None => false,
                });
                lemma_find_key_grows(cells0, pre_cells, hs, fields@[t].0@);
                lemma_find_key_bounds(pre_cells, hs, fields@[t].0@);
            }
        }
        let mut j: usize = 0;
        let mut found_opt: Option<usize> = None;
        while j < entry_count
            invariant
                j <= hs.len(),
                (i as int) < fields@.len(),
                entry_count == hs.len(),
                keys@.len() == hs.len(),
                match found_opt {
                    Some(f) => {
                        &&& (f as int) < hs.len()
                        &&& keys@[f as int]@ == fields@[i as int].0@
                        &&& forall|t2: int| 0 <= t2 < f
                            ==> (#[trigger] keys@[t2])@ != fields@[i as int].0@
                    },
                    None => forall|t2: int| 0 <= t2 < j
                        ==> (#[trigger] keys@[t2])@ != fields@[i as int].0@,
                },
            decreases hs.len() - j,
        {
            if found_opt.is_none() && chars_eq(&keys[j], &fields[i].0) {
                found_opt = Some(j);
            }
            j = j + 1;
        }
        let found: usize = match found_opt {
            Some(f) => f,
            None => {
                proof {
                    if has_w {
                        let t = i as int;
                        match find_key(pre_cells, hs, fields@[t].0@) {
                            Some(j2) => {
                                assert(pair_key_chars(pre_cells, hs[j2])
                                    == Some(keys@[j2]@));
                                assert(keys@[j2]@ == fields@[t].0@);
                                assert(false);
                            },
                            None => {
                                assert(false);
                            },
                        }
                    }
                }
                return Err(GarnishSerializationError::from_message(
                    "A requested field is missing from the struct entries."));
            },
        };
        proof {
            if has_w {
                let t = i as int;
                assert forall|t2: int| 0 <= t2 < found
                    implies pair_key_chars(pre_cells, #[trigger] hs[t2])
                        != Some(fields@[t].0@) by {
                    assert(pair_key_chars(pre_cells, hs[t2]) == Some(keys@[t2]@));
                    assert(keys@[t2]@ != fields@[t].0@);
                }
                assert(entry_readable(pre_cells, hs[found as int])
                    && pair_key_chars(pre_cells, hs[found as int])
                        == Some(keys@[found as int]@));
                lemma_find_key_first(pre_cells, hs, fields@[t].0@, found as int);
                assert(find_key(pre_cells, hs, fields@[t].0@) == Some(found as int));
            }
        }
        match de.push_focus(values[found]) {
            Ok(()) => {},
            Err(e) => {
                proof {
                    if has_w {
                        assert(false);
                    }
                }
                return Err(e);
            },
        }
        let w = match decode_value(de, &fields[i].1) {
            Ok(w) => w,
            Err(e) => {
                proof {
                    if has_w {
                        let t = i as int;
                        assert(find_key(cells0, hs, fields@[t].0@) == Some(found as int));
                        assert(decodes_to(cells0, pair_value(cells0, hs[found as int]),
                            wit[t].1));
                        assert(pair_value(cells0, hs[found as int])
                            == pair_value(pre_cells, hs[found as int]));
                        lemma_decodes_to_grows(cells0, pre_cells,
                            pair_value(cells0, hs[found as int]), wit[t].1);
                        assert(decodes_to(pre_cells, values@[found as int], wit[t].1)
                            && shape_fits(fields@[t].1, wit[t].1));
                        assert(decodable(pre_cells, values@[found as int], fields@[t].1));
                        assert(false);
                    }
                }
                return Err(e);
            },
        };
        de.pop_focus();
        proof {
            assert(de.focus_spec() =~= old(de).focus_spec());
        }
        proof {
            lemma_collected_entries_grow(pre_cells, de.cells(), hs, keys@, values@,
                hs.len() as int);
            lemma_field_rows_grow(pre_cells, de.cells(), hs, fields@, fvs@,
                fvs@.len() as int);
            assert forall|t2: int| 0 <= t2 < found
                implies pair_key_chars(de.cells(), #[trigger] hs[t2])
                    != Some(fields@[i as int].0@) by {
                assert(pair_key_chars(de.cells(), hs[t2]) == Some(keys@[t2]@));
                assert(keys@[t2]@ != fields@[i as int].0@);
            }
            assert(entry_readable(de.cells(), hs[found as int])
                && pair_key_chars(de.cells(), hs[found as int])
                    == Some(keys@[found as int]@));
            assert(keys@[found as int]@ == fields@[i as int].0@);
            lemma_find_key_first(de.cells(), hs, fields@[i as int].0@, found as int);
            assert(values@[found as int] == pair_value(de.cells(), hs[found as int]));
            assert(decodes_to(de.cells(), values@[found as int], w));
            if has_w {
                lemma_grows_trans(cells0, pre_cells, de.cells());
            }
        }
        let ghost fvs_pre = fvs@;
        fvs.push((copy_vec(&fields[i].0), w));
        proof {
            assert forall|t2: int| 0 <= t2 < fvs@.len() implies {
                &&& (#[trigger] fvs@[t2]).0@ == fields@[t2].0@
                &&& shape_fits(fields@[t2].1, fvs@[t2].1)
                &&& match find_key(de.cells(), hs, fields@[t2].0@) {
                    Some(j2) => decodes_to(de.cells(), pair_value(de.cells(), hs[j2]),
                        fvs@[t2].1),
                    None => false,
                }
            } by {
                if t2 < fvs_pre.len() {
                    assert(fvs@[t2] == fvs_pre[t2]);
                    assert((#[trigger] fvs_pre[t2]).0@ == fields@[t2].0@
                        && shape_fits(fields@[t2].1, fvs_pre[t2].1)
                        && match find_key(de.cells(), hs, fields@[t2].0@) {
                            Some(j2) => decodes_to(de.cells(),
                                pair_value(de.cells(), hs[j2]), fvs_pre[t2].1),
                            None => false,
                        });
                } else {
                    assert(t2 == i as int);
                    assert(fvs@[t2].0@ == fields@[t2].0@);
                    assert(find_key(de.cells(), hs, fields@[t2].0@)
                        == Some(found as int));
                    assert(decodes_to(de.cells(), pair_value(de.cells(),
                        hs[found as int]), w));
                }
            }
        }
        i = i + 1;
    }
    proof {
        crate::deserializer::lemma_resolved_items_grows(old(de).cells(), de.cells(),
            a as int);
        assert forall|t2: int| 0 <= t2 < hs.len()
            implies entry_readable(de.cells(), #[trigger] hs[t2]) by {
            let kv = keys@[t2];
            assert(entry_readable(de.cells(), hs[t2])
                && pair_key_chars(de.cells(), hs[t2]) == Some(kv@));
        }
    }
    Ok(fvs)
}

/// The two values carry the same structural content: equal case by case,
/// text, bytes and names compared by their character and byte views.
pub open spec fn same_content(v1: GarnishValue, v2: GarnishValue) -> bool
    decreases v1,
{
    match (v1, v2) {
        (GarnishValue::Bool(a), GarnishValue::Bool(b)) => a == b,
        (GarnishValue::Integer(a), GarnishValue::Integer(b)) => a == b,
        (GarnishValue::FloatBits(a), GarnishValue::FloatBits(b)) => a == b,
        (GarnishValue::Character(a), GarnishValue::Character(b)) => a == b,
        (GarnishValue::Text(a), GarnishValue::Text(b)) => a@ == b@,
        (GarnishValue::Bytes(a), GarnishValue::Bytes(b)) => a@ == b@,
        (GarnishValue::Unit, GarnishValue::Unit) => true,
        (GarnishValue::Absent, GarnishValue::Absent) => true,
        (GarnishValue::Present(x), GarnishValue::Present(y)) => same_content(*x, *y),
        (GarnishValue::UnitStruct(a), GarnishValue::UnitStruct(b)) => a@ == b@,
        (GarnishValue::NewtypeStruct(a, x), GarnishValue::NewtypeStruct(b, y)) => a@ == b@
            && same_content(*x, *y),
        (GarnishValue::Sequence(xs), GarnishValue::Sequence(ys)) => same_items(xs@, ys@),
        (GarnishValue::Tuple(xs), GarnishValue::Tuple(ys)) => same_items(xs@, ys@),
        (GarnishValue::TupleStruct(a, xs), GarnishValue::TupleStruct(b, ys)) => a@ == b@
            && same_items(xs@, ys@),
        (GarnishValue::MapValue(xs), GarnishValue::MapValue(ys)) => same_entries(xs@, ys@),
        (GarnishValue::StructValue(a, xs), GarnishValue::StructValue(b, ys)) => a@ == b@
            && same_entries(xs@, ys@),
        (GarnishValue::UnitVariant(a, i1, u), GarnishValue::UnitVariant(b, i2, w)) => a@ == b@
            && i1 == i2 && u@ == w@,
        (GarnishValue::NewtypeVariant(a, i1, u, x),
            GarnishValue::NewtypeVariant(b, i2, w, y)) => a@ == b@ && i1 == i2 && u@ == w@
            && same_content(*x, *y),
        (GarnishValue::TupleVariant(a, i1, u, xs),
            GarnishValue::TupleVariant(b, i2, w, ys)) => a@ == b@ && i1 == i2 && u@ == w@
            && same_items(xs@, ys@),
        (GarnishValue::StructVariant(a, i1, u, xs),
            GarnishValue::StructVariant(b, i2, w, ys)) => a@ == b@ && i1 == i2 && u@ == w@
            && same_entries(xs@, ys@),
        _ => false,
    }
}

pub open spec fn same_items(xs: Seq<GarnishValue>, ys: Seq<GarnishValue>) -> bool
    decreases xs,
{
    xs.len() == ys.len() && forall|i: int| 0 <= i < xs.len()
        ==> same_content(#[trigger] xs[i], ys[i])
}

pub open spec fn same_entries(
    xs: Seq<(Vec<char>, GarnishValue)>,
    ys: Seq<(Vec<char>, GarnishValue)>,
) -> bool
    decreases xs,
{
    xs.len() == ys.len() && forall|i: int| 0 <= i < xs.len() ==> {
        &&& (#[trigger] xs[i]).0@ == ys[i].0@
        &&& same_content(xs[i].1, ys[i].1)
    }
}

/// The requested shape is unambiguous: every enum it mentions names its
/// variants distinctly.
pub open spec fn shape_wf(s: Shape) -> bool
    decreases s,
{
    match s {
        Shape::Optional(inner) => shape_wf(*inner),
        Shape::NewtypeStruct(_, inner) => shape_wf(*inner),
        Shape::Sequence(inner) => shape_wf(*inner),
        Shape::Tuple(shapes) => forall|i: int| 0 <= i < shapes@.len()
            ==> shape_wf(#[trigger] shapes@[i]),
        Shape::TupleStruct(_, shapes) => forall|i: int| 0 <= i < shapes@.len()
            ==> shape_wf(#[trigger] shapes@[i]),
        Shape::MapOf(inner) => shape_wf(*inner),
        Shape::StructOf(_, fields) => forall|i: int| 0 <= i < fields@.len()
            ==> shape_wf((#[trigger] fields@[i]).1),
        Shape::EnumOf(_, variants) => {
            &&& (forall|i: int, j: int| 0 <= i < j < variants@.len()
                ==> (#[trigger] variants@[i]).name@ != (#[trigger] variants@[j]).name@)
            &&& forall|i: int| 0 <= i < variants@.len()
                ==> variant_kind_wf((#[trigger] variants@[i]).kind)
        },
        _ => true,
    }
}

pub open spec fn variant_kind_wf(k: VariantKind) -> bool
    decreases k,
{
    match k {
        VariantKind::UnitKind => true,
        VariantKind::NewtypeKind(inner) => shape_wf(*inner),
        VariantKind::TupleKind(shapes) => forall|i: int| 0 <= i < shapes@.len()
            ==> shape_wf(#[trigger] shapes@[i]),
        VariantKind::StructKind(fields) => forall|i: int| 0 <= i < fields@.len()
            ==> shape_wf((#[trigger] fields@[i]).1),
    }
}


/// Decoding is unambiguous: any two values that a handle decodes to under
/// one well-formed shape carry the same structural content. Together with
/// [`encode_value`]'s and [`decode_value`]'s contracts: decoding an
/// encoding reproduces the encoded value's structural content.
pub proof fn lemma_decode_is_unique(
    cells: Seq<StoreValue>,
    a: usize,
    s: Shape,
    v1: GarnishValue,
    v2: GarnishValue,
)
    requires
        shape_wf(s),
        decodes_to(cells, a, v1),
        decodes_to(cells, a, v2),
        shape_fits(s, v1),
        shape_fits(s, v2),
    ensures
        same_content(v1, v2),
    decreases s, 1int,
{
    match s {
        Shape::Optional(inner) => {
            match (v1, v2) {
                (GarnishValue::Present(x), GarnishValue::Present(y)) => {
                    assert(shape_wf(*inner));
                    assert(decodes_to(cells, a, *x) && decodes_to(cells, a, *y));
                    assert(shape_fits(*inner, *x) && shape_fits(*inner, *y));
                    lemma_decode_is_unique(cells, a, *inner, *x, *y);
                    assert(same_content(v1, v2));
                },
                (GarnishValue::Absent, GarnishValue::Absent) => {
                    assert(same_content(v1, v2));
                },
                _ => {
                    assert(cells[a as int] is Unit || !(cells[a as int] is Unit));
                    assert(same_content(v1, v2));
                },
            }
        },
        Shape::NewtypeStruct(_, inner) => {
            match (v1, v2) {
                (GarnishValue::NewtypeStruct(_, x), GarnishValue::NewtypeStruct(_, y)) => {
                    assert(shape_wf(*inner));
                    assert(decodes_to(cells, a, *x) && decodes_to(cells, a, *y));
                    assert(shape_fits(*inner, *x) && shape_fits(*inner, *y));
                    lemma_decode_is_unique(cells, a, *inner, *x, *y);
                    assert(same_content(v1, v2));
                },
                _ => {},
            }
        },
        Shape::Sequence(inner) => {
            match (v1, v2) {
                (GarnishValue::Sequence(xs), GarnishValue::Sequence(ys)) => {
                    assert(shape_wf(*inner));
                    let hs = resolved_items(cells, a as int).unwrap();
                    assert(items_decode_to(cells, resolved_items(cells, a as int), xs@));
                    assert(items_decode_to(cells, resolved_items(cells, a as int), ys@));
                    assert forall|i: int| 0 <= i < xs@.len()
                        implies shape_fits(*inner, #[trigger] xs@[i]) by {}
                    assert forall|i: int| 0 <= i < ys@.len()
                        implies shape_fits(*inner, #[trigger] ys@[i]) by {}
                    lemma_uniform_items_unique(cells, hs, *inner, xs@, ys@);
                    assert(same_content(v1, v2));
                },
                _ => {},
            }
        },
        Shape::Tuple(shapes) => {
            match (v1, v2) {
                (GarnishValue::Tuple(xs), GarnishValue::Tuple(ys)) => {
                    let hs = resolved_items(cells, a as int).unwrap();
                    assert(items_decode_to(cells, resolved_items(cells, a as int), xs@));
                    assert(items_decode_to(cells, resolved_items(cells, a as int), ys@));
                    lemma_shaped_items_unique(cells, hs, shapes@, xs@, ys@);
                    assert(same_content(v1, v2));
                },
                _ => {},
            }
        },
        Shape::TupleStruct(_, shapes) => {
            match (v1, v2) {
                (GarnishValue::TupleStruct(_, xs), GarnishValue::TupleStruct(_, ys)) => {
                    let hs = resolved_items(cells, a as int).unwrap();
                    assert(items_decode_to(cells, resolved_items(cells, a as int), xs@));
                    assert(items_decode_to(cells, resolved_items(cells, a as int), ys@));
                    lemma_shaped_items_unique(cells, hs, shapes@, xs@, ys@);
                    assert(same_content(v1, v2));
                },
                _ => {},
            }
        },
        Shape::MapOf(inner) => {
            match (v1, v2) {
                (GarnishValue::MapValue(xs), GarnishValue::MapValue(ys)) => {
                    assert(shape_wf(*inner));
                    let hs = resolved_items(cells, a as int).unwrap();
                    assert(entries_decode_to(cells, resolved_items(cells, a as int), xs@));
                    assert(entries_decode_to(cells, resolved_items(cells, a as int), ys@));
                    assert forall|i: int| 0 <= i < xs@.len() implies {
                        &&& (#[trigger] xs@[i]).0@ == ys@[i].0@
                        &&& same_content(xs@[i].1, ys@[i].1)
                    } by {
                        let e1 = xs@[i];
                        let e2 = ys@[i];
                        assert(pair_key_chars(cells, hs[i]) == Some(e1.0@));
                        assert(pair_key_chars(cells, hs[i]) == Some(e2.0@));
                        assert(decodes_to(cells, pair_value(cells, hs[i]), e1.1));
                        assert(decodes_to(cells, pair_value(cells, hs[i]), e2.1));
                        assert(shape_fits(*inner, e1.1) && shape_fits(*inner, e2.1));
                        lemma_decode_is_unique(cells, pair_value(cells, hs[i]), *inner,
                            e1.1, e2.1);
                    }
                    assert(same_entries(xs@, ys@));
                    assert(same_content(v1, v2));
                },
                _ => {},
            }
        },
        Shape::StructOf(_, fields) => {
            match (v1, v2) {
                (GarnishValue::StructValue(_, xs), GarnishValue::StructValue(_, ys)) => {
                    let hs = resolved_items(cells, a as int).unwrap();
                    assert(fields_decode_to(cells, resolved_items(cells, a as int), xs@));
                    assert(fields_decode_to(cells, resolved_items(cells, a as int), ys@));
                    lemma_struct_fields_unique(cells, hs, fields@, xs@, ys@);
                    assert(same_content(v1, v2));
                },
                _ => {},
            }
        },
        Shape::EnumOf(_, variants) => {
            lemma_enum_unique(cells, a, s, variants@, v1, v2);
        },
        _ => {
            assert(same_content(v1, v2));
        },
    }
}

proof fn lemma_uniform_items_unique(
    cells: Seq<StoreValue>,
    hs: Seq<usize>,
    inner: Shape,
    xs: Seq<GarnishValue>,
    ys: Seq<GarnishValue>,
)
    requires
        shape_wf(inner),
        xs.len() == hs.len(),
        ys.len() == hs.len(),
        forall|i: int| 0 <= i < xs.len() ==> decodes_to(cells, hs[i], #[trigger] xs[i]),
        forall|i: int| 0 <= i < ys.len() ==> decodes_to(cells, hs[i], #[trigger] ys[i]),
        forall|i: int| 0 <= i < xs.len() ==> shape_fits(inner, #[trigger] xs[i]),
        forall|i: int| 0 <= i < ys.len() ==> shape_fits(inner, #[trigger] ys[i]),
    ensures
        same_items(xs, ys),
    decreases inner, 2int,
{
    assert forall|i: int| 0 <= i < xs.len()
        implies same_content(#[trigger] xs[i], ys[i]) by {
        lemma_decode_is_unique(cells, hs[i], inner, xs[i], ys[i]);
    }
}

proof fn lemma_shaped_items_unique(
    cells: Seq<StoreValue>,
    hs: Seq<usize>,
    shapes: Seq<Shape>,
    xs: Seq<GarnishValue>,
    ys: Seq<GarnishValue>,
)
    requires
        forall|i: int| 0 <= i < shapes.len() ==> shape_wf(#[trigger] shapes[i]),
        xs.len() == hs.len(),
        ys.len() == hs.len(),
        xs.len() == shapes.len(),
        forall|i: int| 0 <= i < xs.len() ==> decodes_to(cells, hs[i], #[trigger] xs[i]),
        forall|i: int| 0 <= i < ys.len() ==> decodes_to(cells, hs[i], #[trigger] ys[i]),
        forall|i: int| 0 <= i < xs.len() ==> shape_fits(shapes[i], #[trigger] xs[i]),
        forall|i: int| 0 <= i < ys.len() ==> shape_fits(shapes[i], #[trigger] ys[i]),
    ensures
        same_items(xs, ys),
    decreases shapes, 2int,
{
    assert forall|i: int| 0 <= i < xs.len()
        implies same_content(#[trigger] xs[i], ys[i]) by {
        lemma_decode_is_unique(cells, hs[i], shapes[i], xs[i], ys[i]);
    }
}

proof fn lemma_struct_fields_unique(
    cells: Seq<StoreValue>,
    hs: Seq<usize>,
    fields: Seq<(Vec<char>, Shape)>,
    xs: Seq<(Vec<char>, GarnishValue)>,
    ys: Seq<(Vec<char>, GarnishValue)>,
)
    requires
        forall|i: int| 0 <= i < fields.len() ==> shape_wf((#[trigger] fields[i]).1),
        xs.len() == fields.len(),
        ys.len() == fields.len(),
        forall|i: int| 0 <= i < xs.len() ==> (#[trigger] xs[i]).0@ == fields[i].0@,
        forall|i: int| 0 <= i < ys.len() ==> (#[trigger] ys[i]).0@ == fields[i].0@,
        forall|i: int| 0 <= i < xs.len() ==> {
            match find_key(cells, hs, (#[trigger] xs[i]).0@) {
                Some(j) => decodes_to(cells, pair_value(cells, hs[j]), xs[i].1),
                None => false,
            }
        },
        forall|i: int| 0 <= i < ys.len() ==> {
            match find_key(cells, hs, (#[trigger] ys[i]).0@) {
                Some(j) => decodes_to(cells, pair_value(cells, hs[j]), ys[i].1),
                None => false,
            }
        },
        forall|i: int| 0 <= i < xs.len() ==> shape_fits(fields[i].1, (#[trigger] xs[i]).1),
        forall|i: int| 0 <= i < ys.len() ==> shape_fits(fields[i].1, (#[trigger] ys[i]).1),
    ensures
        same_entries(xs, ys),
    decreases fields, 2int,
{
    assert forall|i: int| 0 <= i < xs.len() implies {
        &&& (#[trigger] xs[i]).0@ == ys[i].0@
        &&& same_content(xs[i].1, ys[i].1)
    } by {
        let e1 = xs[i];
        let e2 = ys[i];
        let fd = fields[i];
        assert(e1.0@ == fd.0@ && e2.0@ == fd.0@);
        assert(match find_key(cells, hs, e1.0@) {
            Some(j) => decodes_to(cells, pair_value(cells, hs[j]), e1.1),
            None => false,
        });
        assert(match find_key(cells, hs, e2.0@) {
            Some(j) => decodes_to(cells, pair_value(cells, hs[j]), e2.1),
            None => false,
        });
        assert(shape_fits(fd.1, e1.1) && shape_fits(fd.1, e2.1));
        match find_key(cells, hs, fd.0@) {
            Some(j) => {
                lemma_decode_is_unique(cells, pair_value(cells, hs[j]), fd.1, e1.1, e2.1);
            },
            None => {
                assert(false);
            },
        }
    }
}

proof fn lemma_enum_unique(
    cells: Seq<StoreValue>,
    a: usize,
    s: Shape,
    variants: Seq<VariantShape>,
    v1: GarnishValue,
    v2: GarnishValue,
)
    requires
        shape_wf(s),
        (s matches Shape::EnumOf(n2, v2s) && v2s@ == variants),
        decodes_to(cells, a, v1),
        decodes_to(cells, a, v2),
        shape_fits(s, v1),
        shape_fits(s, v2),
    ensures
        same_content(v1, v2),
    decreases variants, 3int,
{
    // The two values read the same discriminant, so they name the same
    // variant.
    if cells[a as int] is Symbol {
        assert(v1 is UnitVariant && v2 is UnitVariant);
    } else {
        assert(!(v1 is UnitVariant) && !(v2 is UnitVariant));
    }
    assert(enum_variant_name(v1) == enum_variant_name(v2));
    let u = enum_variant_name(v1);
    // Each value's shape witness carries its kind; distinct names make the
    // witness unique, so the kinds agree.
    let k1 = choose|k: int| 0 <= k < variants.len()
        && (#[trigger] variants[k]).name@ == u && enum_witness(variants[k], v1);
    let k2 = choose|k: int| 0 <= k < variants.len()
        && (#[trigger] variants[k]).name@ == u && enum_witness(variants[k], v2);
    assert(0 <= k1 < variants.len() && variants[k1].name@ == u
        && enum_witness(variants[k1], v1)) by {
        lemma_enum_witness(variants, v1);
    }
    assert(0 <= k2 < variants.len() && variants[k2].name@ == u
        && enum_witness(variants[k2], v2)) by {
        lemma_enum_witness(variants, v2);
    }
    assert(k1 == k2) by {
        if k1 < k2 {
            assert(variants[k1].name@ != variants[k2].name@);
        }
        if k2 < k1 {
            assert(variants[k2].name@ != variants[k1].name@);
        }
    }
    match variants[k1].kind {
        VariantKind::UnitKind => {
            assert(v1 is UnitVariant && v2 is UnitVariant);
            assert(same_content(v1, v2));
        },
        VariantKind::NewtypeKind(inner) => {
            assert(variant_kind_wf(variants[k1].kind));
            assert(shape_wf(*inner));
            match (v1, v2) {
                (GarnishValue::NewtypeVariant(_, _, _, x),
                    GarnishValue::NewtypeVariant(_, _, _, y)) => {
                    let p = variant_list(cells, a).unwrap();
                    assert(decodes_to(cells, p.1, *x) && decodes_to(cells, p.1, *y));
                    assert(shape_fits(*inner, *x) && shape_fits(*inner, *y));
                    lemma_decode_is_unique(cells, p.1, *inner, *x, *y);
                    assert(same_content(v1, v2));
                },
                _ => {
                    assert(false);
                },
            }
        },
        VariantKind::TupleKind(shapes) => {
            assert(variant_kind_wf(variants[k1].kind));
            match (v1, v2) {
                (GarnishValue::TupleVariant(_, _, _, xs),
                    GarnishValue::TupleVariant(_, _, _, ys)) => {
                    let p = variant_list(cells, a).unwrap();
                    let hs = resolved_items(cells, p.1 as int).unwrap();
                    assert(items_decode_to(cells, resolved_items(cells, p.1 as int), xs@));
                    assert(items_decode_to(cells, resolved_items(cells, p.1 as int), ys@));
                    lemma_shaped_items_unique(cells, hs, shapes@, xs@, ys@);
                    assert(same_content(v1, v2));
                },
                _ => {
                    assert(false);
                },
            }
        },
        VariantKind::StructKind(fields) => {
            assert(variant_kind_wf(variants[k1].kind));
            match (v1, v2) {
                (GarnishValue::StructVariant(_, _, _, xs),
                    GarnishValue::StructVariant(_, _, _, ys)) => {
                    let p = variant_list(cells, a).unwrap();
                    let hs = resolved_items(cells, p.1 as int).unwrap();
                    assert(fields_decode_to(cells, resolved_items(cells, p.1 as int), xs@));
                    assert(fields_decode_to(cells, resolved_items(cells, p.1 as int), ys@));
                    lemma_struct_fields_unique(cells, hs, fields@, xs@, ys@);
                    assert(same_content(v1, v2));
                },
                _ => {
                    assert(false);
                },
            }
        },
    }
}

/// The variant shape stands witness for the decoded value: same name and
/// index, and its kind matches the value's constructor and payload shape.
pub open spec fn enum_witness(vs: VariantShape, v: GarnishValue) -> bool {
    match v {
        GarnishValue::UnitVariant(_, idx, var) => vs.name@ == var@ && vs.index == idx
            && vs.kind is UnitKind,
        GarnishValue::NewtypeVariant(_, idx, var, w) => vs.name@ == var@ && vs.index == idx
            && match vs.kind {
                VariantKind::NewtypeKind(inner) => shape_fits(*inner, *w),
                _ => false,
            },
        GarnishValue::TupleVariant(_, idx, var, items) => vs.name@ == var@ && vs.index == idx
            && match vs.kind {
                VariantKind::TupleKind(shapes) => items@.len() == shapes@.len()
                    && forall|i: int| 0 <= i < items@.len()
                        ==> shape_fits(shapes@[i], #[trigger] items@[i]),
                _ => false,
            },
        GarnishValue::StructVariant(_, idx, var, fvs) => vs.name@ == var@ && vs.index == idx
            && match vs.kind {
                VariantKind::StructKind(fields) => fvs@.len() == fields@.len()
                    && forall|i: int| 0 <= i < fvs@.len() ==> {
                        &&& (#[trigger] fvs@[i]).0@ == fields@[i].0@
                        &&& shape_fits(fields@[i].1, fvs@[i].1)
                    },
                _ => false,
            },
        _ => false,
    }
}

/// A fitting enum value has a witness among the shape's variants.
proof fn lemma_enum_witness(variants: Seq<VariantShape>, v: GarnishValue)
    requires
        exists|s: Shape| (#[trigger] shape_fits(s, v)) && (s matches Shape::EnumOf(n2, vs2)
            && vs2@ == variants),
        v is UnitVariant || v is NewtypeVariant || v is TupleVariant || v is StructVariant,
    ensures
        exists|k: int| 0 <= k < variants.len()
            && (#[trigger] variants[k]).name@ == enum_variant_name(v)
            && enum_witness(variants[k], v),
{
    let s = choose|s: Shape| (#[trigger] shape_fits(s, v))
        && (s matches Shape::EnumOf(n2, vs2) && vs2@ == variants);
    match v {
        GarnishValue::UnitVariant(_, idx, var) => {
            let k = choose|k: int| 0 <= k < variants.len()
                && (#[trigger] variants[k]).name@ == var@
                && variants[k].index == idx
                && variants[k].kind is UnitKind;
            assert(enum_witness(variants[k], v));
            assert(variants[k].name@ == enum_variant_name(v));
        },
        GarnishValue::NewtypeVariant(_, idx, var, w) => {
            let k = choose|k: int| 0 <= k < variants.len()
                && (#[trigger] variants[k]).name@ == var@
                && variants[k].index == idx
                && match variants[k].kind {
                    VariantKind::NewtypeKind(inner) => shape_fits(*inner, *w),
                    _ => false,
                };
            assert(enum_witness(variants[k], v));
            assert(variants[k].name@ == enum_variant_name(v));
        },
        GarnishValue::TupleVariant(_, idx, var, items) => {
            let k = choose|k: int| 0 <= k < variants.len()
                && (#[trigger] variants[k]).name@ == var@
                && variants[k].index == idx
                && match variants[k].kind {
                    VariantKind::TupleKind(shapes) => items@.len() == shapes@.len()
                        && forall|i: int| 0 <= i < items@.len()
                            ==> shape_fits(shapes@[i], #[trigger] items@[i]),
                    _ => false,
                };
            assert(enum_witness(variants[k], v));
            assert(variants[k].name@ == enum_variant_name(v));
        },
        GarnishValue::StructVariant(_, idx, var, fvs) => {
            let k = choose|k: int| 0 <= k < variants.len()
                && (#[trigger] variants[k]).name@ == var@
                && variants[k].index == idx
                && match variants[k].kind {
                    VariantKind::StructKind(fields) => fvs@.len() == fields@.len()
                        && forall|i: int| 0 <= i < fvs@.len() ==> {
                            &&& (#[trigger] fvs@[i]).0@ == fields@[i].0@
                            &&& shape_fits(fields@[i].1, fvs@[i].1)
                        },
                    _ => false,
                };
            assert(enum_witness(variants[k], v));
            assert(variants[k].name@ == enum_variant_name(v));
        },
        _ => {},
    }
}

/// The variant name a decoded enum value carries.
pub open spec fn enum_variant_name(v: GarnishValue) -> Seq<char> {
    match v {
        GarnishValue::UnitVariant(_, _, u) => u@,
        GarnishValue::NewtypeVariant(_, _, u, _) => u@,
        GarnishValue::TupleVariant(_, _, u, _) => u@,
        GarnishValue::StructVariant(_, _, u, _) => u@,
        _ => Seq::empty(),
    }
}

} // verus!
