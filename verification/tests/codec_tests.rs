use std::collections::HashMap;

use garnish_codec::codec::{encode_value, GarnishValue};
use garnish_codec::deserializer::{gather_concat_items, GarnishDataDeserializer, ListAccessor};
use garnish_codec::error::GarnishSerializationError;
use garnish_codec::number::Scalar;
use garnish_codec::options::{
    GarnishSerializationOptions, OptionalBehavior, StructBehavior,
};
use garnish_codec::serializer::GarnishDataSerializer;
use garnish_codec::store::{Store, StoreValue};

fn chars(s: &str) -> Vec<char> {
    s.chars().collect()
}

fn text(cs: Vec<char>) -> String {
    cs.into_iter().collect()
}

/// Encodes a structured value under the given options and opens a decode
/// session focused on the produced handle.
fn encode_then_focus(
    v: GarnishValue,
    opts: GarnishSerializationOptions,
) -> GarnishDataDeserializer {
    let mut ser = GarnishDataSerializer::new_with_options(Store::new(), opts);
    let h = encode_value(&mut ser, &v).unwrap();
    GarnishDataDeserializer::new_for_value(ser.into_data(), h)
}

fn defaults() -> GarnishSerializationOptions {
    GarnishSerializationOptions::new()
}

fn decode_i32_items(d: &mut GarnishDataDeserializer) -> Vec<i32> {
    let mut acc = ListAccessor::new(d).unwrap();
    let mut out = Vec::new();
    while let Some(item) = acc.next_item() {
        d.push_focus(item).unwrap();
        out.push(d.deserialize_i32().unwrap());
        d.pop_focus();
    }
    out
}

fn decode_i32_fields(d: &mut GarnishDataDeserializer) -> HashMap<String, i32> {
    let mut acc = ListAccessor::new(d).unwrap();
    let mut out = HashMap::new();
    while let Some(item) = acc.next_item() {
        let (key, value) = d.data().get_pair(item).unwrap();
        d.push_focus(key).unwrap();
        let name = text(d.deserialize_string().unwrap());
        d.pop_focus();
        d.push_focus(value).unwrap();
        if let Ok(n) = d.deserialize_i32() {
            out.insert(name, n);
        }
        d.pop_focus();
    }
    out
}

#[test]
fn round_trip_bool() {
    let d = encode_then_focus(GarnishValue::Bool(true), defaults());
    assert_eq!(d.deserialize_bool().unwrap(), true);
}

#[test]
fn round_trip_integer() {
    let d = encode_then_focus(GarnishValue::Integer(-77), defaults());
    assert_eq!(d.deserialize_i32().unwrap(), -77);
}

#[test]
fn round_trip_float_bits() {
    let d = encode_then_focus(GarnishValue::FloatBits(2.5f64.to_bits()), defaults());
    match d.deserialize_number().unwrap() {
        Scalar::FloatBits(bits) => assert_eq!(f64::from_bits(bits), 2.5),
        other => panic!("expected a float scalar, found {:?}", other),
    }
}

#[test]
fn round_trip_char() {
    let d = encode_then_focus(GarnishValue::Character('q'), defaults());
    assert_eq!(d.deserialize_char().unwrap(), 'q');
}

#[test]
fn round_trip_text() {
    let mut d = encode_then_focus(GarnishValue::Text(chars("hello")), defaults());
    assert_eq!(text(d.deserialize_string().unwrap()), String::from("hello"));
}

#[test]
fn round_trip_bytes() {
    let d = encode_then_focus(GarnishValue::Bytes(vec![9, 8, 7]), defaults());
    assert_eq!(d.deserialize_byte_buf().unwrap(), vec![9, 8, 7]);
}

#[test]
fn round_trip_sequence() {
    let mut d = encode_then_focus(
        GarnishValue::Sequence(vec![
            GarnishValue::Integer(100),
            GarnishValue::Integer(200),
            GarnishValue::Integer(300),
        ]),
        defaults(),
    );
    assert_eq!(decode_i32_items(&mut d), vec![100, 200, 300]);
}

#[test]
fn round_trip_tuple() {
    let mut d = encode_then_focus(
        GarnishValue::Tuple(vec![
            GarnishValue::Integer(1),
            GarnishValue::Integer(2),
            GarnishValue::Integer(3),
        ]),
        defaults(),
    );
    let mut acc = d.deserialize_tuple(3).unwrap();
    let mut out = Vec::new();
    while let Some(item) = acc.next_item() {
        d.push_focus(item).unwrap();
        out.push(d.deserialize_i32().unwrap());
        d.pop_focus();
    }
    assert_eq!(out, vec![1, 2, 3]);
}

#[test]
fn round_trip_map() {
    let mut d = encode_then_focus(
        GarnishValue::MapValue(vec![
            (chars("one"), GarnishValue::Integer(100)),
            (chars("two"), GarnishValue::Integer(200)),
        ]),
        defaults(),
    );
    let fields = decode_i32_fields(&mut d);
    assert_eq!(fields["one"], 100);
    assert_eq!(fields["two"], 200);
    assert_eq!(fields.len(), 2);
}

#[test]
fn round_trip_struct_under_every_typing_policy() {
    for typing in [StructBehavior::ExcludeTyping, StructBehavior::IncludeTyping] {
        let mut d = encode_then_focus(
            GarnishValue::StructValue(
                chars("MyStruct"),
                vec![
                    (chars("one"), GarnishValue::Integer(100)),
                    (chars("two"), GarnishValue::Integer(200)),
                    (chars("three"), GarnishValue::Integer(300)),
                ],
            ),
            defaults().struct_typing_behavior(typing),
        );
        let fields = decode_i32_fields(&mut d);
        assert_eq!(fields["one"], 100);
        assert_eq!(fields["two"], 200);
        assert_eq!(fields["three"], 300);
    }
}

#[test]
fn round_trip_unit_variant() {
    let mut d = encode_then_focus(
        GarnishValue::UnitVariant(chars("MyEnum"), 2, chars("Value1")),
        defaults(),
    );
    assert_eq!(text(d.variant_seed().unwrap()), String::from("Value1"));
}

#[test]
fn round_trip_newtype_variant() {
    let mut d = encode_then_focus(
        GarnishValue::NewtypeVariant(
            chars("MyEnum"),
            1,
            chars("Holder"),
            Box::new(GarnishValue::Integer(42)),
        ),
        defaults(),
    );
    assert_eq!(text(d.variant_seed().unwrap()), String::from("Holder"));
    assert_eq!(d.deserialize_i32().unwrap(), 42);
}

#[test]
fn round_trip_tuple_variant() {
    let mut d = encode_then_focus(
        GarnishValue::TupleVariant(
            chars("MyEnum"),
            3,
            chars("Coords"),
            vec![GarnishValue::Integer(7), GarnishValue::Integer(9)],
        ),
        defaults(),
    );
    assert_eq!(text(d.variant_seed().unwrap()), String::from("Coords"));
    let mut acc = d.deserialize_tuple(2).unwrap();
    let mut out = Vec::new();
    while let Some(item) = acc.next_item() {
        d.push_focus(item).unwrap();
        out.push(d.deserialize_i32().unwrap());
        d.pop_focus();
    }
    assert_eq!(out, vec![7, 9]);
}

#[test]
fn round_trip_struct_variant() {
    let mut d = encode_then_focus(
        GarnishValue::StructVariant(
            chars("MyEnum"),
            0,
            chars("MyStruct"),
            vec![
                (chars("one"), GarnishValue::Integer(100)),
                (chars("two"), GarnishValue::Integer(200)),
            ],
        ),
        defaults(),
    );
    assert_eq!(text(d.variant_seed().unwrap()), String::from("MyStruct"));
    let fields = decode_i32_fields(&mut d);
    assert_eq!(fields["one"], 100);
    assert_eq!(fields["two"], 200);
}

#[test]
fn round_trip_nested_value() {
    let mut d = encode_then_focus(
        GarnishValue::Sequence(vec![
            GarnishValue::Sequence(vec![
                GarnishValue::Integer(1),
                GarnishValue::Integer(2),
            ]),
            GarnishValue::Sequence(vec![GarnishValue::Integer(3)]),
        ]),
        defaults(),
    );
    let mut acc = ListAccessor::new(&d).unwrap();
    let mut out = Vec::new();
    while let Some(item) = acc.next_item() {
        d.push_focus(item).unwrap();
        out.push(decode_i32_items(&mut d));
        d.pop_focus();
    }
    assert_eq!(out, vec![vec![1, 2], vec![3]]);
}

#[test]
fn optional_absent_encodes_as_unit_and_decodes_as_absence() {
    let d = encode_then_focus(GarnishValue::Absent, defaults());
    assert!(!d.deserialize_option().unwrap());
}

#[test]
fn optional_present_encodes_bare_and_decodes_as_presence() {
    let d = encode_then_focus(
        GarnishValue::Present(Box::new(GarnishValue::Integer(100))),
        defaults(),
    );
    assert!(d.deserialize_option().unwrap());
    assert_eq!(d.deserialize_i32().unwrap(), 100);
}

#[test]
fn optional_symbol_policy_writes_tagged_pairs() {
    let d = encode_then_focus(
        GarnishValue::Absent,
        defaults().optional_behavior(OptionalBehavior::UnitSymbol),
    );
    let (t, a) = d.value().unwrap();
    assert_eq!(t, garnish_codec::store::GarnishDataType::Pair);
    let (k, v) = d.data().get_pair(a).unwrap();
    match d.data().get_cell(k).unwrap() {
        StoreValue::Symbol(cs) => assert_eq!(cs.clone(), chars("none")),
        other => panic!("expected a symbol, found {:?}", other),
    }
    assert_eq!(d.data().get_cell(v).unwrap(), &StoreValue::Unit);
}

#[test]
fn encoded_sequence_is_a_list_of_numbers_in_order() {
    let mut ser = GarnishDataSerializer::new(Store::new());
    let h = encode_value(
        &mut ser,
        &GarnishValue::Sequence(vec![
            GarnishValue::Integer(100),
            GarnishValue::Integer(200),
            GarnishValue::Integer(300),
        ]),
    )
    .unwrap();
    let data = ser.into_data();
    assert_eq!(data.get_list_len(h).unwrap(), 3);
    for (i, n) in [100i128, 200, 300].iter().enumerate() {
        let item = data.get_list_item(h, i).unwrap();
        assert_eq!(data.get_number(item).unwrap(), Scalar::Integer(*n));
    }
}

#[test]
fn slicing_an_encoded_sequence_then_decoding_gives_the_window() {
    let mut ser = GarnishDataSerializer::new(Store::new());
    let h = encode_value(
        &mut ser,
        &GarnishValue::Sequence(vec![
            GarnishValue::Integer(100),
            GarnishValue::Integer(200),
            GarnishValue::Integer(300),
        ]),
    )
    .unwrap();
    let mut data = ser.into_data();
    let start = data.add_number(Scalar::Integer(1));
    let end = data.add_number(Scalar::Integer(2));
    let range = data.add_range(start, end);
    let slice = data.add_slice(h, range);
    let mut d = GarnishDataDeserializer::new_for_value(data, slice);
    assert_eq!(decode_i32_items(&mut d), vec![200, 300]);
}

#[test]
fn type_tagged_struct_carries_a_trailing_metadata_pair() {
    let mut ser = GarnishDataSerializer::new_with_options(
        Store::new(),
        defaults().struct_typing_behavior(StructBehavior::IncludeTyping),
    );
    let h = encode_value(
        &mut ser,
        &GarnishValue::StructValue(
            chars("MyStruct"),
            vec![
                (chars("one"), GarnishValue::Integer(100)),
                (chars("two"), GarnishValue::Integer(200)),
                (chars("three"), GarnishValue::Integer(300)),
            ],
        ),
    )
    .unwrap();
    let data = ser.into_data();
    assert_eq!(data.get_list_len(h).unwrap(), 4);
    let trailing = data.get_list_item(h, 3).unwrap();
    let (k, v) = data.get_pair(trailing).unwrap();
    match data.get_cell(k).unwrap() {
        StoreValue::Symbol(cs) => assert_eq!(cs.clone(), chars("@meta")),
        other => panic!("expected the metadata symbol, found {:?}", other),
    }
    match data.get_cell(v).unwrap() {
        StoreValue::Symbol(cs) => assert_eq!(cs.clone(), chars("MyStruct")),
        other => panic!("expected the type-name symbol, found {:?}", other),
    }
}

#[test]
fn flatten_orders_left_and_right_nesting_identically() {
    let mut data = Store::new();
    let a = data.add_number(Scalar::Integer(1));
    let b = data.add_number(Scalar::Integer(2));
    let c = data.add_number(Scalar::Integer(3));
    let left = data.add_concatenation(a, b);
    let left_nested = data.add_concatenation(left, c);
    let right = data.add_concatenation(b, c);
    let right_nested = data.add_concatenation(a, right);
    assert_eq!(gather_concat_items(left_nested, &data).unwrap(), vec![a, b, c]);
    assert_eq!(gather_concat_items(right_nested, &data).unwrap(), vec![a, b, c]);
}

fn sliced_list_items(start: i128, end: i128) -> Vec<i32> {
    let mut data = Store::new();
    let mut handles = Vec::new();
    for n in [10i128, 20, 30] {
        handles.push(data.add_number(Scalar::Integer(n)));
    }
    data.start_list(3);
    for h in &handles {
        data.add_to_list(*h, false);
    }
    let list = data.end_list();
    let s = data.add_number(Scalar::Integer(start));
    let e = data.add_number(Scalar::Integer(end));
    let range = data.add_range(s, e);
    let slice = data.add_slice(list, range);
    let mut d = GarnishDataDeserializer::new_for_value(data, slice);
    decode_i32_items(&mut d)
}

fn sliced_concat_items(start: i128, end: i128) -> Vec<i32> {
    let mut data = Store::new();
    let a = data.add_number(Scalar::Integer(10));
    let b = data.add_number(Scalar::Integer(20));
    let c = data.add_number(Scalar::Integer(30));
    let cat1 = data.add_concatenation(a, b);
    let cat2 = data.add_concatenation(cat1, c);
    let s = data.add_number(Scalar::Integer(start));
    let e = data.add_number(Scalar::Integer(end));
    let range = data.add_range(s, e);
    let slice = data.add_slice(cat2, range);
    let mut d = GarnishDataDeserializer::new_for_value(data, slice);
    decode_i32_items(&mut d)
}

#[test]
fn slice_windows_are_inclusive_and_a_backwards_range_is_empty() {
    assert_eq!(sliced_list_items(1, 2), vec![20, 30]);
    assert_eq!(sliced_list_items(1, 1), vec![20]);
    assert_eq!(sliced_list_items(1, 0), Vec::<i32>::new());
}

#[test]
fn slicing_an_equal_content_concatenation_behaves_identically() {
    assert_eq!(sliced_concat_items(1, 2), sliced_list_items(1, 2));
    assert_eq!(sliced_concat_items(1, 1), sliced_list_items(1, 1));
    assert_eq!(sliced_concat_items(1, 0), sliced_list_items(1, 0));
}

#[test]
fn tag_mismatch_reports_a_descriptive_message() {
    let mut data = Store::new();
    let n = data.add_number(Scalar::Integer(5));
    let d = GarnishDataDeserializer::new_for_value(data, n);
    let e: GarnishSerializationError = d.deserialize_bool().unwrap_err();
    assert!(e.message().is_some());
    assert!(e.error().is_none());
}

#[test]
fn store_failures_are_wrapped() {
    let data = Store::new();
    let d = GarnishDataDeserializer::new(data);
    let e = d.deserialize_bool().unwrap_err();
    assert!(e.error().is_some() || e.message().is_some());
}

#[test]
fn missing_separator_in_discriminant_is_a_hard_error() {
    let mut d = {
        let mut data = Store::new();
        let sym = data.parse_add_symbol(&chars("BareVariant"));
        GarnishDataDeserializer::new_for_value(data, sym)
    };
    let e = d.variant_seed().unwrap_err();
    assert!(e.message().is_some());
}

#[test]
fn out_of_range_number_is_rejected_not_truncated() {
    let mut data = Store::new();
    let n = data.add_number(Scalar::Integer(300));
    let d = GarnishDataDeserializer::new_for_value(data, n);
    assert!(d.deserialize_u8().is_err());
    assert_eq!(d.deserialize_u16().unwrap(), 300u16);
}

#[test]
fn scalar_conversions_round_trip() {
    assert_eq!(Scalar::from_i8(-5).to_i8(), Some(-5));
    assert_eq!(Scalar::from_u64(u64::MAX).to_u64(), Some(u64::MAX));
    assert_eq!(Scalar::from_i64(i64::MIN).to_i64(), Some(i64::MIN));
    assert_eq!(Scalar::from_u8(255).to_u8(), Some(255));
    assert_eq!(Scalar::from_u64(300).to_u8(), None);
    assert_eq!(Scalar::from_float_bits(1.5f64.to_bits()).to_float_bits(),
        Some(1.5f64.to_bits()));
}

#[test]
fn map_keys_coerce_to_symbols() {
    let mut ser = GarnishDataSerializer::new(Store::new());
    ser.serialize_map(Some(1)).unwrap();
    let key = ser.serialize_char('k').unwrap();
    ser.serialize_key(key).unwrap();
    let value = ser.serialize_i32(1).unwrap();
    ser.serialize_value(value).unwrap();
    let addr = ser.end().unwrap();
    let data = ser.into_data();
    let entry = data.get_list_item(addr, 0).unwrap();
    let (k, _v) = data.get_pair(entry).unwrap();
    match data.get_cell(k).unwrap() {
        StoreValue::Symbol(cs) => assert_eq!(cs.clone(), chars("k")),
        other => panic!("expected a symbol key, found {:?}", other),
    }
}

#[test]
fn map_value_without_key_is_an_error() {
    let mut ser = GarnishDataSerializer::new(Store::new());
    ser.serialize_map(Some(1)).unwrap();
    let value = ser.serialize_i32(1).unwrap();
    assert!(ser.serialize_value(value).is_err());
}

#[test]
fn associative_flags_are_written_but_not_consulted_by_decode() {
    let mut data = Store::new();
    let sym = data.parse_add_symbol(&chars("one"));
    let num = data.add_number(Scalar::Integer(100));
    let p = data.add_pair(sym, num);
    data.start_list(1);
    data.add_to_list(p, false);
    let list = data.end_list();
    assert_eq!(data.get_list_association(list, 0).unwrap(), false);
    let mut d = GarnishDataDeserializer::new_for_value(data, list);
    let fields = decode_i32_fields(&mut d);
    assert_eq!(fields["one"], 100);
}

use garnish_codec::codec::{decode_value, Shape, VariantKind, VariantShape};

fn shaped_round_trip(v: GarnishValue, shape: Shape, opts: GarnishSerializationOptions)
    -> GarnishValue {
    let mut ser = GarnishDataSerializer::new_with_options(Store::new(), opts);
    let h = encode_value(&mut ser, &v).unwrap();
    let mut d = GarnishDataDeserializer::new_for_value(ser.into_data(), h);
    decode_value(&mut d, &shape).unwrap()
}

#[test]
fn shaped_round_trip_primitives() {
    assert!(matches!(
        shaped_round_trip(GarnishValue::Bool(true), Shape::Bool, defaults()),
        GarnishValue::Bool(true),
    ));
    assert!(matches!(
        shaped_round_trip(GarnishValue::Integer(-9), Shape::Integer, defaults()),
        GarnishValue::Integer(-9),
    ));
    assert!(matches!(
        shaped_round_trip(GarnishValue::Character('z'), Shape::Character, defaults()),
        GarnishValue::Character('z'),
    ));
    match shaped_round_trip(GarnishValue::Text(chars("ok")), Shape::Text, defaults()) {
        GarnishValue::Text(cs) => assert_eq!(cs, chars("ok")),
        other => panic!("expected text, found {:?}", other),
    }
    match shaped_round_trip(GarnishValue::Bytes(vec![1, 2]), Shape::Bytes, defaults()) {
        GarnishValue::Bytes(bs) => assert_eq!(bs, vec![1, 2]),
        other => panic!("expected bytes, found {:?}", other),
    }
    assert!(matches!(
        shaped_round_trip(GarnishValue::Unit, Shape::Unit, defaults()),
        GarnishValue::Unit,
    ));
}

#[test]
fn shaped_round_trip_optional() {
    assert!(matches!(
        shaped_round_trip(
            GarnishValue::Absent,
            Shape::Optional(Box::new(Shape::Integer)),
            defaults(),
        ),
        GarnishValue::Absent,
    ));
    match shaped_round_trip(
        GarnishValue::Present(Box::new(GarnishValue::Integer(100))),
        Shape::Optional(Box::new(Shape::Integer)),
        defaults(),
    ) {
        GarnishValue::Present(inner) => assert!(matches!(*inner, GarnishValue::Integer(100))),
        other => panic!("expected presence, found {:?}", other),
    }
}

#[test]
fn shaped_round_trip_sequence_and_tuple() {
    match shaped_round_trip(
        GarnishValue::Sequence(vec![GarnishValue::Integer(1), GarnishValue::Integer(2)]),
        Shape::Sequence(Box::new(Shape::Integer)),
        defaults(),
    ) {
        GarnishValue::Sequence(items) => {
            assert_eq!(items.len(), 2);
            assert!(matches!(items[0], GarnishValue::Integer(1)));
            assert!(matches!(items[1], GarnishValue::Integer(2)));
        },
        other => panic!("expected a sequence, found {:?}", other),
    }
    match shaped_round_trip(
        GarnishValue::Tuple(vec![GarnishValue::Bool(true), GarnishValue::Integer(7)]),
        Shape::Tuple(vec![Shape::Bool, Shape::Integer]),
        defaults(),
    ) {
        GarnishValue::Tuple(items) => {
            assert_eq!(items.len(), 2);
            assert!(matches!(items[0], GarnishValue::Bool(true)));
            assert!(matches!(items[1], GarnishValue::Integer(7)));
        },
        other => panic!("expected a tuple, found {:?}", other),
    }
}

#[test]
fn shaped_round_trip_struct_under_both_typing_policies() {
    for typing in [StructBehavior::ExcludeTyping, StructBehavior::IncludeTyping] {
        let v = GarnishValue::StructValue(
            chars("MyStruct"),
            vec![
                (chars("one"), GarnishValue::Integer(100)),
                (chars("two"), GarnishValue::Integer(200)),
            ],
        );
        let shape = Shape::StructOf(
            chars("MyStruct"),
            vec![(chars("one"), Shape::Integer), (chars("two"), Shape::Integer)],
        );
        match shaped_round_trip(v, shape, defaults().struct_typing_behavior(typing)) {
            GarnishValue::StructValue(name, fields) => {
                assert_eq!(name, chars("MyStruct"));
                assert_eq!(fields.len(), 2);
                assert_eq!(fields[0].0, chars("one"));
                assert!(matches!(fields[0].1, GarnishValue::Integer(100)));
                assert_eq!(fields[1].0, chars("two"));
                assert!(matches!(fields[1].1, GarnishValue::Integer(200)));
            },
            other => panic!("expected a struct, found {:?}", other),
        }
    }
}

#[test]
fn shaped_round_trip_map() {
    let v = GarnishValue::MapValue(vec![
        (chars("k1"), GarnishValue::Integer(1)),
        (chars("k2"), GarnishValue::Integer(2)),
    ]);
    match shaped_round_trip(v, Shape::MapOf(Box::new(Shape::Integer)), defaults()) {
        GarnishValue::MapValue(entries) => {
            assert_eq!(entries.len(), 2);
            assert_eq!(entries[0].0, chars("k1"));
            assert!(matches!(entries[0].1, GarnishValue::Integer(1)));
            assert_eq!(entries[1].0, chars("k2"));
            assert!(matches!(entries[1].1, GarnishValue::Integer(2)));
        },
        other => panic!("expected a map, found {:?}", other),
    }
}

fn my_enum_shape() -> Shape {
    Shape::EnumOf(
        chars("MyEnum"),
        vec![
            VariantShape { name: chars("A"), index: 0, kind: VariantKind::UnitKind },
            VariantShape {
                name: chars("B"),
                index: 1,
                kind: VariantKind::NewtypeKind(Box::new(Shape::Integer)),
            },
            VariantShape {
                name: chars("C"),
                index: 2,
                kind: VariantKind::TupleKind(vec![Shape::Integer, Shape::Integer]),
            },
            VariantShape {
                name: chars("D"),
                index: 3,
                kind: VariantKind::StructKind(vec![(chars("one"), Shape::Integer)]),
            },
        ],
    )
}

#[test]
fn shaped_round_trip_every_variant_kind() {
    match shaped_round_trip(
        GarnishValue::UnitVariant(chars("MyEnum"), 0, chars("A")),
        my_enum_shape(),
        defaults(),
    ) {
        GarnishValue::UnitVariant(name, idx, var) => {
            assert_eq!(name, chars("MyEnum"));
            assert_eq!(idx, 0);
            assert_eq!(var, chars("A"));
        },
        other => panic!("expected a unit variant, found {:?}", other),
    }
    match shaped_round_trip(
        GarnishValue::NewtypeVariant(chars("MyEnum"), 1, chars("B"),
            Box::new(GarnishValue::Integer(42))),
        my_enum_shape(),
        defaults(),
    ) {
        GarnishValue::NewtypeVariant(_, idx, var, inner) => {
            assert_eq!(idx, 1);
            assert_eq!(var, chars("B"));
            assert!(matches!(*inner, GarnishValue::Integer(42)));
        },
        other => panic!("expected a newtype variant, found {:?}", other),
    }
    match shaped_round_trip(
        GarnishValue::TupleVariant(chars("MyEnum"), 2, chars("C"),
            vec![GarnishValue::Integer(7), GarnishValue::Integer(9)]),
        my_enum_shape(),
        defaults(),
    ) {
        GarnishValue::TupleVariant(_, idx, var, items) => {
            assert_eq!(idx, 2);
            assert_eq!(var, chars("C"));
            assert_eq!(items.len(), 2);
        },
        other => panic!("expected a tuple variant, found {:?}", other),
    }
    match shaped_round_trip(
        GarnishValue::StructVariant(chars("MyEnum"), 3, chars("D"),
            vec![(chars("one"), GarnishValue::Integer(5))]),
        my_enum_shape(),
        defaults(),
    ) {
        GarnishValue::StructVariant(_, idx, var, fields) => {
            assert_eq!(idx, 3);
            assert_eq!(var, chars("D"));
            assert_eq!(fields.len(), 1);
            assert!(matches!(fields[0].1, GarnishValue::Integer(5)));
        },
        other => panic!("expected a struct variant, found {:?}", other),
    }
}

#[test]
fn shaped_decode_rejects_wrong_arity() {
    let mut ser = GarnishDataSerializer::new(Store::new());
    let h = encode_value(
        &mut ser,
        &GarnishValue::Tuple(vec![GarnishValue::Integer(1), GarnishValue::Integer(2)]),
    )
    .unwrap();
    let mut d = GarnishDataDeserializer::new_for_value(ser.into_data(), h);
    assert!(decode_value(&mut d, &Shape::Tuple(vec![
        Shape::Integer,
        Shape::Integer,
        Shape::Integer,
    ]))
    .is_err());
}
