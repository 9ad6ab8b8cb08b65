use garnish_codec::number::Scalar;
use garnish_codec::options::{
    GarnishSerializationOptions, OptionalBehavior, StructBehavior, VariantNameBehavior,
};
use garnish_codec::serializer::GarnishDataSerializer;
use garnish_codec::store::{Store, StoreValue};

fn chars(s: &str) -> Vec<char> {
    s.chars().collect()
}

fn new_serializer() -> GarnishDataSerializer {
    GarnishDataSerializer::new(Store::new())
}

fn cell(ser: &GarnishDataSerializer, addr: usize) -> StoreValue {
    ser.data().get_cell(addr).unwrap().clone()
}

fn assert_symbol(ser: &GarnishDataSerializer, addr: usize, name: &str) {
    match cell(ser, addr) {
        StoreValue::Symbol(cs) => assert_eq!(cs, chars(name)),
        other => panic!("expected a symbol, found {:?}", other),
    }
}

fn assert_integer(ser: &GarnishDataSerializer, addr: usize, n: i128) {
    assert_eq!(cell(ser, addr), StoreValue::Number(Scalar::Integer(n)));
}

fn list_items(ser: &GarnishDataSerializer, addr: usize) -> Vec<(usize, bool)> {
    match cell(ser, addr) {
        StoreValue::List(items) => items,
        other => panic!("expected a list, found {:?}", other),
    }
}

fn pair(ser: &GarnishDataSerializer, addr: usize) -> (usize, usize) {
    ser.data().get_pair(addr).unwrap()
}

#[test]
fn serialize_true() {
    let mut serializer = new_serializer();
    let addr = serializer.serialize_bool(true).unwrap();
    assert_eq!(cell(&serializer, addr), StoreValue::True);
}

#[test]
fn serialize_false() {
    let mut serializer = new_serializer();
    let addr = serializer.serialize_bool(false).unwrap();
    assert_eq!(cell(&serializer, addr), StoreValue::False);
}

#[test]
fn serialize_i8() {
    let mut serializer = new_serializer();
    let addr = serializer.serialize_i8(125).unwrap();
    assert_integer(&serializer, addr, 125);
}

#[test]
fn serialize_i16() {
    let mut serializer = new_serializer();
    let addr = serializer.serialize_i16(125).unwrap();
    assert_integer(&serializer, addr, 125);
}

#[test]
fn serialize_i32() {
    let mut serializer = new_serializer();
    let addr = serializer.serialize_i32(125).unwrap();
    assert_integer(&serializer, addr, 125);
}

#[test]
fn serialize_i64() {
    let mut serializer = new_serializer();
    let addr = serializer.serialize_i64(125).unwrap();
    assert_integer(&serializer, addr, 125);
}

#[test]
fn serialize_u8() {
    let mut serializer = new_serializer();
    let addr = serializer.serialize_u8(125).unwrap();
    assert_integer(&serializer, addr, 125);
}

#[test]
fn serialize_u16() {
    let mut serializer = new_serializer();
    let addr = serializer.serialize_u16(125).unwrap();
    assert_integer(&serializer, addr, 125);
}

#[test]
fn serialize_u32() {
    let mut serializer = new_serializer();
    let addr = serializer.serialize_u32(125).unwrap();
    assert_integer(&serializer, addr, 125);
}

#[test]
fn serialize_u64() {
    let mut serializer = new_serializer();
    let addr = serializer.serialize_u64(125).unwrap();
    assert_integer(&serializer, addr, 125);
}

#[test]
fn serialize_f32() {
    let mut serializer = new_serializer();
    let addr = serializer.serialize_float_bits((125.0f32 as f64).to_bits()).unwrap();
    match cell(&serializer, addr) {
        StoreValue::Number(Scalar::FloatBits(bits)) => {
            assert_eq!(f64::from_bits(bits), 125.0);
        },
        other => panic!("expected a float number, found {:?}", other),
    }
}

#[test]
fn serialize_f64() {
    let mut serializer = new_serializer();
    let addr = serializer.serialize_float_bits(125.0f64.to_bits()).unwrap();
    match cell(&serializer, addr) {
        StoreValue::Number(Scalar::FloatBits(bits)) => {
            assert_eq!(f64::from_bits(bits), 125.0);
        },
        other => panic!("expected a float number, found {:?}", other),
    }
}

#[test]
fn serialize_char() {
    let mut serializer = new_serializer();
    let addr = serializer.serialize_char('a').unwrap();
    assert_eq!(cell(&serializer, addr), StoreValue::Char('a'));
}

#[test]
fn serialize_str() {
    let mut serializer = new_serializer();
    let addr = serializer.serialize_str(&chars("abcd")).unwrap();
    assert_eq!(cell(&serializer, addr), StoreValue::CharList(chars("abcd")));
}

#[test]
fn serialize_byte() {
    let mut serializer = new_serializer();
    let addr = serializer.serialize_bytes(&vec![1, 2, 3, 4]).unwrap();
    assert_eq!(cell(&serializer, addr), StoreValue::ByteList(vec![1, 2, 3, 4]));
}

#[test]
fn serialize_none_symbol() {
    let mut serializer = GarnishDataSerializer::new_with_options(
        Store::new(),
        GarnishSerializationOptions::new().optional_behavior(OptionalBehavior::UnitSymbol),
    );
    let addr = serializer.serialize_none().unwrap();
    let (k, v) = pair(&serializer, addr);
    assert_symbol(&serializer, k, "none");
    assert_eq!(cell(&serializer, v), StoreValue::Unit);
}

#[test]
fn serialize_some_as_value_when_unit_symbol() {
    let mut serializer = GarnishDataSerializer::new_with_options(
        Store::new(),
        GarnishSerializationOptions::new().optional_behavior(OptionalBehavior::UnitSymbol),
    );
    let value = serializer.serialize_i32(10).unwrap();
    let addr = serializer.serialize_some(value).unwrap();
    let (k, v) = pair(&serializer, addr);
    assert_symbol(&serializer, k, "some");
    assert_integer(&serializer, v, 10);
}

#[test]
fn serialize_none_as_unit() {
    let mut serializer = new_serializer();
    let addr = serializer.serialize_none().unwrap();
    assert_eq!(cell(&serializer, addr), StoreValue::Unit);
}

#[test]
fn serialize_some_as_value() {
    let mut serializer = new_serializer();
    let value = serializer.serialize_i32(10).unwrap();
    let addr = serializer.serialize_some(value).unwrap();
    assert_integer(&serializer, addr, 10);
}

#[test]
fn serialize_unit() {
    let mut serializer = new_serializer();
    let addr = serializer.serialize_unit().unwrap();
    assert_eq!(cell(&serializer, addr), StoreValue::Unit);
}

#[test]
fn serialize_unit_struct_as_unit() {
    let mut serializer = new_serializer();
    let addr = serializer.serialize_unit_struct(&chars("PhantomData")).unwrap();
    assert_eq!(cell(&serializer, addr), StoreValue::Unit);
}

#[test]
fn serialize_unit_struct_as_list() {
    let mut serializer = GarnishDataSerializer::new_with_options(
        Store::new(),
        GarnishSerializationOptions::new().struct_typing_behavior(StructBehavior::IncludeTyping),
    );
    let addr = serializer.serialize_unit_struct(&chars("PhantomData")).unwrap();
    let items = list_items(&serializer, addr);
    assert_eq!(items.len(), 1);
    let (k, v) = pair(&serializer, items[0].0);
    assert_symbol(&serializer, k, "@meta");
    assert_eq!(cell(&serializer, v), StoreValue::CharList(chars("PhantomData")));
}

#[test]
fn serialize_variant_full_name() {
    let mut serializer = new_serializer();
    let addr = serializer
        .serialize_unit_variant(&chars("MyEnum"), 100, &chars("Value1"))
        .unwrap();
    assert_symbol(&serializer, addr, "MyEnum::Value1");
}

#[test]
fn serialize_variant_short_name() {
    let mut serializer = GarnishDataSerializer::new_with_options(
        Store::new(),
        GarnishSerializationOptions::new().variant_name_behavior(VariantNameBehavior::Short),
    );
    let addr = serializer
        .serialize_unit_variant(&chars("MyEnum"), 100, &chars("Value1"))
        .unwrap();
    assert_symbol(&serializer, addr, "Value1");
}

#[test]
fn serialize_variant_index() {
    let mut serializer = GarnishDataSerializer::new_with_options(
        Store::new(),
        GarnishSerializationOptions::new().variant_name_behavior(VariantNameBehavior::Index),
    );
    let addr = serializer
        .serialize_unit_variant(&chars("MyEnum"), 100, &chars("Value1"))
        .unwrap();
    assert_integer(&serializer, addr, 100);
}

#[test]
fn serialize_new_type_variant_full_name() {
    let mut serializer = new_serializer();
    let value = serializer.serialize_i32(200).unwrap();
    let addr = serializer
        .serialize_newtype_variant(&chars("MyEnum"), 100, &chars("Value1"), value)
        .unwrap();
    let items = list_items(&serializer, addr);
    assert_eq!(items.len(), 2);
    assert_symbol(&serializer, items[0].0, "MyEnum::Value1");
    assert_integer(&serializer, items[1].0, 200);
}

#[test]
fn serialize_new_type_variant_short_name() {
    let mut serializer = GarnishDataSerializer::new_with_options(
        Store::new(),
        GarnishSerializationOptions::new().variant_name_behavior(VariantNameBehavior::Short),
    );
    let value = serializer.serialize_i32(200).unwrap();
    let addr = serializer
        .serialize_newtype_variant(&chars("MyEnum"), 100, &chars("Value1"), value)
        .unwrap();
    let items = list_items(&serializer, addr);
    assert_eq!(items.len(), 2);
    assert_symbol(&serializer, items[0].0, "Value1");
    assert_integer(&serializer, items[1].0, 200);
}

#[test]
fn serialize_new_type_variant_index() {
    let mut serializer = GarnishDataSerializer::new_with_options(
        Store::new(),
        GarnishSerializationOptions::new().variant_name_behavior(VariantNameBehavior::Index),
    );
    let value = serializer.serialize_i32(200).unwrap();
    let addr = serializer
        .serialize_newtype_variant(&chars("MyEnum"), 100, &chars("Value1"), value)
        .unwrap();
    let items = list_items(&serializer, addr);
    assert_eq!(items.len(), 2);
    assert_integer(&serializer, items[0].0, 100);
    assert!(!items[0].1);
    assert_integer(&serializer, items[1].0, 200);
}

#[test]
fn serialize_sequence() {
    let mut serializer = new_serializer();
    serializer.serialize_seq(Some(3)).unwrap();
    for n in [100, 200, 300] {
        let h = serializer.serialize_i32(n).unwrap();
        serializer.serialize_element(h).unwrap();
    }
    let addr = serializer.end().unwrap();
    let items = list_items(&serializer, addr);
    assert_eq!(items.len(), 3);
    assert_integer(&serializer, items[0].0, 100);
    assert_integer(&serializer, items[1].0, 200);
    assert_integer(&serializer, items[2].0, 300);
}

#[test]
fn serialize_tuple() {
    let mut serializer = new_serializer();
    serializer.serialize_tuple(3).unwrap();
    for n in [100, 200, 300] {
        let h = serializer.serialize_i32(n).unwrap();
        serializer.serialize_element(h).unwrap();
    }
    let addr = serializer.end().unwrap();
    let items = list_items(&serializer, addr);
    assert_eq!(items.len(), 3);
    assert_integer(&serializer, items[0].0, 100);
    assert_integer(&serializer, items[1].0, 200);
    assert_integer(&serializer, items[2].0, 300);
}

#[test]
fn serialize_struct_without_name() {
    let mut serializer = new_serializer();
    serializer.serialize_struct(&chars("MyTuple"), 3).unwrap();
    for (name, n) in [("one", 100), ("two", 200), ("three", 300)] {
        let h = serializer.serialize_i32(n).unwrap();
        serializer.serialize_field(&chars(name), h).unwrap();
    }
    let addr = serializer.end_struct().unwrap();
    let items = list_items(&serializer, addr);
    assert_eq!(items.len(), 3);
    for (i, (name, n)) in [("one", 100), ("two", 200), ("three", 300)].iter().enumerate() {
        assert!(items[i].1);
        let (k, v) = pair(&serializer, items[i].0);
        assert_symbol(&serializer, k, name);
        assert_integer(&serializer, v, *n);
    }
}

#[test]
fn serialize_struct_with_name() {
    let mut serializer = GarnishDataSerializer::new_with_options(
        Store::new(),
        GarnishSerializationOptions::new().struct_typing_behavior(StructBehavior::IncludeTyping),
    );
    serializer.serialize_struct(&chars("MyStruct"), 3).unwrap();
    for (name, n) in [("one", 100), ("two", 200), ("three", 300)] {
        let h = serializer.serialize_i32(n).unwrap();
        serializer.serialize_field(&chars(name), h).unwrap();
    }
    let addr = serializer.end_struct().unwrap();
    let items = list_items(&serializer, addr);
    assert_eq!(items.len(), 4);
    for (i, (name, n)) in [("one", 100), ("two", 200), ("three", 300)].iter().enumerate() {
        let (k, v) = pair(&serializer, items[i].0);
        assert_symbol(&serializer, k, name);
        assert_integer(&serializer, v, *n);
    }
    let (k, v) = pair(&serializer, items[3].0);
    assert_symbol(&serializer, k, "@meta");
    assert_symbol(&serializer, v, "MyStruct");
}

#[test]
fn serialize_tuple_struct_without_name() {
    let mut serializer = new_serializer();
    serializer.serialize_tuple_struct(&chars("MyTuple"), 3).unwrap();
    for n in [100, 200, 300] {
        let h = serializer.serialize_i32(n).unwrap();
        serializer.serialize_element(h).unwrap();
    }
    let addr = serializer.end_struct_like().unwrap();
    let items = list_items(&serializer, addr);
    assert_eq!(items.len(), 3);
    assert_integer(&serializer, items[0].0, 100);
    assert_integer(&serializer, items[1].0, 200);
    assert_integer(&serializer, items[2].0, 300);
}

#[test]
fn serialize_tuple_struct_with_name() {
    let mut serializer = GarnishDataSerializer::new_with_options(
        Store::new(),
        GarnishSerializationOptions::new().struct_typing_behavior(StructBehavior::IncludeTyping),
    );
    serializer.serialize_tuple_struct(&chars("MyTuple"), 3).unwrap();
    for n in [100, 200, 300] {
        let h = serializer.serialize_i32(n).unwrap();
        serializer.serialize_element(h).unwrap();
    }
    let addr = serializer.end_struct_like().unwrap();
    let outer = list_items(&serializer, addr);
    assert_eq!(outer.len(), 2);
    assert_symbol(&serializer, outer[0].0, "MyTuple");
    let inner = list_items(&serializer, outer[1].0);
    assert_eq!(inner.len(), 3);
    assert_integer(&serializer, inner[0].0, 100);
    assert_integer(&serializer, inner[1].0, 200);
    assert_integer(&serializer, inner[2].0, 300);
}

fn struct_variant_session(naming: VariantNameBehavior) -> (GarnishDataSerializer, usize) {
    let mut serializer = GarnishDataSerializer::new_with_options(
        Store::new(),
        GarnishSerializationOptions::new().variant_name_behavior(naming),
    );
    serializer
        .serialize_struct_variant(&chars("MyEnum"), 100, &chars("MyStruct"), 3)
        .unwrap();
    for (name, n) in [("one", 100), ("two", 200), ("three", 300)] {
        let h = serializer.serialize_i32(n).unwrap();
        serializer.serialize_field(&chars(name), h).unwrap();
    }
    let addr = serializer.end_struct_like().unwrap();
    (serializer, addr)
}

fn assert_struct_variant_fields(serializer: &GarnishDataSerializer, payload: usize) {
    let inner = list_items(serializer, payload);
    assert_eq!(inner.len(), 3);
    for (i, (name, n)) in [("one", 100), ("two", 200), ("three", 300)].iter().enumerate() {
        let (k, v) = pair(serializer, inner[i].0);
        assert_symbol(serializer, k, name);
        assert_integer(serializer, v, *n);
    }
}

#[test]
fn serialize_struct_variant_with_full_name() {
    let (serializer, addr) = struct_variant_session(VariantNameBehavior::Full);
    let outer = list_items(&serializer, addr);
    assert_eq!(outer.len(), 2);
    assert_symbol(&serializer, outer[0].0, "MyEnum::MyStruct");
    assert_struct_variant_fields(&serializer, outer[1].0);
}

#[test]
fn serialize_struct_variant_with_short_name() {
    let (serializer, addr) = struct_variant_session(VariantNameBehavior::Short);
    let outer = list_items(&serializer, addr);
    assert_eq!(outer.len(), 2);
    assert_symbol(&serializer, outer[0].0, "MyStruct");
    assert_struct_variant_fields(&serializer, outer[1].0);
}

#[test]
fn serialize_struct_variant_with_index_name() {
    let (serializer, addr) = struct_variant_session(VariantNameBehavior::Index);
    let outer = list_items(&serializer, addr);
    assert_eq!(outer.len(), 2);
    assert_integer(&serializer, outer[0].0, 100);
    assert_struct_variant_fields(&serializer, outer[1].0);
}

fn tuple_variant_session(naming: VariantNameBehavior) -> (GarnishDataSerializer, usize) {
    let mut serializer = GarnishDataSerializer::new_with_options(
        Store::new(),
        GarnishSerializationOptions::new().variant_name_behavior(naming),
    );
    serializer
        .serialize_tuple_variant(&chars("MyEnum"), 100, &chars("Type1"), 3)
        .unwrap();
    for n in [100, 200, 300] {
        let h = serializer.serialize_i32(n).unwrap();
        serializer.serialize_element(h).unwrap();
    }
    let addr = serializer.end_struct_like().unwrap();
    (serializer, addr)
}

fn assert_tuple_variant_elements(serializer: &GarnishDataSerializer, payload: usize) {
    let inner = list_items(serializer, payload);
    assert_eq!(inner.len(), 3);
    assert_integer(serializer, inner[0].0, 100);
    assert_integer(serializer, inner[1].0, 200);
    assert_integer(serializer, inner[2].0, 300);
}

#[test]
fn serialize_tuple_variant_with_full_name() {
    let (serializer, addr) = tuple_variant_session(VariantNameBehavior::Full);
    let outer = list_items(&serializer, addr);
    assert_eq!(outer.len(), 2);
    assert_symbol(&serializer, outer[0].0, "MyEnum::Type1");
    assert_tuple_variant_elements(&serializer, outer[1].0);
}

#[test]
fn serialize_tuple_variant_with_short_name() {
    let (serializer, addr) = tuple_variant_session(VariantNameBehavior::Short);
    let outer = list_items(&serializer, addr);
    assert_eq!(outer.len(), 2);
    assert_symbol(&serializer, outer[0].0, "Type1");
    assert_tuple_variant_elements(&serializer, outer[1].0);
}

#[test]
fn serialize_tuple_variant_with_index_name() {
    let (serializer, addr) = tuple_variant_session(VariantNameBehavior::Index);
    let outer = list_items(&serializer, addr);
    assert_eq!(outer.len(), 2);
    assert_integer(&serializer, outer[0].0, 100);
    assert!(!outer[0].1);
    assert_tuple_variant_elements(&serializer, outer[1].0);
}

#[test]
fn serialize_map() {
    let mut serializer = new_serializer();
    serializer.serialize_map(Some(3)).unwrap();
    for (name, n) in [("one", 100), ("two", 200), ("three", 300)] {
        let key = serializer.serialize_str(&chars(name)).unwrap();
        serializer.serialize_key(key).unwrap();
        let value = serializer.serialize_i32(n).unwrap();
        serializer.serialize_value(value).unwrap();
    }
    let addr = serializer.end().unwrap();
    let items = list_items(&serializer, addr);
    assert_eq!(items.len(), 3);
    for (i, (name, n)) in [("one", 100), ("two", 200), ("three", 300)].iter().enumerate() {
        assert!(items[i].1);
        let (k, v) = pair(&serializer, items[i].0);
        assert_symbol(&serializer, k, name);
        assert_integer(&serializer, v, *n);
    }
}
