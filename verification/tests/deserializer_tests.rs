use std::collections::HashMap;

use garnish_codec::deserializer::{GarnishDataDeserializer, ListAccessor};
use garnish_codec::number::Scalar;
use garnish_codec::store::Store;

fn chars(s: &str) -> Vec<char> {
    s.chars().collect()
}

fn text(cs: Vec<char>) -> String {
    cs.into_iter().collect()
}

/// Builds a store, makes `setup`'s result the current value, and opens a
/// decode session on it.
fn deserializer_for(setup: impl FnOnce(&mut Store) -> usize) -> GarnishDataDeserializer {
    let mut data = Store::new();
    let addr = setup(&mut data);
    data.push_value_stack(addr);
    GarnishDataDeserializer::new(data)
}

fn add_char_list(data: &mut Store, s: &str) -> usize {
    data.add_char_list(&chars(s))
}

fn add_int(data: &mut Store, n: i128) -> usize {
    data.add_number(Scalar::Integer(n))
}

fn number_list(data: &mut Store, ns: &[i128]) -> usize {
    let mut handles = Vec::new();
    for n in ns {
        handles.push(add_int(data, *n));
    }
    data.start_list(handles.len());
    for h in handles {
        data.add_to_list(h, false);
    }
    data.end_list()
}

fn pair_list(data: &mut Store, entries: &[(&str, i128)]) -> usize {
    let mut handles = Vec::new();
    for (name, n) in entries {
        let sym = data.parse_add_symbol(&chars(name));
        let num = add_int(data, *n);
        handles.push(data.add_pair(sym, num));
    }
    data.start_list(handles.len());
    for h in handles {
        data.add_to_list(h, true);
    }
    data.end_list()
}

fn decode_i32_items(d: &mut GarnishDataDeserializer) -> Vec<i32> {
    let mut acc = ListAccessor::new(d).unwrap();
    let mut out = Vec::new();
    while let Some(item) = acc.next_item() {
        d.push_focus(item).unwrap();
        out.push(d.deserialize_i32().unwrap());
        d.pop_focus();
    }
    out
}

fn decode_i32_map(d: &mut GarnishDataDeserializer) -> HashMap<String, i32> {
    let mut acc = ListAccessor::new(d).unwrap();
    let mut out = HashMap::new();
    while let Some(item) = acc.next_item() {
        let (key, value) = d.data().get_pair(item).unwrap();
        d.push_focus(key).unwrap();
        let name = text(d.deserialize_string().unwrap());
        d.pop_focus();
        d.push_focus(value).unwrap();
        let n = d.deserialize_i32().unwrap();
        d.pop_focus();
        out.insert(name, n);
    }
    out
}

#[test]
fn deserialize_true() {
    let d = deserializer_for(|data| data.add_true());
    assert_eq!(d.deserialize_bool().unwrap(), true);
}

#[test]
fn deserialize_false() {
    let d = deserializer_for(|data| data.add_false());
    assert_eq!(d.deserialize_bool().unwrap(), false);
}

#[test]
fn deserialize_i8() {
    let d = deserializer_for(|data| add_int(data, 100));
    assert_eq!(d.deserialize_i8().unwrap(), 100i8);
}

#[test]
fn deserialize_i16() {
    let d = deserializer_for(|data| add_int(data, 100));
    assert_eq!(d.deserialize_i16().unwrap(), 100i16);
}

#[test]
fn deserialize_i32() {
    let d = deserializer_for(|data| add_int(data, 100));
    assert_eq!(d.deserialize_i32().unwrap(), 100i32);
}

#[test]
fn deserialize_i64() {
    let d = deserializer_for(|data| add_int(data, 100));
    assert_eq!(d.deserialize_i64().unwrap(), 100i64);
}

#[test]
fn deserialize_u8() {
    let d = deserializer_for(|data| add_int(data, 100));
    assert_eq!(d.deserialize_u8().unwrap(), 100u8);
}

#[test]
fn deserialize_u16() {
    let d = deserializer_for(|data| add_int(data, 100));
    assert_eq!(d.deserialize_u16().unwrap(), 100u16);
}

#[test]
fn deserialize_u32() {
    let d = deserializer_for(|data| add_int(data, 100));
    assert_eq!(d.deserialize_u32().unwrap(), 100u32);
}

#[test]
fn deserialize_u64() {
    let d = deserializer_for(|data| add_int(data, 100));
    assert_eq!(d.deserialize_u64().unwrap(), 100u64);
}

#[test]
fn deserialize_f32() {
    let d = deserializer_for(|data| data.add_number(Scalar::FloatBits(100.0f64.to_bits())));
    match d.deserialize_number().unwrap() {
        Scalar::FloatBits(bits) => assert_eq!(f64::from_bits(bits) as f32, 100.0f32),
        other => panic!("expected a float scalar, found {:?}", other),
    }
}

#[test]
fn deserialize_f64() {
    let d = deserializer_for(|data| data.add_number(Scalar::FloatBits(100.0f64.to_bits())));
    match d.deserialize_number().unwrap() {
        Scalar::FloatBits(bits) => assert_eq!(f64::from_bits(bits), 100.0f64),
        other => panic!("expected a float scalar, found {:?}", other),
    }
}

#[test]
fn deserialize_char() {
    let d = deserializer_for(|data| data.add_char('a'));
    assert_eq!(d.deserialize_char().unwrap(), 'a');
}

#[test]
fn deserialize_string() {
    let mut d = deserializer_for(|data| add_char_list(data, "abcd"));
    assert_eq!(text(d.deserialize_string().unwrap()), String::from("abcd"));
}

#[test]
fn deserialize_string_from_concatenation() {
    let mut d = deserializer_for(|data| {
        let s1 = add_char_list(data, "abcd");
        let s2 = add_char_list(data, "efgh");
        let s3 = add_char_list(data, "ijkl");
        let cat1 = data.add_concatenation(s1, s2);
        data.add_concatenation(cat1, s3)
    });
    assert_eq!(text(d.deserialize_string().unwrap()), String::from("abcdefghijkl"));
}

#[test]
fn deserialize_string_from_slice() {
    let mut d = deserializer_for(|data| {
        let s = add_char_list(data, "abcd");
        let start = add_int(data, 1);
        let end = add_int(data, 2);
        let range = data.add_range(start, end);
        data.add_slice(s, range)
    });
    assert_eq!(text(d.deserialize_string().unwrap()), String::from("bc"));
}

#[test]
fn deserialize_byte_buf() {
    let d = deserializer_for(|data| {
        data.start_byte_list();
        for b in "abcd".bytes() {
            data.add_to_byte_list(b);
        }
        data.end_byte_list()
    });
    assert_eq!(
        d.deserialize_byte_buf().unwrap(),
        vec!['a' as u8, 'b' as u8, 'c' as u8, 'd' as u8],
    );
}

#[test]
fn deserialize_option_some() {
    let d = deserializer_for(|data| add_int(data, 100));
    assert!(d.deserialize_option().unwrap());
    assert_eq!(d.deserialize_i32().unwrap(), 100);
}

#[test]
fn deserialize_option_none() {
    let d = deserializer_for(|data| data.add_unit());
    assert!(!d.deserialize_option().unwrap());
}

#[test]
fn deserialize_unit() {
    let d = deserializer_for(|data| data.add_unit());
    assert!(d.deserialize_unit().is_ok());
}

#[test]
fn deserialize_unit_struct() {
    let d = deserializer_for(|data| data.add_unit());
    assert!(d.deserialize_unit().is_ok());
}

#[test]
fn deserialize_newtype_struct() {
    let d = deserializer_for(|data| add_int(data, 100));
    assert_eq!(d.deserialize_i32().unwrap(), 100);
}

#[test]
fn deserialize_seq() {
    let mut d = deserializer_for(|data| number_list(data, &[100, 200, 300]));
    assert_eq!(decode_i32_items(&mut d), vec![100, 200, 300]);
}

#[test]
fn deserialize_seq_of_1_from_non_list() {
    let mut d = deserializer_for(|data| add_int(data, 100));
    assert_eq!(decode_i32_items(&mut d), vec![100]);
}

#[test]
fn deserialize_seq_from_concatenation() {
    let mut d = deserializer_for(|data| {
        let num1 = add_int(data, 100);
        let num2 = add_int(data, 200);
        let num3 = add_int(data, 300);
        let con1 = data.add_concatenation(num1, num2);
        data.add_concatenation(con1, num3)
    });
    assert_eq!(decode_i32_items(&mut d), vec![100, 200, 300]);
}

#[test]
fn deserialize_seq_from_concatenation_slice() {
    let mut d = deserializer_for(|data| {
        let num1 = add_int(data, 100);
        let num2 = add_int(data, 200);
        let num3 = add_int(data, 300);
        let con1 = data.add_concatenation(num1, num2);
        let con2 = data.add_concatenation(con1, num3);
        let start = add_int(data, 1);
        let end = add_int(data, 2);
        let range = data.add_range(start, end);
        data.add_slice(con2, range)
    });
    assert_eq!(decode_i32_items(&mut d), vec![200, 300]);
}

#[test]
fn deserialize_seq_from_list_slice() {
    let mut d = deserializer_for(|data| {
        let list = number_list(data, &[100, 200, 300]);
        let start = add_int(data, 1);
        let end = add_int(data, 2);
        let range = data.add_range(start, end);
        data.add_slice(list, range)
    });
    assert_eq!(decode_i32_items(&mut d), vec![200, 300]);
}

#[test]
fn deserialize_seq_from_list_slice_one_length_range() {
    let mut d = deserializer_for(|data| {
        let list = number_list(data, &[100, 200, 300]);
        let start = add_int(data, 1);
        let end = add_int(data, 1);
        let range = data.add_range(start, end);
        data.add_slice(list, range)
    });
    assert_eq!(decode_i32_items(&mut d), vec![200]);
}

#[test]
fn deserialize_seq_of_seq() {
    let mut d = deserializer_for(|data| {
        let list1 = number_list(data, &[100, 200, 300]);
        let list2 = number_list(data, &[400, 500, 600]);
        data.start_list(2);
        data.add_to_list(list1, false);
        data.add_to_list(list2, false);
        data.end_list()
    });
    let mut acc = ListAccessor::new(&d).unwrap();
    let mut out = Vec::new();
    while let Some(item) = acc.next_item() {
        d.push_focus(item).unwrap();
        out.push(decode_i32_items(&mut d));
        d.pop_focus();
    }
    assert_eq!(out, vec![vec![100, 200, 300], vec![400, 500, 600]]);
}

#[test]
fn deserialize_tuple() {
    let mut d = deserializer_for(|data| number_list(data, &[100, 200, 300]));
    let mut acc = d.deserialize_tuple(3).unwrap();
    let mut out = Vec::new();
    while let Some(item) = acc.next_item() {
        d.push_focus(item).unwrap();
        out.push(d.deserialize_i32().unwrap());
        d.pop_focus();
    }
    assert_eq!(out, vec![100, 200, 300]);
}

#[test]
fn deserialize_tuple_struct() {
    let mut d = deserializer_for(|data| number_list(data, &[100, 200, 300]));
    let mut acc = d.deserialize_tuple(3).unwrap();
    let mut out = Vec::new();
    while let Some(item) = acc.next_item() {
        d.push_focus(item).unwrap();
        out.push(d.deserialize_i32().unwrap());
        d.pop_focus();
    }
    assert_eq!(out, vec![100, 200, 300]);
}

#[test]
fn deserialize_tuple_to_few() {
    let d = deserializer_for(|data| number_list(data, &[100, 200]));
    assert!(d.deserialize_tuple(3).is_err());
}

#[test]
fn deserialize_tuple_to_many() {
    let d = deserializer_for(|data| number_list(data, &[100, 200, 300, 400]));
    assert!(d.deserialize_tuple(3).is_err());
}

#[test]
fn deserialize_map() {
    let mut expected = HashMap::new();
    expected.insert("one".to_string(), 100);
    expected.insert("two".to_string(), 200);
    expected.insert("three".to_string(), 300);
    let mut d = deserializer_for(|data| {
        pair_list(data, &[("one", 100), ("two", 200), ("three", 300)])
    });
    assert_eq!(decode_i32_map(&mut d), expected);
}

#[test]
fn deserialize_map_from_list_slice() {
    let mut expected = HashMap::new();
    expected.insert("two".to_string(), 200);
    expected.insert("three".to_string(), 300);
    expected.insert("four".to_string(), 400);
    let mut d = deserializer_for(|data| {
        let list = pair_list(data, &[("one", 100), ("two", 200), ("three", 300),
            ("four", 400)]);
        let start = add_int(data, 1);
        let end = add_int(data, 3);
        let range = data.add_range(start, end);
        data.add_slice(list, range)
    });
    assert_eq!(decode_i32_map(&mut d), expected);
}

fn concat_pair_list(data: &mut Store, entries: &[(&str, i128)]) -> usize {
    let mut handles = Vec::new();
    for (name, n) in entries {
        let sym = data.parse_add_symbol(&chars(name));
        let num = add_int(data, *n);
        handles.push(data.add_pair(sym, num));
    }
    let mut cat = handles[0];
    for h in &handles[1..] {
        cat = data.add_concatenation(cat, *h);
    }
    cat
}

#[test]
fn deserialize_map_from_concatenation() {
    let mut expected = HashMap::new();
    expected.insert("one".to_string(), 100);
    expected.insert("two".to_string(), 200);
    expected.insert("three".to_string(), 300);
    expected.insert("four".to_string(), 400);
    let mut d = deserializer_for(|data| {
        concat_pair_list(data, &[("one", 100), ("two", 200), ("three", 300), ("four", 400)])
    });
    assert_eq!(decode_i32_map(&mut d), expected);
}

#[test]
fn deserialize_map_from_concatenation_slice() {
    let mut expected = HashMap::new();
    expected.insert("two".to_string(), 200);
    expected.insert("three".to_string(), 300);
    let mut d = deserializer_for(|data| {
        let cat = concat_pair_list(data, &[("one", 100), ("two", 200), ("three", 300)]);
        let start = add_int(data, 1);
        let end = add_int(data, 2);
        let range = data.add_range(start, end);
        data.add_slice(cat, range)
    });
    assert_eq!(decode_i32_map(&mut d), expected);
}

#[test]
fn deserialize_struct() {
    let mut d = deserializer_for(|data| {
        pair_list(data, &[("one", 100), ("two", 200), ("three", 300)])
    });
    let fields = decode_i32_map(&mut d);
    assert_eq!(fields["one"], 100);
    assert_eq!(fields["two"], 200);
    assert_eq!(fields["three"], 300);
}

#[test]
fn deserialize_struct_from_list_slice() {
    let mut d = deserializer_for(|data| {
        let list = pair_list(data, &[("zero", 0), ("one", 100), ("two", 200),
            ("three", 300)]);
        let start = add_int(data, 1);
        let end = add_int(data, 3);
        let range = data.add_range(start, end);
        data.add_slice(list, range)
    });
    let fields = decode_i32_map(&mut d);
    assert_eq!(fields.len(), 3);
    assert_eq!(fields["one"], 100);
    assert_eq!(fields["two"], 200);
    assert_eq!(fields["three"], 300);
}

#[test]
fn deserialize_struct_from_concatenation() {
    let mut d = deserializer_for(|data| {
        concat_pair_list(data, &[("one", 100), ("two", 200), ("three", 300)])
    });
    let fields = decode_i32_map(&mut d);
    assert_eq!(fields["one"], 100);
    assert_eq!(fields["two"], 200);
    assert_eq!(fields["three"], 300);
}

#[test]
fn deserialize_struct_from_concatenation_slice() {
    let mut d = deserializer_for(|data| {
        let cat = concat_pair_list(data, &[("zero", 0), ("one", 100), ("two", 200),
            ("three", 300)]);
        let start = add_int(data, 1);
        let end = add_int(data, 3);
        let range = data.add_range(start, end);
        data.add_slice(cat, range)
    });
    let fields = decode_i32_map(&mut d);
    assert_eq!(fields.len(), 3);
    assert_eq!(fields["one"], 100);
    assert_eq!(fields["two"], 200);
    assert_eq!(fields["three"], 300);
}

#[test]
fn deserialize_unit_variant() {
    let mut d = deserializer_for(|data| {
        data.parse_add_symbol(&chars("SomeEnum::SomeUnitVariant"))
    });
    let name = d.variant_seed().unwrap();
    assert_eq!(text(name), String::from("SomeUnitVariant"));
}

#[test]
fn deserialize_newtype_variant() {
    let mut d = deserializer_for(|data| {
        let sym = data.parse_add_symbol(&chars("SomeEnum::SomeNewTypeVariant"));
        let num = add_int(data, 100);
        data.start_list(2);
        data.add_to_list(sym, true);
        data.add_to_list(num, false);
        data.end_list()
    });
    let name = d.variant_seed().unwrap();
    assert_eq!(text(name), String::from("SomeNewTypeVariant"));
    assert_eq!(d.deserialize_i32().unwrap(), 100);
}

#[test]
fn deserialize_tuple_variant() {
    let mut d = deserializer_for(|data| {
        let sym = data.parse_add_symbol(&chars("SomeEnum::SomeTupleVariant"));
        let payload = number_list(data, &[100, 200]);
        data.start_list(2);
        data.add_to_list(sym, true);
        data.add_to_list(payload, false);
        data.end_list()
    });
    let name = d.variant_seed().unwrap();
    assert_eq!(text(name), String::from("SomeTupleVariant"));
    let mut acc = d.deserialize_tuple(2).unwrap();
    let mut out = Vec::new();
    while let Some(item) = acc.next_item() {
        d.push_focus(item).unwrap();
        out.push(d.deserialize_i32().unwrap());
        d.pop_focus();
    }
    assert_eq!(out, vec![100, 200]);
}

#[test]
fn deserialize_struct_variant() {
    let mut d = deserializer_for(|data| {
        let sym = data.parse_add_symbol(&chars("SomeEnum::SomeStructVariant"));
        let payload = pair_list(data, &[("one", 100), ("two", 200), ("three", 300)]);
        data.start_list(2);
        data.add_to_list(sym, true);
        data.add_to_list(payload, false);
        data.end_list()
    });
    let name = d.variant_seed().unwrap();
    assert_eq!(text(name), String::from("SomeStructVariant"));
    let fields = decode_i32_map(&mut d);
    assert_eq!(fields["one"], 100);
    assert_eq!(fields["two"], 200);
    assert_eq!(fields["three"], 300);
}
