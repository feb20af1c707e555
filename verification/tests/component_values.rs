use arbitrary::{Arbitrary, Unstructured};
use cretonne::generators::component_types::{
    arbitrary_val, ValType, Value, MAX_LIST_LENGTH, MIN_LIST_LENGTH,
};
use std::ops::ControlFlow;

fn gen(ty: &ValType, data: &[u8]) -> (Value, usize) {
    let mut u = Unstructured::new(data);
    let v = arbitrary_val(ty, &mut u).unwrap();
    (v, u.len())
}

fn labels(n: usize) -> Vec<String> {
    (0..n).map(|i| format!("C{i}")).collect()
}

#[test]
fn integers_are_little_endian_and_take_their_bytes() {
    let ty = ValType::Tuple(vec![ValType::U16, ValType::S8, ValType::U32, ValType::S64]);
    let data = [
        0x34, 0x12, 0xff, 0x78, 0x56, 0x34, 0x12, 0xfe, 0xff, 0xff, 0xff, 0xff, 0xff, 0xff, 0xff,
        0x99,
    ];
    let (v, left) = gen(&ty, &data);
    assert_eq!(
        v,
        Value::Tuple(vec![
            Value::U16(0x1234),
            Value::S8(-1),
            Value::U32(0x1234_5678),
            Value::S64(-2),
        ])
    );
    assert_eq!(left, 1);
}

#[test]
fn integers_past_the_data_are_zero_padded() {
    let (v, left) = gen(&ValType::U64, &[0x01, 0x02]);
    assert_eq!(v, Value::U64(0x0201));
    assert_eq!(left, 0);
    let (v, _) = gen(&ValType::S16, &[]);
    assert_eq!(v, Value::S16(0));
    let (v, _) = gen(&ValType::S32, &[0xff, 0xff, 0xff, 0x7f]);
    assert_eq!(v, Value::S32(i32::MAX));
    let (v, _) = gen(&ValType::U8, &[0xab, 0xcd]);
    assert_eq!(v, Value::U8(0xab));
}

#[test]
fn bools_are_the_low_bit() {
    assert_eq!(gen(&ValType::Bool, &[3]).0, Value::Bool(true));
    assert_eq!(gen(&ValType::Bool, &[2]).0, Value::Bool(false));
    assert_eq!(gen(&ValType::Bool, &[]).0, Value::Bool(false));
    assert_eq!(gen(&ValType::Bool, &[1, 1]).1, 1);
}

#[test]
fn floats_are_the_bits_drawn() {
    let (v, _) = gen(&ValType::Float32, &[1, 2, 3, 4]);
    assert_eq!(v, Value::Float32(0x0403_0201));
    let bits = f32::from_bits(0x0403_0201).to_bits();
    assert_eq!(bits, 0x0403_0201);
    let (v, left) = gen(&ValType::Float64, &[1, 2, 3, 4, 5, 6, 7, 8, 9]);
    assert_eq!(v, Value::Float64(0x0807_0605_0403_0201));
    assert_eq!(left, 1);
    let mut u = Unstructured::new(&[1, 2, 3, 4, 5, 6, 7, 8]);
    let x: f64 = u.arbitrary().unwrap();
    assert_eq!(x.to_bits(), 0x0807_0605_0403_0201);
}

#[test]
fn chars_wrap_the_code_space_and_skip_surrogates() {
    assert_eq!(gen(&ValType::Char, &[0x41, 0, 0, 0]).0, Value::Char('A'));
    assert_eq!(gen(&ValType::Char, &[0x41, 0, 0x11, 0]).0, Value::Char('A'));
    assert_eq!(gen(&ValType::Char, &[0x05, 0xd8, 0, 0]).0, Value::Char('\u{5}'));
    assert_eq!(gen(&ValType::Char, &[]).0, Value::Char('\0'));
}

#[test]
fn strings_are_drawn_as_arbitrary_draws_them() {
    let data = b"hello world\x05";
    let (v, left) = gen(&ValType::String, data);
    let mut u = Unstructured::new(data);
    let s = String::arbitrary(&mut u).unwrap();
    assert_eq!(v, Value::String(s));
    assert_eq!(left, u.len());
}

#[test]
fn lists_draw_their_length_as_arbitrary_loop_does() {
    let data = [3, 10, 20, 30, 40];
    let (v, left) = gen(&ValType::List(Box::new(ValType::U8)), &data);
    assert_eq!(
        v,
        Value::List(vec![Value::U8(10), Value::U8(20), Value::U8(30)])
    );
    assert_eq!(left, 1);

    for seed in 0u8..=255 {
        let data = [seed, 1, 2, 3, 4, 5, 6, 7, 8, 9, 10, 11, 12, 13];
        let (v, left) = gen(&ValType::List(Box::new(ValType::U8)), &data);
        let mut u = Unstructured::new(&data);
        let mut expected = Vec::new();
        u.arbitrary_loop(Some(MIN_LIST_LENGTH), Some(MAX_LIST_LENGTH), |u| {
            expected.push(Value::U8(u.arbitrary()?));
            Ok(ControlFlow::Continue(()))
        })
        .unwrap();
        assert_eq!(v, Value::List(expected));
        assert_eq!(left, u.len());
    }
}

#[test]
fn lists_stay_within_the_length_bounds() {
    assert_eq!(MIN_LIST_LENGTH, 0);
    assert_eq!(MAX_LIST_LENGTH, 10);
    let data = [21u8; 40];
    let (v, _) = gen(&ValType::List(Box::new(ValType::Unit)), &data);
    assert_eq!(v, Value::List((0..10).map(|_| Value::Unit).collect()));
    let (v, _) = gen(&ValType::List(Box::new(ValType::Bool)), &[]);
    assert_eq!(v, Value::List(vec![]));
}

#[test]
fn records_keep_their_field_names() {
    let ty = ValType::Record(vec![
        ("a".to_string(), ValType::U8),
        ("b".to_string(), ValType::Bool),
    ]);
    let (v, left) = gen(&ty, &[7, 1, 9]);
    assert_eq!(
        v,
        Value::Record(vec![
            ("a".to_string(), Value::U8(7)),
            ("b".to_string(), Value::Bool(true)),
        ])
    );
    assert_eq!(left, 1);
}

#[test]
fn variants_pick_a_case_by_its_label() {
    let ty = ValType::Variant(vec![
        ("C0".to_string(), ValType::Unit),
        ("C1".to_string(), ValType::U8),
        ("C2".to_string(), ValType::U16),
    ]);
    let (v, left) = gen(&ty, &[2, 0x34, 0x12]);
    assert_eq!(
        v,
        Value::Variant("C2".to_string(), Box::new(Value::U16(0x1234)))
    );
    assert_eq!(left, 0);
    let (v, _) = gen(&ty, &[4, 9]);
    assert_eq!(v, Value::Variant("C1".to_string(), Box::new(Value::U8(9))));
}

#[test]
fn variants_with_many_cases_use_decimal_labels() {
    let cases: Vec<(String, ValType)> = labels(12).into_iter().map(|n| (n, ValType::Unit)).collect();
    let ty = ValType::Variant(cases);
    let (v, _) = gen(&ty, &[11]);
    assert_eq!(v, Value::Variant("C11".to_string(), Box::new(Value::Unit)));
    let mut u = Unstructured::new(&[11]);
    assert_eq!(u.int_in_range(0..=11usize).unwrap(), 11);
}

#[test]
fn enums_pick_a_name() {
    let ty = ValType::Enum(labels(2));
    assert_eq!(gen(&ty, &[5]).0, Value::Enum("C1".to_string()));
    assert_eq!(gen(&ty, &[]).0, Value::Enum("C0".to_string()));
    let one = ValType::Enum(labels(1));
    assert_eq!(gen(&one, &[5]), (Value::Enum("C0".to_string()), 1));
}

#[test]
fn unions_pick_a_case_by_number() {
    let ty = ValType::Union(vec![ValType::U8, ValType::U16]);
    assert_eq!(gen(&ty, &[1, 7]).0, Value::Union(1, Box::new(Value::U16(7))));
    assert_eq!(gen(&ty, &[2, 7]).0, Value::Union(0, Box::new(Value::U8(7))));
}

#[test]
fn options_and_expected_pick_a_side() {
    let opt = ValType::Option(Box::new(ValType::U8));
    assert_eq!(gen(&opt, &[0, 9]), (Value::Option(None), 1));
    assert_eq!(gen(&opt, &[1, 9]), (Value::Option(Some(Box::new(Value::U8(9)))), 0));
    let exp = ValType::Expected(Box::new(ValType::U8), Box::new(ValType::Bool));
    assert_eq!(gen(&exp, &[0, 5]).0, Value::Expected(Ok(Box::new(Value::U8(5)))));
    assert_eq!(gen(&exp, &[3, 5]).0, Value::Expected(Err(Box::new(Value::Bool(true)))));
}

#[test]
fn flags_are_set_one_bool_each() {
    let ty = ValType::Flags(vec!["a".to_string(), "b".to_string(), "c".to_string()]);
    let (v, left) = gen(&ty, &[1, 0, 3, 8]);
    assert_eq!(v, Value::Flags(vec!["a".to_string(), "c".to_string()]));
    assert_eq!(left, 1);
    assert_eq!(gen(&ty, &[]).0, Value::Flags(vec![]));
}

#[test]
fn unit_draws_nothing() {
    assert_eq!(gen(&ValType::Unit, &[1, 2]), (Value::Unit, 2));
}

#[test]
fn nested_values_draw_in_order() {
    let ty = ValType::List(Box::new(ValType::Tuple(vec![
        ValType::Bool,
        ValType::Option(Box::new(ValType::U8)),
    ])));
    let (v, left) = gen(&ty, &[2, 1, 1, 4, 0, 0, 77]);
    assert_eq!(
        v,
        Value::List(vec![
            Value::Tuple(vec![
                Value::Bool(true),
                Value::Option(Some(Box::new(Value::U8(4)))),
            ]),
            Value::Tuple(vec![Value::Bool(false), Value::Option(None)]),
        ])
    );
    assert_eq!(left, 1);
}

#[test]
fn wide_ranges_take_big_endian_bytes() {
    let ty = ValType::Enum(labels(300));
    let (v, left) = gen(&ty, &[0x01, 0x02, 0x03]);
    assert_eq!(v, Value::Enum("C258".to_string()));
    assert_eq!(left, 1);
    let mut u = Unstructured::new(&[0x01, 0x02, 0x03]);
    assert_eq!(u.int_in_range(0..=299usize).unwrap(), 258);
    let (v, _) = gen(&ty, &[0xff, 0xff]);
    assert_eq!(v, Value::Enum(format!("C{}", 0xffff % 300)));
    let (v, left) = gen(&ty, &[0x07]);
    assert_eq!(v, Value::Enum("C7".to_string()));
    assert_eq!(left, 0);
}

#[test]
fn every_case_can_be_drawn() {
    let cases: Vec<(String, ValType)> = labels(5).into_iter().map(|n| (n, ValType::Unit)).collect();
    let ty = ValType::Variant(cases);
    for d in 0..5usize {
        let (v, _) = gen(&ty, &[d as u8]);
        assert_eq!(v, Value::Variant(format!("C{d}"), Box::new(Value::Unit)));
    }
    for k in 0..=10usize {
        let mut data = vec![k as u8];
        data.extend(std::iter::repeat(1u8).take(k));
        let (v, _) = gen(&ValType::List(Box::new(ValType::U8)), &data);
        assert_eq!(v, Value::List((0..k).map(|_| Value::U8(1)).collect()));
    }
}

#[test]
fn flags_past_the_data_are_unset() {
    let ty = ValType::Flags(vec!["a".to_string(), "b".to_string(), "c".to_string()]);
    let (v, left) = gen(&ty, &[0, 1]);
    assert_eq!(v, Value::Flags(vec!["b".to_string()]));
    assert_eq!(left, 0);
}
