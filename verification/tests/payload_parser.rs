use nbt_reader::error::{DecodeError, Error};
use nbt_reader::nbt::types::Tag;
use nbt_reader::parser::payload;
use nbt_reader::parser::payload::Payload;

const NUMBER_IN: [u8; 24] = [
    0x40, 0x09, 0x21, 0xff, 0x2e, 0x48, 0xe8, 0xa7, 0x01, 0x23, 0x45, 0x67, 0x89, 0xab, 0xcd, 0xef,
    0x0F, 0x2D, 0x4B, 0x69, 0x87, 0xa5, 0xc3, 0xe1,
];
const BYTE_OUT: &[i8] = &[0x40, 0x09];
const SHORT_OUT: &[i16] = &[0x4009, 0x21ff];
const INT_OUT: &[i32] = &[0x400921ff, 0x2e48e8a7];
const LONG_OUT: &[i64] = &[0x400921ff2e48e8a7, 0x0123456789abcdef];
const FLOAT_OUT: &[f32] = &[2.1427, 4.56813719e-11];
const DOUBLE_OUT: &[f64] = &[3.1416, 3.512700564088504e-303];

const BYTE_ARRAY_IN: &[u8] = &[
    0x00, 0x00, 0x00, 0x03, // length
    0x01, 0x23, 0x45, // array
    0x67, 0x89, // rest
];
const BYTE_ARRAY_OUT: &[u8] = &[0x01, 0x23, 0x45];

const STRING_IN: &[u8] = &[
    0x00, 0x0B, // length
    0x68, 0x65, 0x6c, 0x6c, 0x6f, 0x20, 0x77, 0x6f, 0x72, 0x6c, 0x64, // string
    0x67, 0x89, // rest
];
const STRING_OUT: &str = "hello world";

const INT_ARRAY_IN: &[u8] = &[
    0x00, 0x00, 0x00, 0x02, // array length
    0x01, 0x23, 0x45, 0x67, // 1
    0x89, 0xab, 0xcd, 0xef, // 2
    0x89, 0xab, 0xcd, 0xef, // rest
];
const INT_ARRAY_OUT: &[i32] = &[0x01234567, -0x76543211];

const LONG_ARRAY_IN: &[u8] = &[
    0x00, 0x00, 0x00, 0x02, // array length
    0x01, 0x23, 0x45, 0x67, 0x89, 0xab, 0xcd, 0xef, // 1
    0x0F, 0x2D, 0x4B, 0x69, 0x87, 0xa5, 0xc3, 0xe1, // 2
    0x89, 0xab, 0xcd, 0xef, // rest
];
const LONG_ARRAY_OUT: &[i64] = &[0x0123456789abcdef, 0x0f2d4b6987a5c3e1];

fn failure<T>(kind: Error, offset: usize) -> Result<T, DecodeError> {
    Err(DecodeError { kind, offset })
}

#[test]
fn from_i8() {
    assert_eq!(Into::<Payload>::into(123i8), Payload::Byte(123));
    assert_eq!(Payload::from(123i8), Payload::Byte(123));
}

#[test]
fn from_i16() {
    assert_eq!(Into::<Payload>::into(123i16), Payload::Short(123));
    assert_eq!(Payload::from(123i16), Payload::Short(123));
}

#[test]
fn from_i32() {
    assert_eq!(Into::<Payload>::into(123i32), Payload::Int(123));
    assert_eq!(Payload::from(123i32), Payload::Int(123));
}

#[test]
fn from_i64() {
    assert_eq!(Into::<Payload>::into(123i64), Payload::Long(123));
    assert_eq!(Payload::from(123i64), Payload::Long(123));
}

#[test]
fn from_byte_slice() {
    let v = BYTE_ARRAY_IN.to_vec();
    assert_eq!(Into::<Payload>::into(BYTE_ARRAY_IN), Payload::ByteArray(v.clone()));
    assert_eq!(Payload::from(BYTE_ARRAY_IN), Payload::ByteArray(v.clone()));
}

#[test]
fn from_string() {
    let s = "hello world";
    assert_eq!(Into::<Payload>::into(s), Payload::String(s.into()));
    assert_eq!(Payload::from(s), Payload::String(s.into()));
}

#[test]
fn from_vec() {
    let s = || vec![Payload::Byte(1), Payload::Byte(2)];
    assert_eq!(Payload::from_vec(s()), Payload::List(s()));
}

#[test]
fn from_int_slice() {
    let v: Vec<i32> = NUMBER_IN
        .chunks(4)
        .map(|c| i32::from_ne_bytes([c[0], c[1], c[2], c[3]]))
        .collect();
    assert_eq!(Into::<Payload>::into(&v[..]), Payload::IntArray(v.clone()));
    assert_eq!(Payload::from(&v[..]), Payload::IntArray(v.clone()));
}

#[test]
fn from_long_slice() {
    let v: Vec<i64> = NUMBER_IN
        .chunks(8)
        .map(|c| i64::from_ne_bytes([c[0], c[1], c[2], c[3], c[4], c[5], c[6], c[7]]))
        .collect();
    assert_eq!(Into::<Payload>::into(&v[..]), Payload::LongArray(v.clone()));
    assert_eq!(Payload::from(&v[..]), Payload::LongArray(v.clone()));
}

#[test]
fn from_int_vec() {
    assert_eq!(Payload::from(vec![1i32, -2]), Payload::IntArray(vec![1, -2]));
    assert_eq!(payload::into::<Vec<i32>, Payload>(vec![1i32, -2]), Payload::IntArray(vec![1, -2]));
}

#[test]
fn from_long_vec() {
    assert_eq!(Payload::from(vec![1i64, -2]), Payload::LongArray(vec![1, -2]));
    assert_eq!(payload::into::<i64, Payload>(7), Payload::Long(7));
}

#[test]
fn byte() {
    let p: Payload = Payload::Byte(BYTE_OUT[0]);
    assert_eq!(payload::byte(&NUMBER_IN), Ok((&NUMBER_IN[1..], p)));
}

#[test]
fn short() {
    let p: Payload = Payload::Short(SHORT_OUT[0]);
    assert_eq!(payload::short(&NUMBER_IN), Ok((&NUMBER_IN[2..], p)));
}

#[test]
fn int32() {
    let p: Payload = Payload::Int(INT_OUT[0]);
    assert_eq!(payload::int32(&NUMBER_IN), Ok((&NUMBER_IN[4..], p)));
}

#[test]
fn long() {
    let p: Payload = Payload::Long(LONG_OUT[0]);
    assert_eq!(payload::long(&NUMBER_IN), Ok((&NUMBER_IN[8..], p)));
}

#[test]
fn float() {
    let p: Payload = Payload::Float(FLOAT_OUT[0].to_bits());
    assert_eq!(payload::float(&NUMBER_IN), Ok((&NUMBER_IN[4..], p)));
}

#[test]
fn double() {
    let p: Payload = Payload::Double(DOUBLE_OUT[0].to_bits());
    assert_eq!(payload::double(&NUMBER_IN), Ok((&NUMBER_IN[8..], p)));
}

#[test]
fn byte_array() {
    let p = Payload::ByteArray(BYTE_ARRAY_OUT.to_vec());
    assert_eq!(payload::byte_array(BYTE_ARRAY_IN), Ok((&BYTE_ARRAY_IN[7..], p)));
}

#[test]
fn string() {
    let p = Payload::String(STRING_OUT.to_string());
    assert_eq!(payload::string(STRING_IN), Ok((&STRING_IN[13..], p)));
}

#[test]
fn list() {
    let mut lin: Vec<u8> = Vec::with_capacity(5 + 20 * 2);
    lin.resize(5 + NUMBER_IN.len(), 0);
    lin.splice(1..5, [0, 0, 0, 2]);

    lin[0] = 1; // Byte
    lin.splice(5.., NUMBER_IN);
    let p = Payload::List(BYTE_OUT.into_iter().map(Payload::byte).collect());
    assert_eq!(payload::list(&lin), Ok((&NUMBER_IN[2..], p)));

    lin[0] = 2; // Short
    let p = Payload::List(SHORT_OUT.into_iter().map(Payload::short).collect());
    assert_eq!(payload::list(&lin), Ok((&NUMBER_IN[4..], p)));

    lin[0] = 3; // Int
    let p = Payload::List(INT_OUT.into_iter().map(Payload::int32).collect());
    assert_eq!(payload::list(&lin), Ok((&NUMBER_IN[8..], p)));

    lin[0] = 4; // Long
    let p = Payload::List(LONG_OUT.into_iter().map(Payload::long).collect());
    assert_eq!(payload::list(&lin), Ok((&NUMBER_IN[16..], p)));

    lin[0] = 5; // Float
    let p = Payload::List(FLOAT_OUT.into_iter().map(|f| Payload::float(&f.to_bits())).collect());
    assert_eq!(payload::list(&lin), Ok((&NUMBER_IN[8..], p)));

    lin[0] = 6; // Double
    let p = Payload::List(DOUBLE_OUT.into_iter().map(|f| Payload::double(&f.to_bits())).collect());
    assert_eq!(payload::list(&lin), Ok((&NUMBER_IN[16..], p)));

    lin[0] = 7; // Byte array
    lin.resize(5 + 7 * 2, 0);
    lin.splice(5.., BYTE_ARRAY_IN[..7].repeat(2));
    let p = Payload::List(vec![
        Payload::ByteArray(BYTE_ARRAY_OUT.to_vec()),
        Payload::ByteArray(BYTE_ARRAY_OUT.to_vec()),
    ]);
    assert_eq!(payload::list(&lin), Ok((&[] as &[u8], p)));

    lin[0] = 8; // String
    lin.resize(5 + 13 * 2, 0);
    lin.splice(5.., STRING_IN[..13].repeat(2));
    let p = Payload::List(vec![
        Payload::String(String::from(STRING_OUT)),
        Payload::String(String::from(STRING_OUT)),
    ]);
    assert_eq!(payload::list(&lin), Ok((&[] as &[u8], p)));

    lin[0] = 11; // Int array
    lin.resize(5 + 12 * 2, 0);
    lin.splice(5.., INT_ARRAY_IN[..12].repeat(2));
    let p = Payload::List(vec![
        Payload::IntArray(INT_ARRAY_OUT.to_vec()),
        Payload::IntArray(INT_ARRAY_OUT.to_vec()),
    ]);
    assert_eq!(payload::list(&lin), Ok((&[] as &[u8], p)));

    lin[0] = 12; // Long array
    lin.resize(5 + 20 * 2, 0);
    lin.splice(5.., LONG_ARRAY_IN[..20].repeat(2));
    let p = Payload::List(vec![
        Payload::LongArray(LONG_ARRAY_OUT.to_vec()),
        Payload::LongArray(LONG_ARRAY_OUT.to_vec()),
    ]);
    assert_eq!(payload::list(&lin), Ok((&[] as &[u8], p)));
}

#[test]
fn int_array() {
    let p = Payload::IntArray(INT_ARRAY_OUT.to_vec());
    assert_eq!(payload::int_array(INT_ARRAY_IN), Ok((&INT_ARRAY_IN[12..], p)));
}

#[test]
fn long_array() {
    let p = Payload::LongArray(LONG_ARRAY_OUT.to_vec());
    assert_eq!(payload::long_array(LONG_ARRAY_IN), Ok((&LONG_ARRAY_IN[20..], p)));
}

#[test]
fn payload() {
    // Modified int array input, not worth testing every type
    let list: &[u8] = &[
        0x03, //id
        0x00, 0x00, 0x00, 0x02, // array length
        0x01, 0x23, 0x45, 0x67, // 1
        0x89, 0xab, 0xcd, 0xef, // 2
        0x89, 0xab, 0xcd, 0xef, // rest
    ];

    assert_eq!(payload::byte(&NUMBER_IN), payload::payload(1, &NUMBER_IN));
    assert_eq!(payload::short(&NUMBER_IN), payload::payload(2, &NUMBER_IN));
    assert_eq!(payload::int32(&NUMBER_IN), payload::payload(3, &NUMBER_IN));
    assert_eq!(payload::long(&NUMBER_IN), payload::payload(4, &NUMBER_IN));
    assert_eq!(payload::float(&NUMBER_IN), payload::payload(5, &NUMBER_IN));
    assert_eq!(payload::double(&NUMBER_IN), payload::payload(6, &NUMBER_IN));
    assert_eq!(payload::byte_array(BYTE_ARRAY_IN), payload::payload(7, BYTE_ARRAY_IN));
    assert_eq!(payload::string(STRING_IN), payload::payload(8, STRING_IN));
    assert_eq!(payload::list(list), payload::payload(9, list));
    assert_eq!(payload::int_array(INT_ARRAY_IN), payload::payload(11, INT_ARRAY_IN));
    assert_eq!(payload::long_array(LONG_ARRAY_IN), payload::payload(12, LONG_ARRAY_IN));
}

#[test]
fn payload_of_list_of_ints() {
    let list: &[u8] = &[
        0x03, 0x00, 0x00, 0x00, 0x02, 0x01, 0x23, 0x45, 0x67, 0x89, 0xab, 0xcd, 0xef, 0x89, 0xab,
        0xcd, 0xef,
    ];
    let p = Payload::List(vec![Payload::Int(0x01234567), Payload::Int(-0x76543211)]);
    assert_eq!(payload::payload(9, list), Ok((&list[13..], p)));
}

#[test]
fn fail_names_the_identifier() {
    assert_eq!(payload::fail(13, &NUMBER_IN), failure(Error::InvalidTagId(13), 0));
    assert_eq!(payload::fail(0, &[]), failure(Error::InvalidTagId(0), 0));
}

#[test]
fn wrapped_values_convert() {
    let payload::TPayload(v) = payload::TPayload(5i8);
    assert_eq!(payload::into::<i8, Payload>(v), Payload::Byte(5));
}

#[test]
fn payload_of_unknown_kind_fails_at_once() {
    assert_eq!(payload::payload(0, &NUMBER_IN), failure(Error::InvalidTagId(0), 0));
    assert_eq!(payload::payload(13, &NUMBER_IN), failure(Error::InvalidTagId(13), 0));
    assert_eq!(payload::payload(-1, &NUMBER_IN), failure(Error::InvalidTagId(-1), 0));
}

#[test]
fn compound_children_in_order() {
    let input: &[u8] = &[
        1, 0, 1, b'a', 5, // byte a = 5
        2, 0, 1, b'b', 0, 7, // short b = 7
        1, 0, 1, b'a', 9, // byte a = 9
        0, // end
        0xee,
    ];
    let tags = vec![
        Tag::Tag("a".to_string(), Payload::Byte(5)),
        Tag::Tag("b".to_string(), Payload::Short(7)),
        Tag::Tag("a".to_string(), Payload::Byte(9)),
    ];
    assert_eq!(payload::compound(input), Ok((&input[17..], tags)));
    let settled = Payload::Compound(vec![
        Tag::Tag("a".to_string(), Payload::Byte(9)),
        Tag::Tag("b".to_string(), Payload::Short(7)),
    ]);
    assert_eq!(payload::payload(10, input), Ok((&input[17..], settled)));
}

#[test]
fn compound_without_end_fails() {
    let input: &[u8] = &[1, 0, 1, b'a', 5];
    assert_eq!(payload::compound(input), failure(Error::UnexpectedEnd, 5));
    let input: &[u8] = &[1, 0, 1, b'a', 5, 13];
    assert_eq!(payload::compound(input), failure(Error::InvalidTagId(13), 6));
}

#[test]
fn compound_constructor_keeps_first_place_and_last_value() {
    let p = Payload::compound(vec![
        Tag::Tag("x".to_string(), Payload::Byte(1)),
        Tag::Tag("y".to_string(), Payload::Byte(2)),
        Tag::Tag("x".to_string(), Payload::Byte(3)),
        Tag::Tag("z".to_string(), Payload::Byte(4)),
        Tag::Tag("y".to_string(), Payload::Byte(5)),
    ]);
    let expected = Payload::Compound(vec![
        Tag::Tag("x".to_string(), Payload::Byte(3)),
        Tag::Tag("y".to_string(), Payload::Byte(5)),
        Tag::Tag("z".to_string(), Payload::Byte(4)),
    ]);
    assert_eq!(p, expected);
    assert_eq!(Payload::compound(Vec::new()), Payload::Compound(Vec::new()));
}

#[test]
fn constructors_and_ids() {
    assert_eq!(Payload::byte(&-3), Payload::Byte(-3));
    assert_eq!(Payload::short(&-3), Payload::Short(-3));
    assert_eq!(Payload::int32(&-3), Payload::Int(-3));
    assert_eq!(Payload::long(&-3), Payload::Long(-3));
    assert_eq!(Payload::float(&1.5f32.to_bits()), Payload::Float(0x3fc0_0000));
    assert_eq!(Payload::double(&1.5f64.to_bits()), Payload::Double(0x3ff8_0000_0000_0000));
    assert_eq!(Payload::byte_array(vec![1, 2]), Payload::ByteArray(vec![1, 2]));
    assert_eq!(Payload::string("hi"), Payload::String("hi".to_string()));
    assert_eq!(Payload::list(vec![Payload::Byte(1)]), Payload::List(vec![Payload::Byte(1)]));
    assert_eq!(Payload::int_array(vec![1, 2]), Payload::IntArray(vec![1, 2]));
    assert_eq!(Payload::long_array(vec![1, 2]), Payload::LongArray(vec![1, 2]));

    assert_eq!(Payload::Byte(0).id(), 1);
    assert_eq!(Payload::Short(0).id(), 2);
    assert_eq!(Payload::Int(0).id(), 3);
    assert_eq!(Payload::Long(0).id(), 4);
    assert_eq!(Payload::Float(0).id(), 5);
    assert_eq!(Payload::Double(0).id(), 6);
    assert_eq!(Payload::ByteArray(vec![]).id(), 7);
    assert_eq!(Payload::String(String::new()).id(), 8);
    assert_eq!(Payload::List(vec![]).id(), 9);
    assert_eq!(Payload::Compound(vec![]).id(), 10);
    assert_eq!(Payload::IntArray(vec![]).id(), 11);
    assert_eq!(Payload::LongArray(vec![]).id(), 12);
}

#[test]
fn array_with_negative_count_fails() {
    let input: &[u8] = &[0xff, 0xff, 0xff, 0xff, 1, 2, 3];
    assert_eq!(payload::byte_array(input), failure(Error::NegativeLength, 4));
    assert_eq!(payload::int_array(input), failure(Error::NegativeLength, 4));
    assert_eq!(payload::long_array(input), failure(Error::NegativeLength, 4));
}

#[test]
fn array_longer_than_input_fails() {
    let input: &[u8] = &[0, 0, 0, 4, 1, 2, 3];
    assert_eq!(payload::byte_array(input), failure(Error::UnexpectedEnd, 4));
    let input: &[u8] = &[0, 0, 0, 2, 1, 2, 3, 4, 5, 6, 7];
    assert_eq!(payload::int_array(input), failure(Error::UnexpectedEnd, 4));
    let input: &[u8] = &[0x7f, 0xff, 0xff, 0xff, 1, 2, 3, 4, 5, 6, 7, 8];
    assert_eq!(payload::long_array(input), failure(Error::UnexpectedEnd, 4));
    let input: &[u8] = &[0, 0];
    assert_eq!(payload::int_array(input), failure(Error::UnexpectedEnd, 0));
}

#[test]
fn string_with_malformed_text_fails() {
    let input: &[u8] = &[0, 2, 0xc3, 0x28, 9];
    assert_eq!(payload::string(input), failure(Error::InvalidText, 4));
    let input: &[u8] = &[0, 3, b'a'];
    assert_eq!(payload::string(input), failure(Error::UnexpectedEnd, 2));
}

#[test]
fn list_failure_is_counted_from_the_start() {
    // two shorts declared, one and a half present
    let input: &[u8] = &[2, 0, 0, 0, 2, 0, 1, 0];
    assert_eq!(payload::list(input), failure(Error::UnexpectedEnd, 7));
    // element kind that does not exist
    let input: &[u8] = &[13, 0, 0, 0, 1, 0];
    assert_eq!(payload::list(input), failure(Error::InvalidTagId(13), 5));
    // count missing
    let input: &[u8] = &[1, 0, 0];
    assert_eq!(payload::list(input), failure(Error::UnexpectedEnd, 1));
}

#[test]
fn list_without_elements_reads_no_element() {
    let input: &[u8] = &[13, 0, 0, 0, 0, 7, 7];
    assert_eq!(payload::list(input), Ok((&input[5..], Payload::List(vec![]))));
    let input: &[u8] = &[1, 0xff, 0xff, 0xff, 0xfe, 7, 7];
    assert_eq!(payload::list(input), Ok((&input[5..], Payload::List(vec![]))));
}
