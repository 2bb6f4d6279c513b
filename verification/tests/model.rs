use nbt_reader::nbt::types::{Payload, Tag, ID};

const ALL: [ID; 13] = [
    ID::End,
    ID::Byte,
    ID::Short,
    ID::Int,
    ID::Long,
    ID::Float,
    ID::Double,
    ID::ByteArray,
    ID::String,
    ID::List,
    ID::Compound,
    ID::IntArray,
    ID::LongArray,
];

fn one_of_each() -> Vec<Payload> {
    vec![
        Payload::Byte(-8),
        Payload::Short(-16),
        Payload::Int(-32),
        Payload::Long(-64),
        Payload::Float(1.5f32.to_bits()),
        Payload::Double(2.5f64.to_bits()),
        Payload::ByteArray(vec![1, 2, 255]),
        Payload::String("h\u{e9}llo".to_string()),
        Payload::List(vec![Payload::Byte(1), Payload::Byte(2)]),
        Payload::Compound(vec![
            Tag::Tag("a".to_string(), Payload::Byte(1)),
            Tag::Tag("b".to_string(), Payload::Short(2)),
            Tag::Tag("c".to_string(), Payload::Int(3)),
        ]),
        Payload::IntArray(vec![1, -2, 3, 4]),
        Payload::LongArray(vec![1, -2, 3, 4, 5]),
    ]
}

#[test]
fn raw_ids_are_zero_to_twelve() {
    for (i, id) in ALL.iter().enumerate() {
        assert_eq!(id.to_raw(), i as i8);
        assert!(ID::from_raw(i as i8) == *id);
    }
}

#[test]
fn id_names() {
    let names = [
        "END",
        "BYTE",
        "SHORT",
        "INT",
        "LONG",
        "FLOAT",
        "DOUBLE",
        "BYTE ARRAY",
        "STRING",
        "LIST",
        "COMPOUND",
        "INT ARRAY",
        "LONG ARRAY",
    ];
    for (id, name) in ALL.iter().zip(names) {
        assert_eq!(id.stringify(), name);
        assert_eq!(id.to_string(), name);
    }
}

#[test]
fn payload_kinds() {
    for (i, p) in one_of_each().iter().enumerate() {
        assert_eq!(p.to_raw_id(), i as i8 + 1);
        assert!(p.to_id() == ALL[i + 1]);
    }
}

#[test]
fn projections_match_their_own_variant_only() {
    for (i, p) in one_of_each().iter().enumerate() {
        assert_eq!(p.to_i8(), if i == 0 { Some(-8) } else { None });
        assert_eq!(p.to_i16(), if i == 1 { Some(-16) } else { None });
        assert_eq!(p.to_i32(), if i == 2 { Some(-32) } else { None });
        assert_eq!(p.to_i64(), if i == 3 { Some(-64) } else { None });
        assert_eq!(p.to_f32(), if i == 4 { Some(0x3fc0_0000) } else { None });
        assert_eq!(p.to_f64(), if i == 5 { Some(0x4004_0000_0000_0000) } else { None });
        assert_eq!(p.to_u8_vec().cloned(), if i == 6 { Some(vec![1, 2, 255]) } else { None });
        assert_eq!(p.to_str(), if i == 7 { Some("h\u{e9}llo") } else { None });
        assert_eq!(p.to_vec().map(|v| v.len()), if i == 8 { Some(2) } else { None });
        assert_eq!(p.to_map().map(|v| v.len()), if i == 9 { Some(3) } else { None });
        assert_eq!(p.to_i32_vec().cloned(), if i == 10 { Some(vec![1, -2, 3, 4]) } else { None });
        let longs = p.to_i64_vec().cloned();
        assert_eq!(longs, if i == 11 { Some(vec![1, -2, 3, 4, 5]) } else { None });
    }
}

#[test]
fn float_projections_give_the_number_back() {
    assert_eq!(Payload::Float(1.5f32.to_bits()).to_f32().map(f32::from_bits), Some(1.5));
    assert_eq!(Payload::Double(2.5f64.to_bits()).to_f64().map(f64::from_bits), Some(2.5));
}

#[test]
fn lengths() {
    let expected = [
        None,
        None,
        None,
        None,
        None,
        None,
        None,
        Some(5), // characters, not bytes
        Some(2),
        Some(3),
        Some(4),
        Some(5),
    ];
    for (p, n) in one_of_each().into_iter().zip(expected) {
        assert_eq!(p.len(), n);
        assert_eq!(Tag::new("t".to_string(), p).len(), n);
    }
    assert_eq!(Tag::End.len(), None);
    assert_eq!(Payload::String(String::new()).len(), Some(0));
    assert_eq!(Payload::List(vec![]).len(), Some(0));
}

#[test]
fn tag_accessors() {
    let end = Tag::end();
    assert_eq!(end, Tag::End);
    assert!(end.is_end());
    assert!(end.anon());
    assert_eq!(end.payload(), None);
    assert_eq!(end.name(), None);
    assert!(end.id() == ID::End);

    let anon = Tag::new(String::new(), Payload::Int(1));
    assert_eq!(anon, Tag::Tag(String::new(), Payload::Int(1)));
    assert!(!anon.is_end());
    assert!(anon.anon());
    assert_eq!(anon.payload(), Some(&Payload::Int(1)));
    assert_eq!(anon.name(), None);
    assert!(anon.id() == ID::Int);

    let tag = Tag::new("level".to_string(), Payload::Long(2));
    assert!(!tag.anon());
    assert_eq!(tag.payload(), Some(&Payload::Long(2)));
    assert_eq!(tag.name(), Some(&"level".to_string()));
    assert!(tag.id() == ID::Long);
}

#[test]
fn numbers_as_text() {
    assert_eq!(Payload::Byte(0).to_string(), "0");
    assert_eq!(Payload::Byte(-128).to_string(), "-128");
    assert_eq!(Payload::Byte(127).to_string(), "127");
    assert_eq!(Payload::Short(-32768).to_string(), "-32768");
    assert_eq!(Payload::Int(1_000_000).to_string(), "1000000");
    assert_eq!(Payload::Int(i32::MIN).to_string(), "-2147483648");
    assert_eq!(Payload::Long(i64::MIN).to_string(), "-9223372036854775808");
    assert_eq!(Payload::Long(i64::MAX).to_string(), "9223372036854775807");
    assert_eq!(Payload::Long(10).to_string(), "10");
    // floats are shown by the number that is their bit pattern
    assert_eq!(Payload::Float(0x3fc0_0000).to_string(), "1069547520");
    assert_eq!(Payload::Float(u32::MAX).to_string(), "4294967295");
    assert_eq!(Payload::Double(u64::MAX).to_string(), "18446744073709551615");
    assert_eq!(Payload::Double(0).to_string(), "0");
}

#[test]
fn collections_as_text() {
    assert_eq!(Payload::ByteArray(vec![]).to_string(), "[]");
    assert_eq!(Payload::ByteArray(vec![7]).to_string(), "[7]");
    assert_eq!(Payload::ByteArray(vec![1, 2, 255]).to_string(), "[1, 2, 255]");
    assert_eq!(Payload::IntArray(vec![1, -2, 3]).to_string(), "[1, -2, 3]");
    assert_eq!(Payload::LongArray(vec![i64::MIN, 0]).to_string(), "[-9223372036854775808, 0]");
    assert_eq!(Payload::String("plain text".to_string()).to_string(), "plain text");
    assert_eq!(Payload::List(vec![]).to_string(), "[]");
    assert_eq!(Payload::List(vec![Payload::Byte(1), Payload::Byte(-2)]).to_string(), "[1, -2]");
    assert_eq!(
        Payload::List(vec![Payload::List(vec![Payload::Short(1)]), Payload::List(vec![])])
            .to_string(),
        "[[1], []]"
    );
    // empty parts still get their separators
    let empty = || Payload::String(String::new());
    assert_eq!(Payload::List(vec![empty(), empty(), empty()]).to_string(), "[, , ]");
    assert_eq!(
        Payload::List(vec![empty(), Payload::String("x".to_string())]).to_string(),
        "[, x]"
    );
    let compound = Payload::Compound(vec![
        Tag::Tag("a".to_string(), Payload::Byte(1)),
        Tag::Tag("b".to_string(), Payload::IntArray(vec![2, 3])),
        Tag::Tag("c".to_string(), Payload::Compound(vec![])),
    ]);
    assert_eq!(compound.to_string(), "[BYTE: 1, INT ARRAY: [2, 3], COMPOUND: []]");
}

#[test]
fn tags_as_text() {
    assert_eq!(Tag::End.to_string(), "END");
    assert_eq!(Tag::Tag("n".to_string(), Payload::Byte(1)).to_string(), "BYTE: 1");
    assert_eq!(Tag::Tag(String::new(), Payload::Short(-1)).to_string(), "SHORT: -1");
    assert_eq!(
        Tag::Tag("s".to_string(), Payload::String("hi".to_string())).to_string(),
        "STRING: hi"
    );
    assert_eq!(
        Tag::Tag("l".to_string(), Payload::List(vec![Payload::Long(5)])).to_string(),
        "LIST: [5]"
    );
    assert_eq!(Tag::Tag("f".to_string(), Payload::Float(0)).to_string(), "FLOAT: 0");
    assert_eq!(Tag::Tag("d".to_string(), Payload::Double(1)).to_string(), "DOUBLE: 1");
    assert_eq!(
        Tag::Tag("b".to_string(), Payload::ByteArray(vec![1])).to_string(),
        "BYTE ARRAY: [1]"
    );
    assert_eq!(
        Tag::Tag("l".to_string(), Payload::LongArray(vec![1])).to_string(),
        "LONG ARRAY: [1]"
    );
}
