use std::io::Read;

use compress::zlib;
use nbt_reader::error::{DecodeError, Error};
use nbt_reader::nbt::decode::decode;
use nbt_reader::nbt::decode::decoder::Decoder;
use nbt_reader::nbt::types::{Payload, Tag};
use nbt_reader::region::{extract_chunk, inflated_chunk, parse_locations, parse_timestamps};

const SECTOR: usize = 4096;

/// A zlib stream that holds `data` in one stored block.
fn stored(data: &[u8]) -> Vec<u8> {
    let len = data.len() as u16;
    let mut stream = vec![0x78, 0x01, 0x01];
    stream.extend_from_slice(&len.to_le_bytes());
    stream.extend_from_slice(&(!len).to_le_bytes());
    stream.extend_from_slice(data);
    let (mut a, mut b) = (1u32, 0u32);
    for byte in data {
        a = (a + *byte as u32) % 65521;
        b = (b + a) % 65521;
    }
    stream.extend_from_slice(&((b << 16) | a).to_be_bytes());
    stream
}

fn inflate(stream: &[u8]) -> Option<Vec<u8>> {
    let mut out = Vec::new();
    match zlib::Decoder::new(stream).read_to_end(&mut out) {
        Ok(_) => Some(out),
        Err(_) => None,
    }
}

/// A region with one chunk, at sector 2, that holds `document`.
fn region_with(document: &[u8]) -> Vec<u8> {
    let stream = stored(document);
    let mut region = vec![0u8; 2 * SECTOR];
    region[4..8].copy_from_slice(&[0, 0, 2, 1]);
    region[SECTOR + 4..SECTOR + 8].copy_from_slice(&1_600_000_000u32.to_be_bytes());
    region.extend_from_slice(&(stream.len() as u32 + 1).to_be_bytes());
    region.push(2);
    region.extend_from_slice(&stream);
    region.resize(3 * SECTOR, 0);
    region
}

#[test]
fn chunk_of_a_region_is_found_inflated_and_decoded() {
    let document = [
        10, 0, 5, b'L', b'e', b'v', b'e', b'l', // compound Level
        3, 0, 4, b'x', b'P', b'o', b's', 0xff, 0xff, 0xff, 0xfe, // int xPos = -2
        11, 0, 3, b'm', b'a', b'p', 0, 0, 0, 2, 0, 0, 0, 1, 0, 0, 0, 2, // int array map
        0, // end
    ];
    let region = region_with(&document);

    let locations = parse_locations(&mut Decoder::new(&region[..SECTOR])).unwrap();
    assert_eq!(locations.len(), 1024);
    assert_eq!(locations[0], None);
    assert_eq!(locations[1], Some((2, 1)));
    assert!(locations[2..].iter().all(|entry| entry.is_none()));
    let stamps = parse_timestamps(&mut Decoder::new(&region[SECTOR..2 * SECTOR])).unwrap();
    assert_eq!(stamps[1], 1_600_000_000);

    let (sector, _) = locations[1].unwrap();
    let mut cursor = Decoder::new(&region);
    cursor.advance(sector * SECTOR).unwrap();
    let stream = extract_chunk(&mut cursor).unwrap();
    assert_eq!(stream, stored(&document));
    let bytes = inflated_chunk(inflate(&stream), sector * SECTOR).unwrap();
    assert_eq!(bytes, document);

    let level = Payload::Compound(vec![
        Tag::Tag("xPos".to_string(), Payload::Int(-2)),
        Tag::Tag("map".to_string(), Payload::IntArray(vec![1, 2])),
    ]);
    assert_eq!(decode(&bytes), Ok(Tag::Tag("Level".to_string(), level)));
}

#[test]
fn corrupt_stream_is_a_typed_error() {
    let mut stream = stored(&[1, 0, 0, 5]);
    // a stored block whose two lengths do not agree
    stream[5] ^= 0xff;
    let r = inflated_chunk(inflate(&stream), 2 * SECTOR);
    assert_eq!(r, Err(DecodeError { kind: Error::DecompressionFailed, offset: 2 * SECTOR }));
    // a header that is no zlib header
    let r = inflated_chunk(inflate(&[0, 0, 0]), 0);
    assert_eq!(r, Err(DecodeError { kind: Error::DecompressionFailed, offset: 0 }));
}

#[test]
fn chunk_beyond_the_end_of_the_region_fails() {
    let region = region_with(&[0]);
    let mut cursor = Decoder::new(&region);
    assert_eq!(
        cursor.advance(4 * SECTOR),
        Err(DecodeError { kind: Error::UnexpectedEnd, offset: 0 })
    );
    cursor.advance(3 * SECTOR).unwrap();
    assert_eq!(
        extract_chunk(&mut cursor),
        Err(DecodeError { kind: Error::UnexpectedEnd, offset: 3 * SECTOR })
    );
}
