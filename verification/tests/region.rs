use nbt_reader::nbt::decode::decoder::Decoder;
use nbt_reader::region::{
    extract_chunk, inflated_chunk, parse_locations, parse_timestamps, DecodeError, Error,
};

fn fails<T>(kind: Error, offset: usize) -> Result<T, DecodeError> {
    Err(DecodeError { kind, offset })
}

#[test]
fn absent_chunk_is_not_a_chunk_at_sector_zero() {
    let table = [0, 0, 0, 0, 0, 0, 0, 5];
    let mut d = Decoder::new(&table);
    assert_eq!(parse_locations(&mut d), Ok(vec![None, Some((0, 5))]));
    assert_eq!(d.remaining(), 0);
}

#[test]
fn location_entries() {
    let table = [0, 0, 2, 1, 0x01, 0x02, 0x03, 0x04, 0xff, 0xff, 0xff, 0xff, 0, 0, 1, 0];
    let mut d = Decoder::new(&table);
    assert_eq!(
        parse_locations(&mut d),
        Ok(vec![Some((2, 1)), Some((0x010203, 4)), Some((0xffffff, 255)), Some((1, 0))])
    );
    assert_eq!(d.position(), 16);
}

#[test]
fn location_table_of_a_region_has_1024_entries() {
    let mut header = vec![0u8; 8192];
    header[4 * 1023 + 2] = 9;
    header[4 * 1023 + 3] = 1;
    header[4096..4100].copy_from_slice(&0x5f00_0001u32.to_be_bytes());
    let mut d = Decoder::new(&header[..4096]);
    let locations = parse_locations(&mut d).unwrap();
    assert_eq!(locations.len(), 1024);
    assert_eq!(locations[0], None);
    assert_eq!(locations[1023], Some((9, 1)));
    let mut d = Decoder::new(&header[4096..]);
    let stamps = parse_timestamps(&mut d).unwrap();
    assert_eq!(stamps.len(), 1024);
    assert_eq!(stamps[0], 0x5f00_0001);
    assert_eq!(stamps[1], 0);
}

#[test]
fn empty_tables() {
    assert_eq!(parse_locations(&mut Decoder::new(&[])), Ok(vec![]));
    assert_eq!(parse_timestamps(&mut Decoder::new(&[])), Ok(vec![]));
}

#[test]
fn timestamps_are_big_endian() {
    let table = [0, 0, 0, 1, 0x12, 0x34, 0x56, 0x78, 0xff, 0xff, 0xff, 0xff];
    let mut d = Decoder::new(&table);
    assert_eq!(parse_timestamps(&mut d), Ok(vec![1, 0x12345678, u32::MAX]));
    assert_eq!(d.position(), 12);
}

#[test]
fn tables_with_a_broken_last_entry_fail() {
    let table = [0, 0, 2, 1, 0, 0];
    let mut d = Decoder::new(&table);
    assert_eq!(parse_locations(&mut d), fails(Error::UnexpectedEnd, 4));
    assert_eq!(d.position(), 4);
    let mut d = Decoder::new(&table);
    assert_eq!(parse_timestamps(&mut d), fails(Error::UnexpectedEnd, 4));
    assert_eq!(d.position(), 4);
    assert_eq!(parse_locations(&mut Decoder::new(&[1])), fails(Error::UnexpectedEnd, 0));
}

#[test]
fn chunk_stream_is_cut_out() {
    let bytes = [0, 0, 0, 4, 2, 0x78, 0x9c, 0x03, 0xaa, 0xbb];
    let mut d = Decoder::new(&bytes);
    assert_eq!(extract_chunk(&mut d), Ok(vec![0x78, 0x9c, 0x03]));
    assert_eq!(d.position(), 8);
    assert_eq!(d.bytes(), &[0xaa, 0xbb]);
}

#[test]
fn chunk_at_an_offset() {
    let mut bytes = vec![0xeeu8; 10];
    bytes.extend_from_slice(&[0, 0, 0, 2, 2, 0x55]);
    let mut d = Decoder::new(&bytes);
    d.advance(10).unwrap();
    assert_eq!(extract_chunk(&mut d), Ok(vec![0x55]));
    assert_eq!(d.position(), 16);
}

#[test]
fn chunk_with_an_empty_stream() {
    let bytes = [0, 0, 0, 1, 2, 9];
    let mut d = Decoder::new(&bytes);
    assert_eq!(extract_chunk(&mut d), Ok(vec![]));
    assert_eq!(d.position(), 5);
}

#[test]
fn unsupported_compression_is_refused() {
    for method in [0u8, 1, 3, 4, 127, 255] {
        let bytes = [0, 0, 0, 3, method, 0x78, 0x9c];
        let mut d = Decoder::new(&bytes);
        assert_eq!(extract_chunk(&mut d), fails(Error::UnsupportedCompression(method), 5));
        assert_eq!(d.position(), 5);
        assert_eq!(d.remaining(), 2);
    }
    // the method is looked at before the length
    let bytes = [0, 0, 0, 0, 1];
    let mut d = Decoder::new(&bytes);
    assert_eq!(extract_chunk(&mut d), fails(Error::UnsupportedCompression(1), 5));
    let bytes = [0xff, 0xff, 0xff, 0xff, 3];
    let mut d = Decoder::new(&bytes);
    assert_eq!(extract_chunk(&mut d), fails(Error::UnsupportedCompression(3), 5));
}

#[test]
fn chunk_failures() {
    assert_eq!(extract_chunk(&mut Decoder::new(&[])), fails(Error::UnexpectedEnd, 0));
    assert_eq!(extract_chunk(&mut Decoder::new(&[0, 0, 1])), fails(Error::UnexpectedEnd, 0));
    assert_eq!(extract_chunk(&mut Decoder::new(&[0, 0, 0, 1])), fails(Error::UnexpectedEnd, 4));
    // a length that does not even count the method byte
    assert_eq!(extract_chunk(&mut Decoder::new(&[0, 0, 0, 0, 2])), fails(Error::NegativeLength, 5));
    // a stream that is longer than the input
    let bytes = [0, 0, 0, 4, 2, 1, 2];
    let mut d = Decoder::new(&bytes);
    assert_eq!(extract_chunk(&mut d), fails(Error::UnexpectedEnd, 5));
    assert_eq!(d.position(), 5);
    let bytes = [0xff, 0xff, 0xff, 0xff, 2, 1, 2];
    assert_eq!(extract_chunk(&mut Decoder::new(&bytes)), fails(Error::UnexpectedEnd, 5));
}

#[test]
fn inflated_chunk_maps_a_corrupt_stream_to_an_error() {
    assert_eq!(inflated_chunk(Some(vec![1, 2, 3]), 8192), Ok(vec![1, 2, 3]));
    assert_eq!(inflated_chunk(Some(vec![]), 0), Ok(vec![]));
    assert_eq!(inflated_chunk(None, 8192), fails(Error::DecompressionFailed, 8192));
}
