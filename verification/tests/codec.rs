use biorite::codec::{compress_chunk_bytes, decompress_chunk_bytes};

#[test]
fn compression_round_trips() {
    let data: Vec<u8> = (0..5000u32).map(|i| (i % 7) as u8).collect();
    let packed = compress_chunk_bytes(&data);
    assert_ne!(packed, data);
    assert!(packed.len() < data.len());
    assert_eq!(&packed[0..4], &(data.len() as u32).to_le_bytes());
    assert_eq!(decompress_chunk_bytes(&packed), Some(data));
}

#[test]
fn compression_matches_lz4_flex() {
    let data = b"hello hello hello hello".to_vec();
    assert_eq!(compress_chunk_bytes(&data), lz4_flex::compress_prepend_size(&data));
}

#[test]
fn empty_input_round_trips() {
    let packed = compress_chunk_bytes(&[]);
    assert_eq!(&packed[0..4], &[0, 0, 0, 0]);
    assert_eq!(decompress_chunk_bytes(&packed), Some(Vec::new()));
}

#[test]
fn short_or_broken_input_is_refused() {
    assert_eq!(decompress_chunk_bytes(&[1, 2]), None);
    assert_eq!(decompress_chunk_bytes(&[10, 0, 0, 0, 0xff]), None);
}

#[test]
fn malformed_blocks_are_refused_without_panicking() {
    // announces nothing, then a literal run that does not fit the output
    assert_eq!(decompress_chunk_bytes(&[0, 0, 0, 0, 0x50, 1, 2, 3, 4, 5]), None);
    // a match that reaches back before the start of the output
    assert_eq!(decompress_chunk_bytes(&[8, 0, 0, 0, 0x14, 9, 5, 0]), None);
    // announces more bytes than the block holds
    let mut packed = compress_chunk_bytes(b"abcdefgh");
    packed[0] = 200;
    assert_eq!(decompress_chunk_bytes(&packed), None);
}
