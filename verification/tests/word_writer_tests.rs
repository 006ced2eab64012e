//! The word-caching bit writer: creation, writes and flushing.

use shine_rs::word_writer::BitstreamWriter;

#[test]
fn test_bitstream_writer_creation() {
    let bs = BitstreamWriter::new(1024);
    assert_eq!(bs.data_size, 1024);
    assert_eq!(bs.data_position, 0);
    assert_eq!(bs.cache, 0);
    assert_eq!(bs.cache_bits, 32);
}

#[test]
fn test_bitstream_writer_simple_write() {
    let mut bs = BitstreamWriter::new(1024);

    assert!(bs.put_bits(0b1010, 4).is_ok());
    assert_eq!(bs.get_bits_count(), 4);

    assert!(bs.put_bits(0b11, 2).is_ok());
    assert_eq!(bs.get_bits_count(), 6);
}

#[test]
fn test_bitstream_writer_flush() {
    let mut bs = BitstreamWriter::new(1024);

    bs.put_bits(0xff, 8).unwrap();
    bs.flush().unwrap();

    let data = bs.get_data();
    assert!(!data.is_empty());
}

#[test]
fn word_writer_flush_stores_the_whole_cache_word() {
    let mut bs = BitstreamWriter::new(16);
    bs.put_bits(0xAB, 8).unwrap();
    bs.put_bits(0x5, 4).unwrap();
    bs.flush().unwrap();
    assert_eq!(bs.get_data(), &[0xAB, 0x50, 0x00, 0x00]);
    assert_eq!(bs.cache_bits, 32);
}

#[test]
fn word_writer_stores_full_words_big_endian() {
    let mut bs = BitstreamWriter::new(8);
    bs.put_bits(0x1234, 16).unwrap();
    bs.put_bits(0x5678, 16).unwrap();
    assert_eq!(bs.get_data(), &[0x12, 0x34, 0x56, 0x78]);
    assert_eq!(bs.get_bits_count(), 32);
    bs.put_bits(0x9ABC_DEF0, 32).unwrap();
    assert_eq!(bs.get_data(), &[0x12, 0x34, 0x56, 0x78, 0x9A, 0xBC, 0xDE, 0xF0]);
    assert!(bs.data_size >= 8);
}

#[test]
fn word_writer_refuses_values_wider_than_the_count() {
    let mut bs = BitstreamWriter::new(8);
    assert!(bs.put_bits(0x10, 4).is_err());
    assert!(bs.put_bits(1, 33).is_err());
    assert_eq!(bs.get_bits_count(), 0);
}

#[test]
fn word_writer_default_has_8192_bytes() {
    let bs = BitstreamWriter::default();
    assert_eq!(bs.data_size, 8192);
    assert_eq!(bs.data.len(), 8192);
}

#[test]
fn writing_no_bits_changes_nothing() {
    let mut bs = BitstreamWriter::new(1024);
    assert!(bs.put_bits(0, 0).is_ok());
    assert_eq!(bs.cache_bits, 32);
    assert_eq!(bs.cache, 0);
    assert_eq!(bs.get_bits_count(), 0);
    bs.put_bits(0b11, 2).unwrap();
    assert!(bs.put_bits(0, 0).is_ok());
    assert_eq!(bs.get_bits_count(), 2);
    assert!(bs.put_bits(1, 0).is_err());
}

#[test]
fn small_word_writers_can_be_read() {
    for size in 0..8 {
        let bs = BitstreamWriter::new(size);
        assert_eq!(bs.get_bits_count(), 0);
        assert!(bs.get_data().is_empty());
    }
}

#[test]
fn a_second_flush_changes_nothing() {
    let mut bs = BitstreamWriter::new(16);
    bs.put_bits(0xAB, 8).unwrap();
    bs.flush().unwrap();
    let data = bs.get_data().to_vec();
    let size = bs.data_size;
    bs.flush().unwrap();
    assert_eq!(bs.get_data(), &data[..]);
    assert_eq!(bs.data_size, size);
}
