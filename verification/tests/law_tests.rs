//! Properties relating several operations, on concrete values.

use shine_rs::bitstream::{write_puts, BitstreamWriter};
use shine_rs::mp3_frame::extract_bits;
use shine_rs::word_writer;
use shine_rs::reservoir::shine_max_reservoir_bits_scaled;
use shine_rs::types::ShineGlobalConfig;

#[test]
fn written_fields_are_read_back() {
    let fields: [(u32, i32); 6] = [(0x7FF, 11), (3, 2), (1, 2), (0xABC, 12), (0, 3), (0x1234, 16)];
    let mut bs = BitstreamWriter::new(64);
    let mut offsets = Vec::new();
    for (val, n) in fields {
        offsets.push(bs.get_bits_count() as usize);
        bs.put_bits(val, n).unwrap();
    }
    bs.flush().unwrap();
    let data = bs.get_data().to_vec();
    for ((val, n), off) in fields.iter().zip(offsets) {
        assert_eq!(extract_bits(&data, off, *n as usize) as u32, *val);
    }

    let mut ww = word_writer::BitstreamWriter::new(64);
    for (val, n) in fields {
        ww.put_bits(val, n as u32).unwrap();
    }
    ww.flush().unwrap();
    assert_eq!(&ww.get_data()[..data.len()], &data[..]);
}

#[test]
fn flushed_stream_is_whole_bytes() {
    let mut bs = BitstreamWriter::new(16);
    bs.put_bits(0b101, 3).unwrap();
    bs.flush().unwrap();
    assert_eq!(bs.get_bits_count() % 8, 0);
    assert_eq!(bs.get_data(), &[0b1010_0000]);
}

#[test]
fn bit_count_after_writes_is_the_sum_of_widths() {
    let writes: [(u32, i32); 7] = [(1, 1), (0x3F, 6), (0xABCD, 16), (0, 0), (0x1FFFF, 17), (5, 3), (0xFFFF_FFFF, 32)];
    let mut bs = BitstreamWriter::new(8);
    let mut total = 0;
    for (val, n) in writes {
        bs.put_bits(val, n).unwrap();
        total += n;
        assert_eq!(bs.get_bits_count(), total);
    }
    assert_eq!(total, 75);
}

#[test]
fn writes_store_only_whole_words_and_keep_stored_bytes() {
    let mut bs = BitstreamWriter::new(8);
    bs.put_bits(0xDEAD_BEEF, 32).unwrap();
    let first = bs.get_data().to_vec();
    assert_eq!(first, vec![0xDE, 0xAD, 0xBE, 0xEF]);
    let writes: [(u32, i32); 5] = [(0x7, 3), (0x1FFF, 13), (0x3, 2), (0xFFFFF, 20), (0x1, 1)];
    let mut filled = 0;
    for (val, n) in writes {
        bs.put_bits(val, n).unwrap();
        filled += n;
        assert_eq!(bs.data_position % 4, 0);
        assert_eq!(bs.data_position, 4 + 4 * (filled / 32));
        assert_eq!(bs.cache_bits, 32 - filled % 32);
        assert_eq!(&bs.get_data()[..4], &first[..]);
    }
}

#[test]
fn bit_limit_grows_with_entropy() {
    let mut config = Box::new(ShineGlobalConfig::default());
    config.wave.channels = 2;
    config.mean_bits = 1000;
    config.resv_max = 2000;
    config.resv_size = 1000;
    let mut last = i32::MIN;
    for pe in (0..3000).step_by(50) {
        let bits = shine_max_reservoir_bits_scaled(pe, &config);
        assert!(bits >= last);
        last = bits;
    }
}

#[test]
fn test_bitstream_writer_buffer_expansion() {
    for count in [100usize, 150, 200] {
        let values: Vec<u32> = (0..count).map(|i| ((i * 37 + 11) % 256) as u32).collect();
        let mut bs = BitstreamWriter::new(16);
        for &val in &values {
            assert!(bs.put_bits(val, 8).is_ok(), "Buffer expansion should work");
        }
        assert!(bs.get_bits_count() > 0, "Should have written data");
        assert_eq!(bs.get_bits_count(), 8 * values.len() as i32);
        assert_eq!(bs.data.len(), bs.data_size as usize);
        assert!(bs.data_size >= bs.data_position);

        let mut ww = word_writer::BitstreamWriter::new(16);
        for &val in &values {
            assert!(ww.put_bits(val, 8).is_ok());
        }
        assert_eq!(ww.get_bits_count(), 8 * values.len() as i32);
        assert_eq!(ww.data.len(), ww.data_size);
    }
}

#[test]
fn a_list_of_valid_writes_is_accepted_whole() {
    let fields: Vec<(u32, i32)> = vec![(0x7FF, 11), (3, 2), (0, 0), (0xABCDE, 20), (1, 1)];
    let mut bs = BitstreamWriter::new(16);
    assert!(write_puts(&mut bs, &fields).is_ok());
    assert_eq!(bs.get_bits_count(), 34);
    assert_eq!(bs.data_position, 4);
    assert_eq!(bs.cache_bits, 30);

    let bad: Vec<(u32, i32)> = vec![(1, 1), (4, 2), (1, 1)];
    let mut bs = BitstreamWriter::new(16);
    assert!(write_puts(&mut bs, &bad).is_err());
    assert_eq!(bs.get_bits_count(), 1);
}

#[test]
fn stored_bytes_are_the_whole_words_written() {
    let writes: [(u32, i32); 6] = [(0xF, 4), (0xABC, 12), (0x1, 1), (0x7FFF, 15), (0x2A, 6), (0x155, 9)];
    let mut bs = BitstreamWriter::new(8);
    let mut bits: Vec<bool> = Vec::new();
    for (val, n) in writes {
        bs.put_bits(val, n).unwrap();
        for i in (0..n).rev() {
            bits.push((val >> i) & 1 == 1);
        }
        let whole = bits.len() / 32;
        let data = bs.get_data();
        assert_eq!(data.len(), 4 * whole);
        for (k, bit) in bits[..32 * whole].iter().enumerate() {
            assert_eq!((data[k / 8] >> (7 - k % 8)) & 1 == 1, *bit);
        }
    }
}
