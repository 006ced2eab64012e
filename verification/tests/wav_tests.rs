//! Reading PCM audio out of WAV bytes, strictly and leniently.

use shine_rs::wav::{read_wav_debug_data, signal_stats, WavError, WavReader};

fn chunk(id: &[u8; 4], body: &[u8]) -> Vec<u8> {
    let mut v = id.to_vec();
    v.extend_from_slice(&(body.len() as u32).to_le_bytes());
    v.extend_from_slice(body);
    if body.len() % 2 == 1 {
        v.push(0);
    }
    v
}

fn fmt_body(format: u16, channels: u16, rate: u32, bits: u16) -> Vec<u8> {
    let mut b = Vec::new();
    b.extend_from_slice(&format.to_le_bytes());
    b.extend_from_slice(&channels.to_le_bytes());
    b.extend_from_slice(&rate.to_le_bytes());
    let block = channels as u32 * bits as u32 / 8;
    b.extend_from_slice(&(rate * block).to_le_bytes());
    b.extend_from_slice(&(block as u16).to_le_bytes());
    b.extend_from_slice(&bits.to_le_bytes());
    b
}

fn samples_body(samples: &[i16]) -> Vec<u8> {
    samples.iter().flat_map(|s| s.to_le_bytes()).collect()
}

fn riff(chunks: &[Vec<u8>]) -> Vec<u8> {
    let mut body = b"WAVE".to_vec();
    for c in chunks {
        body.extend_from_slice(c);
    }
    let mut v = b"RIFF".to_vec();
    v.extend_from_slice(&(body.len() as u32).to_le_bytes());
    v.extend_from_slice(&body);
    v
}

fn wav(channels: u16, rate: u32, samples: &[i16]) -> Vec<u8> {
    riff(&[chunk(b"fmt ", &fmt_body(1, channels, rate, 16)), chunk(b"data", &samples_body(samples))])
}

#[test]
fn reads_samples_rate_and_channels() {
    let samples = [1i16, -2, 300, -32768, 32767, 0];
    let bytes = wav(2, 44100, &samples);
    let (pcm, rate, channels) = WavReader::read_wav_data(&bytes).unwrap();
    assert_eq!(pcm, samples.to_vec());
    assert_eq!(rate, 44100);
    assert_eq!(channels, 2);
}

#[test]
fn skips_unknown_chunks_and_joins_data_chunks() {
    let bytes = riff(&[
        chunk(b"LIST", b"abc"),
        chunk(b"fmt ", &fmt_body(1, 1, 8000, 16)),
        chunk(b"data", &samples_body(&[5, 6])),
        chunk(b"data", &samples_body(&[7])),
    ]);
    let (pcm, rate, channels) = WavReader::read_wav_data(&bytes).unwrap();
    assert_eq!(pcm, vec![5, 6, 7]);
    assert_eq!(rate, 8000);
    assert_eq!(channels, 1);
}

#[test]
fn wav_reader_reports_each_error() {
    assert_eq!(WavReader::read_wav_data(&[0u8; 20]), Err(WavError::TooSmall));

    let mut bytes = wav(1, 44100, &[1, 2, 3, 4]);
    bytes[0] = b'X';
    assert_eq!(WavReader::read_wav_data(&bytes), Err(WavError::NotRiff));

    let mut bytes = wav(1, 44100, &[1, 2, 3, 4]);
    bytes.push(0);
    assert_eq!(WavReader::read_wav_data(&bytes), Err(WavError::InvalidRiffSize));

    let mut bytes = wav(1, 44100, &[1, 2, 3, 4]);
    bytes[8] = b'X';
    assert_eq!(WavReader::read_wav_data(&bytes), Err(WavError::NotWave));

    let bytes = riff(&[chunk(b"fmt ", &fmt_body(3, 1, 44100, 16)), chunk(b"data", &samples_body(&[1, 2]))]);
    assert_eq!(WavReader::read_wav_data(&bytes), Err(WavError::NotPcm));

    let bytes = riff(&[chunk(b"fmt ", &fmt_body(1, 1, 44100, 8)), chunk(b"data", &samples_body(&[1, 2]))]);
    assert_eq!(WavReader::read_wav_data(&bytes), Err(WavError::UnsupportedBitsPerSample));

    let bytes = riff(&[chunk(b"fmt ", &fmt_body(1, 1, 44100, 16)[0..14]), chunk(b"data", &samples_body(&[1, 2, 3, 4, 5]))]);
    assert_eq!(WavReader::read_wav_data(&bytes), Err(WavError::InvalidFmtChunkSize));

    let bytes = riff(&[chunk(b"data", &samples_body(&[1, 2])), chunk(b"fmt ", &fmt_body(1, 1, 44100, 16))]);
    assert_eq!(WavReader::read_wav_data(&bytes), Err(WavError::DataBeforeFmt));

    let bytes = riff(&[chunk(b"LIST", &[0u8; 40])]);
    assert_eq!(WavReader::read_wav_data(&bytes), Err(WavError::NoFmtChunk));

    let bytes = riff(&[chunk(b"fmt ", &fmt_body(1, 1, 44100, 16)), chunk(b"LIST", &[0u8; 20])]);
    assert_eq!(WavReader::read_wav_data(&bytes), Err(WavError::NoDataChunk));

    let bytes = riff(&[chunk(b"fmt ", &fmt_body(1, 1, 44100, 16)), chunk(b"data", &[]), chunk(b"LIST", &[0u8; 4])]);
    assert_eq!(WavReader::read_wav_data(&bytes), Err(WavError::NoAudioData));

    let mut bytes = wav(1, 44100, &[1, 2, 3, 4, 5, 6]);
    let len = bytes.len();
    bytes[40] = 200;
    assert_eq!(len, 56);
    assert_eq!(WavReader::read_wav_data(&bytes), Err(WavError::InvalidChunkSize));
}

#[test]
fn error_messages() {
    assert_eq!(WavError::TooSmall.message(), "WAV file too small");
    assert_eq!(WavError::DataBeforeFmt.message(), "Data chunk found before fmt chunk");
    assert_eq!(WavError::NotValidWav.message(), "Not a valid WAV file");
}

#[test]
fn odd_data_chunk_reads_its_pad_byte() {
    let mut body = samples_body(&[0x0102]);
    body.push(0x7F);
    let bytes = riff(&[chunk(b"fmt ", &fmt_body(1, 1, 8000, 16)), chunk(b"data", &body), chunk(b"LIST", &[0u8; 2])]);
    let (pcm, _, _) = WavReader::read_wav_data(&bytes).unwrap();
    assert_eq!(pcm, vec![0x0102, 0x007F]);
}

#[test]
fn lenient_reader_passes_over_what_the_strict_one_refuses() {
    let bytes = riff(&[chunk(b"data", &samples_body(&[9, 8])), chunk(b"fmt ", &fmt_body(3, 2, 22050, 32))]);
    let (pcm, rate, channels) = read_wav_debug_data(&bytes).unwrap();
    assert_eq!(pcm, vec![9, 8]);
    assert_eq!(rate, 0);
    assert_eq!(channels, 0);

    let bytes = riff(&[chunk(b"fmt ", &fmt_body(1, 1, 8000, 8)), chunk(b"data", &samples_body(&[1, 2]))]);
    assert_eq!(read_wav_debug_data(&bytes), Err(WavError::UnsupportedBitsPerSample));

    let mut bytes = wav(1, 44100, &[1, 2, 3, 4]);
    bytes[8] = b'X';
    assert_eq!(read_wav_debug_data(&bytes), Err(WavError::NotValidWav));
    assert_eq!(read_wav_debug_data(&[0u8; 10]), Err(WavError::TooSmall));
}

#[test]
fn strict_and_lenient_readers_agree_on_good_files() {
    let bytes = wav(2, 48000, &[10, -10, 20, -20]);
    assert_eq!(WavReader::read_wav_data(&bytes), read_wav_debug_data(&bytes));
}

#[test]
fn signal_statistics() {
    assert_eq!(signal_stats(&[]), None);
    let s = signal_stats(&[-7, 3, 2]).unwrap();
    assert_eq!(s.min, -7);
    assert_eq!(s.max, 3);
    assert_eq!(s.avg, -0);
    assert_eq!(s.dynamic_range, 10);
    let s = signal_stats(&[-7, -2]).unwrap();
    assert_eq!(s.avg, -4);
    let s = signal_stats(&[i16::MIN, i16::MAX]).unwrap();
    assert_eq!(s.avg, 0);
    assert_eq!(s.dynamic_range, 65535);
}

#[test]
fn reads_what_hound_writes() {
    let spec = hound::WavSpec {
        channels: 2,
        sample_rate: 22050,
        bits_per_sample: 16,
        sample_format: hound::SampleFormat::Int,
    };
    let samples: Vec<i16> = (0..200).map(|i| ((i * 331) % 65536 - 32768) as i16).collect();
    let mut cursor = std::io::Cursor::new(Vec::new());
    {
        let mut writer = hound::WavWriter::new(&mut cursor, spec).unwrap();
        for s in &samples {
            writer.write_sample(*s).unwrap();
        }
        writer.finalize().unwrap();
    }
    let bytes = cursor.into_inner();
    let (pcm, rate, channels) = WavReader::read_wav_data(&bytes).unwrap();
    assert_eq!(pcm, samples);
    assert_eq!(rate, 22050);
    assert_eq!(channels, 2);

    let mut reader = hound::WavReader::new(std::io::Cursor::new(&bytes)).unwrap();
    let read_back: Vec<i16> = reader.samples::<i16>().map(|s| s.unwrap()).collect();
    assert_eq!(read_back, pcm);
}
