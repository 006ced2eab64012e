//! Reading 16-bit PCM audio out of the bytes of a RIFF/WAVE file.
//!
//! A file is a `RIFF` header, the `WAVE` form type and a list of chunks,
//! each an identifier, a little-endian 32-bit size and that many bytes,
//! padded to an even length. The `fmt ` chunk gives the format, the `data`
//! chunks hold the interleaved samples.

use vstd::prelude::*;

verus! {

/// Why the bytes of a WAV file were refused.
#[derive(Debug, Clone, Copy, PartialEq, Eq, Structural)]
pub enum WavError {
    /// Fewer than 44 bytes.
    TooSmall,
    /// The file does not start with `RIFF`.
    NotRiff,
    /// The RIFF size is not the file's length less eight.
    InvalidRiffSize,
    /// The form type is not `WAVE`.
    NotWave,
    /// A chunk runs past the end of the file.
    InvalidChunkSize,
    /// The `fmt ` chunk is shorter than 16 bytes.
    InvalidFmtChunkSize,
    /// The format is not PCM.
    NotPcm,
    /// The samples are not 16-bit.
    UnsupportedBitsPerSample,
    /// A `data` chunk comes before any `fmt ` chunk.
    DataBeforeFmt,
    /// There is no `fmt ` chunk.
    NoFmtChunk,
    /// There is no `data` chunk.
    NoDataChunk,
    /// The `data` chunks hold no sample.
    NoAudioData,
    /// The file is not `RIFF` of form `WAVE`.
    NotValidWav,
}

impl WavError {
    /// A description of the error.
    pub fn message(&self) -> (r: &'static str)
        ensures
            r == match self {
                WavError::TooSmall => "WAV file too small",
                WavError::NotRiff => "Not a RIFF file",
                WavError::InvalidRiffSize => "Invalid RIFF file size",
                WavError::NotWave => "Not a WAVE file",
                WavError::InvalidChunkSize => "Invalid chunk size",
                WavError::InvalidFmtChunkSize => "Invalid fmt chunk size",
                WavError::NotPcm => "Only PCM format supported",
                WavError::UnsupportedBitsPerSample => "Only 16-bit samples supported",
                WavError::DataBeforeFmt => "Data chunk found before fmt chunk",
                WavError::NoFmtChunk => "No fmt chunk found",
                WavError::NoDataChunk => "No data chunk found",
                WavError::NoAudioData => "No audio data found",
                WavError::NotValidWav => "Not a valid WAV file",
            },
    {
        match self {
            WavError::TooSmall => "WAV file too small",
            WavError::NotRiff => "Not a RIFF file",
            WavError::InvalidRiffSize => "Invalid RIFF file size",
            WavError::NotWave => "Not a WAVE file",
            WavError::InvalidChunkSize => "Invalid chunk size",
            WavError::InvalidFmtChunkSize => "Invalid fmt chunk size",
            WavError::NotPcm => "Only PCM format supported",
            WavError::UnsupportedBitsPerSample => "Only 16-bit samples supported",
            WavError::DataBeforeFmt => "Data chunk found before fmt chunk",
            WavError::NoFmtChunk => "No fmt chunk found",
            WavError::NoDataChunk => "No data chunk found",
            WavError::NoAudioData => "No audio data found",
            WavError::NotValidWav => "Not a valid WAV file",
        }
    }
}

/// The little-endian 16-bit value at `i`.
pub open spec fn le_u16(b: Seq<u8>, i: int) -> int {
    b[i] + 256 * b[i + 1]
}

/// The little-endian 32-bit value at `i`.
pub open spec fn le_u32(b: Seq<u8>, i: int) -> int {
    b[i] + 256 * b[i + 1] + 65536 * b[i + 2] + 16777216 * b[i + 3]
}

/// The little-endian two's complement 16-bit sample at `i`.
pub open spec fn le_i16(b: Seq<u8>, i: int) -> i16 {
    let v = le_u16(b, i);
    if v < 32768 {
        v as i16
    } else {
        (v - 65536) as i16
    }
}

/// The four bytes at `i` are `c0 c1 c2 c3`.
pub open spec fn tag4(b: Seq<u8>, i: int, c0: u8, c1: u8, c2: u8, c3: u8) -> bool {
    &&& b[i] == c0
    &&& b[i + 1] == c1
    &&& b[i + 2] == c2
    &&& b[i + 3] == c3
}

/// `RIFF`
pub open spec fn is_riff(b: Seq<u8>, i: int) -> bool {
    tag4(b, i, 82, 73, 70, 70)
}

/// `WAVE`
pub open spec fn is_wave(b: Seq<u8>, i: int) -> bool {
    tag4(b, i, 87, 65, 86, 69)
}

/// `fmt `
pub open spec fn is_fmt(b: Seq<u8>, i: int) -> bool {
    tag4(b, i, 102, 109, 116, 32)
}

/// `data`
pub open spec fn is_data(b: Seq<u8>, i: int) -> bool {
    tag4(b, i, 100, 97, 116, 97)
}

/// The samples read from a `data` chunk spanning `start..end`: one for
/// every even offset, reading its second byte past the chunk's end (the
/// pad byte) where the file has one.
pub open spec fn chunk_samples(b: Seq<u8>, start: int, end: int) -> Seq<i16> {
    let count = if (end - start) % 2 == 1 && end == b.len() {
        (end - start) / 2
    } else {
        (end - start + 1) / 2
    };
    Seq::new(count as nat, |j: int| le_i16(b, start + 2 * j))
}

/// What the chunks read so far give: sample rate, channels, samples, and
/// whether a `fmt ` and a `data` chunk were seen.
pub struct ScanState {
    pub sample_rate: u32,
    pub channels: u16,
    pub samples: Seq<i16>,
    pub fmt_found: bool,
    pub data_found: bool,
}

/// The state before any chunk is read.
pub open spec fn initial_scan() -> ScanState {
    ScanState {
        sample_rate: 0,
        channels: 0,
        samples: Seq::empty(),
        fmt_found: false,
        data_found: false,
    }
}

/// The position of the chunk after the one at `pos` of `size` bytes.
pub open spec fn next_chunk(pos: int, size: int) -> int {
    pos + 8 + size + size % 2
}

/// Reads the chunks from `pos` on, refusing a chunk past the end, a short
/// or non-PCM or non-16-bit `fmt ` chunk and a `data` chunk before any
/// `fmt ` chunk.
pub open spec fn scan_strict(b: Seq<u8>, pos: int, st: ScanState) -> Result<ScanState, WavError>
    decreases b.len() - pos,
{
    if !(12 <= pos && pos < b.len() - 8) {
        Ok(st)
    } else {
        let size = le_u32(b, pos + 4);
        let start = pos + 8;
        let end = start + size;
        if end > b.len() {
            Err(WavError::InvalidChunkSize)
        } else {
            let step: Result<ScanState, WavError> = if is_fmt(b, pos) {
                if size < 16 {
                    Err(WavError::InvalidFmtChunkSize)
                } else if le_u16(b, start) != 1 {
                    Err(WavError::NotPcm)
                } else if le_u16(b, start + 14) != 16 {
                    Err(WavError::UnsupportedBitsPerSample)
                } else {
                    Ok(
                        ScanState {
                            sample_rate: le_u32(b, start + 4) as u32,
                            channels: le_u16(b, start + 2) as u16,
                            fmt_found: true,
                            ..st
                        },
                    )
                }
            } else if is_data(b, pos) {
                if !st.fmt_found {
                    Err(WavError::DataBeforeFmt)
                } else {
                    Ok(
                        ScanState {
                            samples: st.samples + chunk_samples(b, start, end),
                            data_found: true,
                            ..st
                        },
                    )
                }
            } else {
                Ok(st)
            };
            match step {
                Err(e) => Err(e),
                Ok(next) => if next_chunk(pos, size) >= b.len() {
                    Ok(next)
                } else {
                    scan_strict(b, next_chunk(pos, size), next)
                },
            }
        }
    }
}

/// What a strict read of the bytes of a WAV file gives: the samples, the
/// sample rate and the number of channels, or the first error met.
pub open spec fn parse_strict(b: Seq<u8>) -> Result<(Seq<i16>, u32, u16), WavError> {
    if b.len() < 44 {
        Err(WavError::TooSmall)
    } else if !is_riff(b, 0) {
        Err(WavError::NotRiff)
    } else if le_u32(b, 4) + 8 != b.len() {
        Err(WavError::InvalidRiffSize)
    } else if !is_wave(b, 8) {
        Err(WavError::NotWave)
    } else {
        match scan_strict(b, 12, initial_scan()) {
            Err(e) => Err(e),
            Ok(st) => if !st.fmt_found {
                Err(WavError::NoFmtChunk)
            } else if !st.data_found {
                Err(WavError::NoDataChunk)
            } else if st.samples.len() == 0 {
                Err(WavError::NoAudioData)
            } else {
                Ok((st.samples, st.sample_rate, st.channels))
            },
        }
    }
}

/// Whether the four bytes at `pos` are `c0 c1 c2 c3`.
fn tag_at(buf: &[u8], pos: usize, c0: u8, c1: u8, c2: u8, c3: u8) -> (r: bool)
    requires
        pos + 4 <= buf@.len(),
    ensures
        r == tag4(buf@, pos as int, c0, c1, c2, c3),
{
    buf[pos] == c0 && buf[pos + 1] == c1 && buf[pos + 2] == c2 && buf[pos + 3] == c3
}

/// The little-endian 16-bit value at `i`.
fn read_le_u16(buf: &[u8], i: usize) -> (r: u16)
    requires
        i + 2 <= buf@.len(),
    ensures
        r == le_u16(buf@, i as int),
{
    (buf[i] as u16) + (buf[i + 1] as u16) * 256
}

/// The little-endian 32-bit value at `i`.
fn read_le_u32(buf: &[u8], i: usize) -> (r: u32)
    requires
        i + 4 <= buf@.len(),
    ensures
        r == le_u32(buf@, i as int),
{
    (buf[i] as u32) + (buf[i + 1] as u32) * 256 + (buf[i + 2] as u32) * 65536 + (buf[i + 3] as u32)
        * 16777216
}

/// The little-endian 16-bit sample at `i`.
fn read_le_i16(buf: &[u8], i: usize) -> (r: i16)
    requires
        i + 2 <= buf@.len(),
    ensures
        r == le_i16(buf@, i as int),
{
    let v = read_le_u16(buf, i);
    if v < 32768 {
        v as i16
    } else {
        ((v as i32) - 65536) as i16
    }
}

/// Appends the samples of the `data` chunk spanning `start..end`.
fn push_chunk_samples(buf: &[u8], start: usize, end: usize, out: &mut Vec<i16>)
    requires
        start <= end <= buf@.len(),
    ensures
        final(out)@ == old(out)@ + chunk_samples(buf@, start as int, end as int),
{
    let len = buf.len();
    let span = end - start;
    let count = if span % 2 == 1 && end == len {
        span / 2
    } else {
        (span - span / 2)
    };
    assert(count == chunk_samples(buf@, start as int, end as int).len());
    let ghost before = out@;
    let mut j: usize = 0;
    while j < count
        invariant
            j <= count,
            start <= end <= buf@.len(),
            len == buf@.len(),
            count == chunk_samples(buf@, start as int, end as int).len(),
            count == (if (end - start) % 2 == 1 && end == len {
                (end - start) / 2
            } else {
                (end - start + 1) / 2
            }),
            out@ == before + chunk_samples(buf@, start as int, end as int).take(j as int),
        decreases count - j,
    {
        let i = start + 2 * j;
        let v = read_le_i16(buf, i);
        out.push(v);
        proof {
            let all = chunk_samples(buf@, start as int, end as int);
            assert(all.take(j + 1) =~= all.take(j as int).push(v));
        }
        j = j + 1;
    }
    proof {
        let all = chunk_samples(buf@, start as int, end as int);
        assert(all.take(count as int) =~= all);
    }
}

/// Reads 16-bit PCM audio out of the bytes of WAV files.
pub struct WavReader;

impl WavReader {
    /// Reads the samples, the sample rate and the number of channels out of
    /// the bytes of a WAV file, refusing anything but a well-formed file of
    /// 16-bit PCM audio with at least one sample.
    pub fn read_wav_data(buffer: &[u8]) -> (r: Result<(Vec<i16>, u32, u16), WavError>)
        ensures
            match (r, parse_strict(buffer@)) {
                (Ok((pcm, rate, channels)), Ok((s, srate, schannels))) => pcm@ == s && rate == srate
                    && channels == schannels,
                (Err(e), Err(se)) => e == se,
                _ => false,
            },
    {
        let len = buffer.len();
        if len < 44 {
            return Err(WavError::TooSmall);
        }
        if !tag_at(buffer, 0, 82, 73, 70, 70) {
            return Err(WavError::NotRiff);
        }
        let file_size = read_le_u32(buffer, 4);
        if (file_size as u64) + 8 != (len as u64) {
            return Err(WavError::InvalidRiffSize);
        }
        if !tag_at(buffer, 8, 87, 65, 86, 69) {
            return Err(WavError::NotWave);
        }
        let mut sample_rate: u32 = 0;
        let mut channels: u16 = 0;
        let mut pcm_data: Vec<i16> = Vec::new();
        let mut fmt_found = false;
        let mut data_found = false;
        let mut pos: usize = 12;
        while pos < len - 8
            invariant
                len == buffer@.len(),
                44 <= len,
                12 <= pos,
                is_riff(buffer@, 0),
                le_u32(buffer@, 4) + 8 == len,
                is_wave(buffer@, 8),
                scan_strict(buffer@, 12, initial_scan()) == scan_strict(
                    buffer@,
                    pos as int,
                    ScanState {
                        sample_rate,
                        channels,
                        samples: pcm_data@,
                        fmt_found,
                        data_found,
                    },
                ),
            decreases len - pos,
        {
            let ghost st = ScanState {
                sample_rate,
                channels,
                samples: pcm_data@,
                fmt_found,
                data_found,
            };
            let chunk_size = read_le_u32(buffer, pos + 4);
            let chunk_data_start = pos + 8;
            if (chunk_size as u64) > ((len - chunk_data_start) as u64) {
                assert(scan_strict(buffer@, pos as int, st) == Err::<ScanState, WavError>(WavError::InvalidChunkSize));
                return Err(WavError::InvalidChunkSize);
            }
            let chunk_data_end = chunk_data_start + chunk_size as usize;
            if tag_at(buffer, pos, 102, 109, 116, 32) {
                if chunk_size < 16 {
                    assert(scan_strict(buffer@, pos as int, st) == Err::<ScanState, WavError>(WavError::InvalidFmtChunkSize));
                    return Err(WavError::InvalidFmtChunkSize);
                }
                let audio_format = read_le_u16(buffer, chunk_data_start);
                if audio_format != 1 {
                    assert(scan_strict(buffer@, pos as int, st) == Err::<ScanState, WavError>(WavError::NotPcm));
                    return Err(WavError::NotPcm);
                }
                channels = read_le_u16(buffer, chunk_data_start + 2);
                sample_rate = read_le_u32(buffer, chunk_data_start + 4);
                let bits_per_sample = read_le_u16(buffer, chunk_data_start + 14);
                if bits_per_sample != 16 {
                    assert(scan_strict(buffer@, pos as int, st) == Err::<ScanState, WavError>(WavError::UnsupportedBitsPerSample));
                    return Err(WavError::UnsupportedBitsPerSample);
                }
                fmt_found = true;
            } else if tag_at(buffer, pos, 100, 97, 116, 97) {
                if !fmt_found {
                    assert(scan_strict(buffer@, pos as int, st) == Err::<ScanState, WavError>(WavError::DataBeforeFmt));
                    return Err(WavError::DataBeforeFmt);
                }
                push_chunk_samples(buffer, chunk_data_start, chunk_data_end, &mut pcm_data);
                data_found = true;
            }
            let ghost next_st = ScanState {
                sample_rate,
                channels,
                samples: pcm_data@,
                fmt_found,
                data_found,
            };
            if chunk_data_end >= len {
                assert(scan_strict(buffer@, pos as int, st) == Ok::<ScanState, WavError>(next_st));
                assert(scan_strict(buffer@, len as int, next_st) == Ok::<ScanState, WavError>(next_st));
                pos = len;
            } else {
                let next = if chunk_size % 2 == 1 {
                    chunk_data_end + 1
                } else {
                    chunk_data_end
                };
                assert(next == next_chunk(pos as int, chunk_size as int));
                pos = next;
            }
        }
        let ghost fin = ScanState {
            sample_rate,
            channels,
            samples: pcm_data@,
            fmt_found,
            data_found,
        };
        assert(scan_strict(buffer@, pos as int, fin) == Ok::<ScanState, WavError>(fin));
        if !fmt_found {
            return Err(WavError::NoFmtChunk);
        }
        if !data_found {
            return Err(WavError::NoDataChunk);
        }
        if pcm_data.len() == 0 {
            return Err(WavError::NoAudioData);
        }
        Ok((pcm_data, sample_rate, channels))
    }
}

/// Reads the chunks from `pos` on as far as they lie inside the file,
/// taking the format from a PCM `fmt ` chunk of at least 16 bytes, which
/// must be 16-bit, and the samples of every `data` chunk.
pub open spec fn scan_lenient(b: Seq<u8>, pos: int, st: ScanState) -> Result<ScanState, WavError>
    decreases b.len() - pos,
{
    if !(12 <= pos && pos < b.len() - 8) {
        Ok(st)
    } else {
        let size = le_u32(b, pos + 4);
        let start = pos + 8;
        let end = start + size;
        if end > b.len() {
            Ok(st)
        } else {
            let step: Result<ScanState, WavError> = if is_fmt(b, pos) {
                if size >= 16 && le_u16(b, start) == 1 {
                    if le_u16(b, start + 14) != 16 {
                        Err(WavError::UnsupportedBitsPerSample)
                    } else {
                        Ok(
                            ScanState {
                                sample_rate: le_u32(b, start + 4) as u32,
                                channels: le_u16(b, start + 2) as u16,
                                ..st
                            },
                        )
                    }
                } else {
                    Ok(st)
                }
            } else if is_data(b, pos) {
                Ok(ScanState { samples: st.samples + chunk_samples(b, start, end), ..st })
            } else {
                Ok(st)
            };
            match step {
                Err(e) => Err(e),
                Ok(next) => if next_chunk(pos, size) >= b.len() {
                    Ok(next)
                } else {
                    scan_lenient(b, next_chunk(pos, size), next)
                },
            }
        }
    }
}

/// What a lenient read of the bytes of a WAV file gives: the samples, the
/// sample rate and the number of channels (zero where no format was read),
/// or the error met.
pub open spec fn parse_lenient(b: Seq<u8>) -> Result<(Seq<i16>, u32, u16), WavError> {
    if b.len() < 44 {
        Err(WavError::TooSmall)
    } else if !is_riff(b, 0) || !is_wave(b, 8) {
        Err(WavError::NotValidWav)
    } else {
        match scan_lenient(b, 12, initial_scan()) {
            Err(e) => Err(e),
            Ok(st) => Ok((st.samples, st.sample_rate, st.channels)),
        }
    }
}

/// Reads the samples, the sample rate and the number of channels out of
/// the bytes of a WAV file, as far as its chunks can be read: chunks that
/// run past the end end the reading, a `fmt ` chunk that is short or not
/// PCM is passed over, and only a PCM format that is not 16-bit is refused.
pub fn read_wav_debug_data(buffer: &[u8]) -> (r: Result<(Vec<i16>, u32, u16), WavError>)
    ensures
        match (r, parse_lenient(buffer@)) {
            (Ok((pcm, rate, channels)), Ok((s, srate, schannels))) => pcm@ == s && rate == srate
                && channels == schannels,
            (Err(e), Err(se)) => e == se,
            _ => false,
        },
{
    let len = buffer.len();
    if len < 44 {
        return Err(WavError::TooSmall);
    }
    if !tag_at(buffer, 0, 82, 73, 70, 70) || !tag_at(buffer, 8, 87, 65, 86, 69) {
        return Err(WavError::NotValidWav);
    }
    let mut sample_rate: u32 = 0;
    let mut channels: u16 = 0;
    let mut pcm_data: Vec<i16> = Vec::new();
    let mut pos: usize = 12;
    while pos < len - 8
        invariant
            len == buffer@.len(),
            44 <= len,
            12 <= pos,
            is_riff(buffer@, 0),
            is_wave(buffer@, 8),
            scan_lenient(buffer@, 12, initial_scan()) == scan_lenient(
                buffer@,
                pos as int,
                ScanState {
                    sample_rate,
                    channels,
                    samples: pcm_data@,
                    fmt_found: false,
                    data_found: false,
                },
            ),
        ensures
            scan_lenient(buffer@, 12, initial_scan()) == Ok::<ScanState, WavError>(
                ScanState {
                    sample_rate,
                    channels,
                    samples: pcm_data@,
                    fmt_found: false,
                    data_found: false,
                },
            ),
        decreases len - pos,
    {
        let ghost st = ScanState {
            sample_rate,
            channels,
            samples: pcm_data@,
            fmt_found: false,
            data_found: false,
        };
        let chunk_size = read_le_u32(buffer, pos + 4);
        let chunk_data_start = pos + 8;
        if (chunk_size as u64) > ((len - chunk_data_start) as u64) {
            assert(scan_lenient(buffer@, pos as int, st) == Ok::<ScanState, WavError>(st));
            break;
        }
        let chunk_data_end = chunk_data_start + chunk_size as usize;
        if tag_at(buffer, pos, 102, 109, 116, 32) {
            if chunk_size >= 16 {
                let audio_format = read_le_u16(buffer, chunk_data_start);
                if audio_format == 1 {
                    let new_channels = read_le_u16(buffer, chunk_data_start + 2);
                    let new_rate = read_le_u32(buffer, chunk_data_start + 4);
                    let bits_per_sample = read_le_u16(buffer, chunk_data_start + 14);
                    if bits_per_sample != 16 {
                        assert(scan_lenient(buffer@, pos as int, st) == Err::<ScanState, WavError>(
                            WavError::UnsupportedBitsPerSample,
                        ));
                        return Err(WavError::UnsupportedBitsPerSample);
                    }
                    channels = new_channels;
                    sample_rate = new_rate;
                }
            }
        } else if tag_at(buffer, pos, 100, 97, 116, 97) {
            push_chunk_samples(buffer, chunk_data_start, chunk_data_end, &mut pcm_data);
        }
        let ghost next_st = ScanState {
            sample_rate,
            channels,
            samples: pcm_data@,
            fmt_found: false,
            data_found: false,
        };
        if chunk_data_end >= len {
            assert(scan_lenient(buffer@, pos as int, st) == Ok::<ScanState, WavError>(next_st));
            assert(scan_lenient(buffer@, len as int, next_st) == Ok::<ScanState, WavError>(next_st));
            pos = len;
        } else {
            let next = if chunk_size % 2 == 1 {
                chunk_data_end + 1
            } else {
                chunk_data_end
            };
            assert(next == next_chunk(pos as int, chunk_size as int));
            pos = next;
        }
    }
    Ok((pcm_data, sample_rate, channels))
}

/// Smallest, largest, mean (rounded toward zero) and range of a signal.
#[derive(Debug, Clone, Copy, PartialEq, Eq, Structural)]
pub struct SignalStats {
    pub min: i16,
    pub max: i16,
    pub avg: i64,
    pub dynamic_range: i32,
}

/// Smallest sample of a non-empty signal.
pub open spec fn seq_min(s: Seq<i16>) -> i16
    decreases s.len(),
{
    if s.len() <= 1 {
        s[0]
    } else {
        let m = seq_min(s.drop_last());
        if s.last() < m {
            s.last()
        } else {
            m
        }
    }
}

/// Largest sample of a non-empty signal.
pub open spec fn seq_max(s: Seq<i16>) -> i16
    decreases s.len(),
{
    if s.len() <= 1 {
        s[0]
    } else {
        let m = seq_max(s.drop_last());
        if s.last() > m {
            s.last()
        } else {
            m
        }
    }
}

/// Sum of the samples.
pub open spec fn seq_sum(s: Seq<i16>) -> int
    decreases s.len(),
{
    if s.len() == 0 {
        0
    } else {
        seq_sum(s.drop_last()) + s.last()
    }
}

/// `a / b` rounded toward zero, for positive `b`.
pub open spec fn div_toward_zero(a: int, b: int) -> int {
    if a >= 0 {
        a / b
    } else {
        -((-a) / b)
    }
}

proof fn lemma_sum_bounds(s: Seq<i16>)
    ensures
        -32768 * s.len() <= seq_sum(s) <= 32767 * s.len(),
    decreases s.len(),
{
    if s.len() > 0 {
        lemma_sum_bounds(s.drop_last());
    }
}

/// The smallest and largest sample, the mean rounded toward zero and the
/// range of a signal, if it has a sample.
pub fn signal_stats(pcm: &[i16]) -> (r: Option<SignalStats>)
    ensures
        pcm@.len() == 0 ==> r is None,
        pcm@.len() > 0 ==> r == Some(
            SignalStats {
                min: seq_min(pcm@),
                max: seq_max(pcm@),
                avg: div_toward_zero(seq_sum(pcm@), pcm@.len() as int) as i64,
                dynamic_range: (seq_max(pcm@) - seq_min(pcm@)) as i32,
            },
        ),
{
    let n = pcm.len();
    if n == 0 {
        return None;
    }
    let mut min_val = pcm[0];
    let mut max_val = pcm[0];
    let mut sum: i128 = pcm[0] as i128;
    let mut i: usize = 1;
    assert(pcm@.take(1).drop_last() =~= Seq::<i16>::empty());
    assert(seq_sum(Seq::<i16>::empty()) == 0);
    assert(pcm@.take(1).last() == pcm@[0]);
    assert(seq_sum(pcm@.take(1)) == pcm@[0]);
    while i < n
        invariant
            1 <= i <= n,
            n == pcm@.len(),
            min_val == seq_min(pcm@.take(i as int)),
            max_val == seq_max(pcm@.take(i as int)),
            sum == seq_sum(pcm@.take(i as int)),
            -32768 * i <= sum <= 32767 * i,
        decreases n - i,
    {
        let v = pcm[i];
        assert(pcm@.take(i + 1).drop_last() =~= pcm@.take(i as int));
        if v < min_val {
            min_val = v;
        }
        if v > max_val {
            max_val = v;
        }
        sum = sum + v as i128;
        i = i + 1;
    }
    assert(pcm@.take(n as int) =~= pcm@);
    let count = n as i128;
    let avg = if sum >= 0 {
        sum / count
    } else {
        -((-sum) / count)
    };
    assert(-32768 <= avg <= 32767) by (nonlinear_arith)
        requires
            avg == div_toward_zero(sum as int, count as int),
            -32768 * count <= sum <= 32767 * count,
            count >= 1,
    ;
    Some(
        SignalStats {
            min: min_val,
            max: max_val,
            avg: avg as i64,
            dynamic_range: max_val as i32 - min_val as i32,
        },
    )
}

} // verus!
