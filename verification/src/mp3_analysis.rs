//! Inspecting encoded frames: the header fields and the per-granule side
//! information of one frame, the places in a byte range that look like
//! frame headers, and hexadecimal dump lines.

use vstd::prelude::*;
use crate::mp3_frame::{be_u32, extract_bits, extracted_bits, read_be_u32};
use crate::mp3_validator::slice_range;

verus! {

/// Header fields of an analysed frame; the version has both its bits.
#[derive(Debug, Clone, Copy, PartialEq, Eq, Structural)]
pub struct HeaderSummary {
    pub mpeg_version: u32,
    pub layer: u32,
    pub bitrate_index: u32,
    pub sample_rate_index: u32,
    pub padding: u32,
    pub mode: u32,
}

/// Side information fields of one granule of a mono frame.
#[derive(Debug, Clone, Copy, PartialEq, Eq, Structural)]
pub struct GranuleSummary {
    pub part2_3_length: u16,
    pub big_values: u16,
    pub global_gain: u16,
}

impl GranuleSummary {
    /// Whether `big_values` is within the 288 pairs of a granule.
    pub fn big_values_within_limit(&self) -> (r: bool)
        ensures
            r == (self.big_values <= 288),
    {
        self.big_values <= 288
    }
}

/// What the analysis of an encoded frame found.
#[derive(Debug)]
pub enum FrameAnalysis {
    /// Fewer than 32 bytes.
    TooSmall,
    /// The first 11 bits, given, are not all set.
    InvalidSync(u32),
    /// The frame is too short for the side information of its mode.
    SideInfoTooShort(HeaderSummary),
    /// The header, and for a mono frame the fields of both granules.
    Analyzed(HeaderSummary, Vec<GranuleSummary>),
}

/// What analysing a frame finds, with the granule fields as a sequence.
pub enum Findings {
    TooSmall,
    InvalidSync(u32),
    SideInfoTooShort(HeaderSummary),
    Analyzed(HeaderSummary, Seq<GranuleSummary>),
}

/// The header fields of the word `w`.
pub open spec fn summary_of(w: u32) -> HeaderSummary {
    HeaderSummary {
        mpeg_version: (w >> 19) & 0x3,
        layer: (w >> 17) & 0x3,
        bitrate_index: (w >> 12) & 0xF,
        sample_rate_index: (w >> 10) & 0x3,
        padding: (w >> 9) & 0x1,
        mode: (w >> 6) & 0x3,
    }
}

/// Where granule `gr` of a mono frame starts in its side information:
/// after the main data pointer, private bits and scfsi (18 bits), 59 bits
/// per granule.
pub open spec fn granule_offset(gr: int) -> int {
    18 + 59 * gr
}

/// The fields of granule `gr` read from mono side information.
pub open spec fn granule_of(side: Seq<u8>, gr: int) -> GranuleSummary {
    GranuleSummary {
        part2_3_length: extracted_bits(side, granule_offset(gr), 12) as u16,
        big_values: extracted_bits(side, granule_offset(gr) + 12, 9) as u16,
        global_gain: extracted_bits(side, granule_offset(gr) + 21, 8) as u16,
    }
}

/// The side information length of a mode: 17 bytes for mono (3), else 32.
pub open spec fn side_len(mode: u32) -> int {
    if mode == 3 {
        17
    } else {
        32
    }
}

/// What analysing the encoded frame `f` finds.
pub open spec fn analysis_of(f: Seq<u8>) -> Findings {
    if f.len() < 32 {
        Findings::TooSmall
    } else {
        let w = be_u32(f, 0) as u32;
        if w >> 21 != 0x7FF {
            Findings::InvalidSync(w >> 21)
        } else {
            let h = summary_of(w);
            if f.len() < 4 + side_len(h.mode) {
                Findings::SideInfoTooShort(h)
            } else if h.mode == 3 {
                let side = f.subrange(4, 4 + side_len(h.mode));
                Findings::Analyzed(h, seq![granule_of(side, 0), granule_of(side, 1)])
            } else {
                Findings::Analyzed(h, Seq::empty())
            }
        }
    }
}

/// Analyses an encoded frame: checks its size and sync bits, reads its
/// header fields and, for a mono frame, the part 2 and 3 length, the
/// big values count and the global gain of both granules.
pub fn analyze_mp3_frame(frame: &[u8]) -> (r: FrameAnalysis)
    ensures
        match (r, analysis_of(frame@)) {
            (FrameAnalysis::TooSmall, Findings::TooSmall) => true,
            (FrameAnalysis::InvalidSync(a), Findings::InvalidSync(b)) => a == b,
            (FrameAnalysis::SideInfoTooShort(a), Findings::SideInfoTooShort(b)) => a == b,
            (FrameAnalysis::Analyzed(a, ga), Findings::Analyzed(b, gb)) => a == b && ga@ == gb,
            _ => false,
        },
{
    if frame.len() < 32 {
        return FrameAnalysis::TooSmall;
    }
    let header = read_be_u32(frame, 0);
    if header >> 21 != 0x7FF {
        return FrameAnalysis::InvalidSync(header >> 21);
    }
    let summary = HeaderSummary {
        mpeg_version: (header >> 19) & 0x3,
        layer: (header >> 17) & 0x3,
        bitrate_index: (header >> 12) & 0xF,
        sample_rate_index: (header >> 10) & 0x3,
        padding: (header >> 9) & 0x1,
        mode: (header >> 6) & 0x3,
    };
    let side_info_len: usize = if summary.mode == 3 { 17 } else { 32 };
    if frame.len() < 4 + side_info_len {
        return FrameAnalysis::SideInfoTooShort(summary);
    }
    let mut granules: Vec<GranuleSummary> = Vec::new();
    if summary.mode == 3 {
        let side_info = slice_range(frame, 4, 4 + side_info_len);
        let mut bit_offset: usize = 18;
        let mut gr: usize = 0;
        while gr < 2
            invariant
                gr <= 2,
                bit_offset == granule_offset(gr as int),
                side_info@ == frame@.subrange(4, 21),
                granules@ == Seq::new(gr as nat, |g: int| granule_of(side_info@, g)),
            decreases 2 - gr,
        {
            let part2_3_length = extract_bits(side_info, bit_offset, 12);
            let big_values = extract_bits(side_info, bit_offset + 12, 9);
            let global_gain = extract_bits(side_info, bit_offset + 21, 8);
            granules.push(GranuleSummary { part2_3_length, big_values, global_gain });
            assert(granules@ =~= Seq::new((gr + 1) as nat, |g: int| granule_of(side_info@, g)));
            bit_offset = bit_offset + 59;
            gr = gr + 1;
        }
        proof {
            let s = frame@.subrange(4, 21);
            assert(granules@ =~= seq![granule_of(s, 0), granule_of(s, 1)]);
        }
    }
    FrameAnalysis::Analyzed(summary, granules)
}

/// A place that starts with a frame sync word, and the header fields read
/// there.
#[derive(Debug, Clone, Copy, PartialEq, Eq, Structural)]
pub struct HeaderCandidate {
    pub position: u64,
    pub sync_word: u32,
    pub mpeg_version: u32,
    pub layer: u32,
    pub bitrate_index: u32,
    pub sample_rate_index: u32,
    pub channel_mode: u32,
}

/// The candidate read at offset `i` of a range starting at `start`.
pub open spec fn candidate_at(b: Seq<u8>, start: int, i: int) -> HeaderCandidate {
    let w = be_u32(b, i) as u32;
    HeaderCandidate {
        position: (start + i) as u64,
        sync_word: (w >> 20) & 0xFFF,
        mpeg_version: (w >> 19) & 0x1,
        layer: (w >> 17) & 0x3,
        bitrate_index: (w >> 12) & 0xF,
        sample_rate_index: (w >> 10) & 0x3,
        channel_mode: (w >> 6) & 0x3,
    }
}

/// The candidates among the first `n` offsets, in order: those whose
/// 12 sync bits are at least `0xFFE`.
pub open spec fn candidates_before(b: Seq<u8>, start: int, n: int) -> Seq<HeaderCandidate>
    decreases n,
{
    if n <= 0 {
        Seq::empty()
    } else {
        let prev = candidates_before(b, start, n - 1);
        if candidate_at(b, start, n - 1).sync_word >= 0xFFE {
            prev.push(candidate_at(b, start, n - 1))
        } else {
            prev
        }
    }
}

/// The offsets looked at in a range of `len` bytes: all but the last four.
pub open spec fn scanned_offsets(len: int) -> int {
    if len >= 4 {
        len - 4
    } else {
        0
    }
}

/// The places in `buffer`, which starts at `start_offset` in the file,
/// that begin with a frame sync word, with the header fields read there;
/// the last four offsets are not looked at.
pub fn analyze_mp3_headers(buffer: &[u8], start_offset: u64) -> (r: Vec<HeaderCandidate>)
    requires
        start_offset + buffer@.len() <= u64::MAX,
    ensures
        r@ == candidates_before(buffer@, start_offset as int, scanned_offsets(buffer@.len() as int)),
{
    let n = buffer.len().saturating_sub(4);
    let mut out: Vec<HeaderCandidate> = Vec::new();
    let mut i: usize = 0;
    while i < n
        invariant
            i <= n,
            n == scanned_offsets(buffer@.len() as int),
            start_offset + buffer@.len() <= u64::MAX,
            out@ == candidates_before(buffer@, start_offset as int, i as int),
        decreases n - i,
    {
        let header = read_be_u32(buffer, i);
        let sync_word = (header >> 20) & 0xFFF;
        if sync_word >= 0xFFE {
            out.push(
                HeaderCandidate {
                    position: start_offset + i as u64,
                    sync_word,
                    mpeg_version: (header >> 19) & 0x1,
                    layer: (header >> 17) & 0x3,
                    bitrate_index: (header >> 12) & 0xF,
                    sample_rate_index: (header >> 10) & 0x3,
                    channel_mode: (header >> 6) & 0x3,
                },
            );
        }
        i = i + 1;
    }
    out
}

/// The name of an MPEG version bit.
pub fn mpeg_version_name(version: u32) -> (r: &'static str)
    ensures
        r == (if version == 1 { "MPEG-1" } else { "MPEG-2/2.5" }),
{
    if version == 1 {
        "MPEG-1"
    } else {
        "MPEG-2/2.5"
    }
}

/// The name of a layer field.
pub fn layer_name(layer: u32) -> (r: &'static str)
    ensures
        r == (if layer == 1 {
            "Layer III"
        } else if layer == 2 {
            "Layer II"
        } else if layer == 3 {
            "Layer I"
        } else {
            "Reserved"
        }),
{
    match layer {
        1 => "Layer III",
        2 => "Layer II",
        3 => "Layer I",
        _ => "Reserved",
    }
}

/// The name of a channel mode field.
pub fn channel_mode_name(mode: u32) -> (r: &'static str)
    ensures
        r == (if mode == 0 {
            "Stereo"
        } else if mode == 1 {
            "Joint Stereo"
        } else if mode == 2 {
            "Dual Channel"
        } else if mode == 3 {
            "Mono"
        } else {
            "Unknown"
        }),
{
    match mode {
        0 => "Stereo",
        1 => "Joint Stereo",
        2 => "Dual Channel",
        3 => "Mono",
        _ => "Unknown",
    }
}

/// The upper-case hexadecimal digit of `d < 16`.
pub open spec fn hex_digit(d: int) -> u8 {
    if d < 10 {
        (48 + d) as u8
    } else {
        (55 + d) as u8
    }
}

/// The upper-case hexadecimal digits of `v`, zero-padded to `width`.
pub open spec fn hex_digits(v: nat, width: nat) -> Seq<u8>
    decreases v + width,
{
    if v < 16 && width <= 1 {
        seq![hex_digit(v as int)]
    } else {
        hex_digits(v / 16, if width > 0 { (width - 1) as nat } else { 0 }).push(
            hex_digit((v % 16) as int),
        )
    }
}

/// The cell of column `j` of a dump line: the byte in two hexadecimal
/// digits and a space, or three spaces past the chunk's end, and one more
/// space after the eighth column.
pub open spec fn dump_cell(chunk: Seq<u8>, j: int) -> Seq<u8> {
    (if j < chunk.len() {
        hex_digits(chunk[j] as nat, 2).push(32)
    } else {
        seq![32u8, 32, 32]
    }) + (if j == 7 {
        seq![32u8]
    } else {
        Seq::empty()
    })
}

/// The first `n` cells of a dump line.
pub open spec fn dump_cells(chunk: Seq<u8>, n: int) -> Seq<u8>
    decreases n,
{
    if n <= 0 {
        Seq::empty()
    } else {
        dump_cells(chunk, n - 1) + dump_cell(chunk, n - 1)
    }
}

/// A byte as shown in the text column: itself if printable ASCII, else `.`.
pub open spec fn shown_char(b: u8) -> u8 {
    if 32 <= b <= 126 {
        b
    } else {
        46
    }
}

/// The dump line of a chunk of at most 16 bytes at `offset`: the offset in
/// at least eight hexadecimal digits, `: `, sixteen cells, ` |`, the text
/// column and `|`.
pub open spec fn dump_line(offset: u64, chunk: Seq<u8>) -> Seq<u8> {
    hex_digits(offset as nat, 8) + seq![58u8, 32] + dump_cells(chunk, 16) + seq![32u8, 124]
        + Seq::new(chunk.len(), |i: int| shown_char(chunk[i])) + seq![124u8]
}

fn hex_digit_of(d: u64) -> (r: u8)
    requires
        d < 16,
    ensures
        r == hex_digit(d as int),
{
    if d < 10 {
        (48 + d) as u8
    } else {
        (55 + d) as u8
    }
}

/// Appends the hexadecimal digits of `v`, zero-padded to `width`.
fn push_hex_digits(v: u64, width: usize, out: &mut Vec<u8>)
    ensures
        final(out)@ == old(out)@ + hex_digits(v as nat, width as nat),
    decreases v + width,
{
    if v < 16 && width <= 1 {
        out.push(hex_digit_of(v));
        assert(hex_digits(v as nat, width as nat) == seq![hex_digit(v as int)]);
    } else {
        let w = if width > 0 { width - 1 } else { 0 };
        push_hex_digits(v / 16, w, out);
        out.push(hex_digit_of(v % 16));
        assert(hex_digits(v as nat, width as nat) == hex_digits((v / 16) as nat, w as nat).push(
            hex_digit((v % 16) as int),
        ));
    }
}

/// The dump line of a chunk of at most 16 bytes at `offset`.
pub fn hex_dump_line(offset: u64, chunk: &[u8]) -> (r: Vec<u8>)
    requires
        chunk@.len() <= 16,
    ensures
        r@ == dump_line(offset, chunk@),
{
    let mut out: Vec<u8> = Vec::new();
    push_hex_digits(offset, 8, &mut out);
    out.push(58);
    out.push(32);
    let ghost head = out@;
    let mut j: usize = 0;
    while j < 16
        invariant
            j <= 16,
            chunk@.len() <= 16,
            out@ == head + dump_cells(chunk@, j as int),
        decreases 16 - j,
    {
        let ghost before = out@;
        if j < chunk.len() {
            push_hex_digits(chunk[j] as u64, 2, &mut out);
            out.push(32);
        } else {
            out.push(32);
            out.push(32);
            out.push(32);
        }
        if j == 7 {
            out.push(32);
        }
        assert(out@ =~= before + dump_cell(chunk@, j as int));
        assert(dump_cells(chunk@, j + 1) == dump_cells(chunk@, j as int) + dump_cell(
            chunk@,
            j as int,
        ));
        assert(head + dump_cells(chunk@, j + 1) =~= before + dump_cell(chunk@, j as int));
        j = j + 1;
    }
    out.push(32);
    out.push(124);
    let ghost mid = out@;
    let mut i: usize = 0;
    while i < chunk.len()
        invariant
            i <= chunk@.len(),
            out@ == mid + Seq::new(i as nat, |k: int| shown_char(chunk@[k])),
        decreases chunk@.len() - i,
    {
        let b = chunk[i];
        let c = if 32 <= b && b <= 126 { b } else { 46 };
        out.push(c);
        assert(Seq::new((i + 1) as nat, |k: int| shown_char(chunk@[k])) =~= Seq::new(
            i as nat,
            |k: int| shown_char(chunk@[k]),
        ).push(c));
        i = i + 1;
    }
    out.push(124);
    assert(out@ =~= dump_line(offset, chunk@));
    out
}

/// The dump lines of `buffer`, which starts at `start_pos` in the file: one
/// for every 16 bytes, the last for what remains.
pub fn hex_dump(buffer: &[u8], start_pos: u64) -> (r: Vec<Vec<u8>>)
    requires
        start_pos + buffer@.len() <= u64::MAX,
    ensures
        r@.len() == (buffer@.len() + 15) / 16,
        forall|i: int|
            0 <= i < r@.len() ==> (#[trigger] r@[i])@ == dump_line(
                (start_pos + 16 * i) as u64,
                buffer@.subrange(
                    16 * i,
                    if 16 * i + 16 <= buffer@.len() { 16 * i + 16 } else { buffer@.len() as int },
                ),
            ),
{
    let len = buffer.len();
    let count = len / 16 + if len % 16 != 0 { 1 } else { 0 };
    assert(count == (len + 15) / 16);
    let mut lines: Vec<Vec<u8>> = Vec::new();
    let mut n: usize = 0;
    while n < count
        invariant
            len == buffer@.len(),
            count == (len + 15) / 16,
            n <= count,
            start_pos + buffer@.len() <= u64::MAX,
            lines@.len() == n,
            forall|i: int|
                0 <= i < n ==> (#[trigger] lines@[i])@ == dump_line(
                    (start_pos + 16 * i) as u64,
                    buffer@.subrange(
                        16 * i,
                        if 16 * i + 16 <= buffer@.len() { 16 * i + 16 } else { buffer@.len() as int },
                    ),
                ),
        decreases count - n,
    {
        let start = 16 * n;
        let end = if len - start >= 16 { start + 16 } else { len };
        let chunk = slice_range(buffer, start, end);
        let line = hex_dump_line(start_pos + start as u64, chunk);
        lines.push(line);
        n = n + 1;
    }
    lines
}

} // verus!
