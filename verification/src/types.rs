//! The encoder's frame state: granule information, side information, scale
//! factors and quantized spectra, with the constants and tables of the
//! Layer III format that the bitstream formatter reads.

use vstd::prelude::*;
use crate::bitstream::BitstreamWriter;

verus! {

/// Spectral lines in one granule.
pub const GRANULE_SIZE: usize = 576;

/// Most channels a frame carries.
pub const MAX_CHANNELS: usize = 2;

/// Most granules a frame carries.
pub const MAX_GRANULES: usize = 2;

/// Subbands of the analysis filterbank.
pub const SBLIMIT: usize = 32;

/// Number of bits of each long-block scale factor of bands 0 to 10, by
/// `scalefac_compress`.
pub const SHINE_SLEN1_TAB: [i32; 16] = [0, 0, 0, 0, 3, 1, 1, 1, 2, 2, 2, 3, 3, 3, 4, 4];

/// Number of bits of each long-block scale factor of bands 11 to 20, by
/// `scalefac_compress`.
pub const SHINE_SLEN2_TAB: [i32; 16] = [0, 1, 2, 3, 0, 1, 2, 3, 1, 2, 3, 1, 2, 3, 2, 3];

/// First spectral line of each long-block scale factor band, by sample rate
/// index (44.1, 48, 32, 22.05, 24, 16, 11.025, 12 and 8 kHz).
pub const SHINE_SCALE_FACT_BAND_INDEX: [[i32; 23]; 9] = [
    [0, 4, 8, 12, 16, 20, 24, 30, 36, 44, 52, 62, 74, 90, 110, 134, 162, 196, 238, 288, 342, 418, 576],
    [0, 4, 8, 12, 16, 20, 24, 30, 36, 42, 50, 60, 72, 88, 106, 128, 156, 190, 230, 276, 330, 384, 576],
    [0, 4, 8, 12, 16, 20, 24, 30, 36, 44, 54, 66, 82, 102, 126, 156, 194, 240, 296, 364, 448, 550, 576],
    [0, 6, 12, 18, 24, 30, 36, 44, 54, 66, 80, 96, 116, 140, 168, 200, 238, 284, 336, 396, 464, 522, 576],
    [0, 6, 12, 18, 24, 30, 36, 44, 54, 66, 80, 96, 114, 136, 162, 194, 232, 278, 332, 394, 464, 540, 576],
    [0, 6, 12, 18, 24, 30, 36, 44, 54, 66, 80, 96, 116, 140, 168, 200, 238, 284, 336, 396, 464, 522, 576],
    [0, 6, 12, 18, 24, 30, 36, 44, 54, 66, 80, 96, 116, 140, 168, 200, 238, 284, 336, 396, 464, 522, 576],
    [0, 6, 12, 18, 24, 30, 36, 44, 54, 66, 80, 96, 116, 140, 168, 200, 238, 284, 336, 396, 464, 522, 576],
    [0, 12, 24, 36, 48, 60, 72, 88, 108, 132, 160, 192, 232, 280, 336, 400, 476, 566, 568, 570, 572, 574, 576],
];

/// Quantization and coding parameters of one granule of one channel.
#[derive(Debug, Clone, Copy, PartialEq, Eq)]
pub struct GrInfo {
    pub part2_3_length: u32,
    pub big_values: u32,
    pub count1: u32,
    pub global_gain: u32,
    pub scalefac_compress: u32,
    pub table_select: [u32; 3],
    pub region0_count: u32,
    pub region1_count: u32,
    pub preflag: u32,
    pub scalefac_scale: u32,
    pub count1table_select: u32,
    pub part2_length: u32,
    pub sfb_lmax: u32,
    pub address1: u32,
    pub address2: u32,
    pub address3: u32,
    pub quantizer_step_size: i32,
    pub slen: [u32; 4],
}

impl GrInfo {
    /// The default granule information: global gain 210, 21 long-block
    /// scale factor bands, everything else zero.
    pub open spec fn default_spec() -> GrInfo {
        GrInfo {
            part2_3_length: 0,
            big_values: 0,
            count1: 0,
            global_gain: 210,
            scalefac_compress: 0,
            table_select: [0, 0, 0],
            region0_count: 0,
            region1_count: 0,
            preflag: 0,
            scalefac_scale: 0,
            count1table_select: 0,
            part2_length: 0,
            sfb_lmax: 21,
            address1: 0,
            address2: 0,
            address3: 0,
            quantizer_step_size: 0,
            slen: [0, 0, 0, 0],
        }
    }
}

impl Default for GrInfo {
    fn default() -> (g: Self)
        ensures
            g.part2_3_length == 0 && g.big_values == 0 && g.count1 == 0,
            g.global_gain == 210,
            g.scalefac_compress == 0,
            g.table_select@ == seq![0u32, 0u32, 0u32],
            g.region0_count == 0 && g.region1_count == 0,
            g.preflag == 0 && g.scalefac_scale == 0 && g.count1table_select == 0,
            g.part2_length == 0,
            g.sfb_lmax == 21,
            g.address1 == 0 && g.address2 == 0 && g.address3 == 0,
            g.quantizer_step_size == 0,
            g.slen@ == seq![0u32, 0u32, 0u32, 0u32],
            g == GrInfo::default_spec(),
    {
        let g = GrInfo {
            part2_3_length: 0,
            big_values: 0,
            count1: 0,
            global_gain: 210,
            scalefac_compress: 0,
            table_select: [0, 0, 0],
            region0_count: 0,
            region1_count: 0,
            preflag: 0,
            scalefac_scale: 0,
            count1table_select: 0,
            part2_length: 0,
            sfb_lmax: 21,
            address1: 0,
            address2: 0,
            address3: 0,
            quantizer_step_size: 0,
            slen: [0, 0, 0, 0],
        };
        assert(g.table_select@ =~= seq![0u32, 0u32, 0u32]);
        assert(g.slen@ =~= seq![0u32, 0u32, 0u32, 0u32]);
        g
    }
}

/// The side information of one channel of a granule.
#[derive(Debug, Clone, Copy)]
pub struct SideInfoChannel {
    pub tt: GrInfo,
}

/// The side information of one granule, by channel.
#[derive(Debug, Clone, Copy)]
pub struct SideInfoGranule {
    pub ch: [SideInfoChannel; 2],
}

/// The side information of a frame.
#[derive(Debug, Clone, Copy)]
pub struct ShineSideInfo {
    pub private_bits: u32,
    pub resv_drain: i32,
    pub scfsi: [[u32; 4]; 2],
    pub gr: [SideInfoGranule; 2],
}

/// Long-block scale factors, by granule, channel and band.
#[derive(Debug, Clone, Copy)]
pub struct ScaleFactors {
    pub l: [[[i32; 22]; 2]; 2],
}

/// The audio format being encoded.
#[derive(Debug, Clone, Copy)]
pub struct ShineWave {
    pub channels: i32,
    pub samplerate: i32,
}

/// The MPEG stream parameters an encoder is set up with.
#[derive(Debug, Clone, Copy)]
pub struct ShineMpeg {
    pub mode: i32,
    pub bitr: i32,
    pub emph: i32,
    pub copyright: i32,
    pub original: i32,
}

/// The audio format and stream parameters an encoder is set up with.
#[derive(Debug, Clone, Copy)]
pub struct ShineConfig {
    pub wave: ShineWave,
    pub mpeg: ShineMpeg,
}

/// State of the quantization loop that diagnostics read.
#[derive(Debug, Clone, Copy)]
pub struct L3Loop {
    /// Largest spectral magnitude of the granule being quantized.
    pub xrmax: i32,
}

/// The frame header fields and layout of the stream being encoded.
#[derive(Debug, Clone, Copy)]
pub struct MpegFrameInfo {
    pub version: i32,
    pub layer: i32,
    pub granules_per_frame: i32,
    pub mode: i32,
    pub bitr: i32,
    pub emph: i32,
    pub padding: i32,
    pub bits_per_frame: i32,
    pub bits_per_slot: i32,
    pub whole_slots_per_frame: i32,
    pub bitrate_index: i32,
    pub samplerate_index: i32,
    pub crc: i32,
    pub ext: i32,
    pub mode_ext: i32,
    pub copyright: i32,
    pub original: i32,
}

/// The encoder's state for the frame being formatted.
pub struct ShineGlobalConfig {
    pub wave: ShineWave,
    pub mpeg: MpegFrameInfo,
    pub bs: BitstreamWriter,
    pub side_info: ShineSideInfo,
    pub scalefactor: ScaleFactors,
    pub l3_enc: [[[i32; 576]; 2]; 2],
    pub mdct_freq: [[[i32; 576]; 2]; 2],
    pub l3_sb_sample: [[[[i32; 32]; 18]; 3]; 2],
    pub l3loop: L3Loop,
    pub mean_bits: i32,
    pub resv_size: i32,
    pub resv_max: i32,
}

/// `x` with its four bytes in reverse order.
pub open spec fn swapped_bytes(x: u32) -> int {
    (x % 256) * 16777216 + ((x / 256) % 256) * 65536 + ((x / 65536) % 256) * 256 + x / 16777216
}

/// Reverses the order of the four bytes of `x`.
pub fn swab32(x: u32) -> (r: u32)
    ensures
        r == swapped_bytes(x),
{
    (x % 256) * 16777216 + ((x / 256) % 256) * 65536 + ((x / 65536) % 256) * 256 + x / 16777216
}

/// The granule information as the quantization loop names it.
pub type GranuleInfo = GrInfo;

impl Default for ShineSideInfo {
    /// Side information with no private bits, no drain, no scale factor
    /// selection and default granule information.
    fn default() -> (si: Self)
        ensures
            si.private_bits == 0 && si.resv_drain == 0,
            forall|ch: int, b: int| 0 <= ch < 2 && 0 <= b < 4 ==> #[trigger] si.scfsi@[ch]@[b] == 0,
            forall|gr: int, ch: int|
                0 <= gr < 2 && 0 <= ch < 2 ==> (#[trigger] si.gr@[gr].ch@[ch]).tt
                    == GrInfo::default_spec(),
    {
        let chan = SideInfoChannel { tt: GrInfo::default() };
        let granule = SideInfoGranule { ch: [chan, chan] };
        ShineSideInfo { private_bits: 0, resv_drain: 0, scfsi: [[0; 4]; 2], gr: [granule, granule] }
    }
}

impl Default for ShineGlobalConfig {
    /// An encoder state with zeroed fields, default granule information,
    /// and a writer over a zeroed buffer of 8192 bytes.
    fn default() -> (c: Self)
        ensures
            c.wave.channels == 0 && c.wave.samplerate == 0,
            c.mpeg.granules_per_frame == 0,
            c.mean_bits == 0 && c.resv_size == 0 && c.resv_max == 0,
            c.bs.wf() && c.bs.data_position == 0 && c.bs.cache_bits == 32,
            c.l3loop.xrmax == 0,
            c.side_info.resv_drain == 0 && c.side_info.private_bits == 0,
            forall|gr: int, ch: int|
                0 <= gr < 2 && 0 <= ch < 2 ==> (#[trigger] c.side_info.gr@[gr].ch@[ch]).tt
                    == GrInfo::default_spec(),
    {
        let c = ShineGlobalConfig {
            wave: ShineWave { channels: 0, samplerate: 0 },
            mpeg: MpegFrameInfo {
                version: 0,
                layer: 0,
                granules_per_frame: 0,
                mode: 0,
                bitr: 0,
                emph: 0,
                padding: 0,
                bits_per_frame: 0,
                bits_per_slot: 0,
                whole_slots_per_frame: 0,
                bitrate_index: 0,
                samplerate_index: 0,
                crc: 0,
                ext: 0,
                mode_ext: 0,
                copyright: 0,
                original: 0,
            },
            bs: BitstreamWriter::default(),
            side_info: ShineSideInfo::default(),
            scalefactor: ScaleFactors { l: [[[0; 22]; 2]; 2] },
            l3_enc: [[[0; 576]; 2]; 2],
            mdct_freq: [[[0; 576]; 2]; 2],
            l3_sb_sample: [[[[0; 32]; 18]; 3]; 2],
            l3loop: L3Loop { xrmax: 0 },
            mean_bits: 0,
            resv_size: 0,
            resv_max: 0,
        };
        c
    }
}

} // verus!
