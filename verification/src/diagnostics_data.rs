//! The first form of the diagnostics records: the MDCT coefficients of a
//! frame are kept as one list, in the order they are recorded.

use vstd::prelude::*;
use crate::types::{ShineConfig, ShineGlobalConfig};
pub use crate::diagnostics::{
    BitstreamData, ChannelMode, EncodingConfig, QuantizationData, TestMetadata,
};
use crate::diagnostics::{fallback_sb_samples, last_recorded_frame, shine_config_for};

verus! {

/// MDCT data of a frame.
#[derive(Debug)]
pub struct MdctData {
    /// Coefficients 15, 16 and 17 of band 0, as recorded.
    pub coefficients: Vec<i32>,
    /// Subband samples.
    pub l3_sb_sample: Vec<i32>,
}

/// The values recorded for one frame.
#[derive(Debug)]
pub struct FrameData {
    /// Frame number, from 1.
    pub frame_number: i32,
    pub mdct_coefficients: MdctData,
    pub quantization: QuantizationData,
    pub bitstream: BitstreamData,
}

/// A test case with the values recorded for its first frames.
#[derive(Debug)]
pub struct TestCaseData {
    pub metadata: TestMetadata,
    pub config: EncodingConfig,
    pub frames: Vec<FrameData>,
}

/// The test case data under its other name.
pub type TestDataSet = TestCaseData;

/// Collects the values of the first six frames of a test case.
#[derive(Debug)]
pub struct TestDataCollector {
    pub test_case: TestCaseData,
    pub current_frame: i32,
}

/// The record of a frame before any value is recorded for it.
pub open spec fn is_empty_frame(f: FrameData, frame_number: i32) -> bool {
    &&& f.frame_number == frame_number
    &&& f.mdct_coefficients.coefficients@.len() == 0
    &&& f.mdct_coefficients.l3_sb_sample@.len() == 0
    &&& f.quantization == QuantizationData {
        xrmax: 0,
        max_bits: 0,
        part2_3_length: 0,
        quantizer_step_size: 0,
        global_gain: 0,
    }
    &&& f.bitstream == BitstreamData { padding: 0, bits_per_frame: 0, written: 0, slot_lag: 0 }
}

/// Position of the first record of frame `n` at or after `start`.
pub open spec fn first_position_from(frames: Seq<FrameData>, n: i32, start: int) -> Option<int>
    decreases frames.len() - start,
{
    if start < 0 || start >= frames.len() {
        None
    } else if frames[start].frame_number == n {
        Some(start)
    } else {
        first_position_from(frames, n, start + 1)
    }
}

/// Position of the first record of frame `n`, if there is one.
pub open spec fn frame_position(frames: Seq<FrameData>, n: i32) -> Option<int> {
    first_position_from(frames, n, 0)
}

/// Two frame records hold the same values.
pub open spec fn same_frame(a: FrameData, b: FrameData) -> bool {
    &&& a.frame_number == b.frame_number
    &&& a.mdct_coefficients.coefficients@ == b.mdct_coefficients.coefficients@
    &&& a.mdct_coefficients.l3_sb_sample@ == b.mdct_coefficients.l3_sb_sample@
    &&& a.quantization == b.quantization
    &&& a.bitstream == b.bitstream
}

/// The records of `a` are those of `b`, but for the one at `skip`.
pub open spec fn same_frames_but(a: Seq<FrameData>, b: Seq<FrameData>, skip: int) -> bool {
    &&& a.len() == b.len()
    &&& forall|i: int| 0 <= i < a.len() && i != skip ==> same_frame(#[trigger] a[i], b[i])
}

/// What a recording does to the record of the current frame.
pub enum Recording {
    Coefficient { k: usize, value: i32 },
    SbSample { ch: usize, value: i32 },
    Quantization { quantization: QuantizationData },
    Bitstream { bitstream: BitstreamData },
}

/// Whether a recording applies to a frame numbered `current`.
pub open spec fn applies(r: Recording, current: i32) -> bool {
    current <= last_recorded_frame() && match r {
        Recording::Coefficient { k, .. } => 15 <= k <= 17,
        Recording::SbSample { ch, .. } => ch == 0,
        _ => true,
    }
}

/// The record `f` after recording `r` into it gives `g`.
pub open spec fn recorded_into(r: Recording, f: FrameData, g: FrameData) -> bool {
    &&& g.frame_number == f.frame_number
    &&& g.mdct_coefficients.coefficients@ == (match r {
        Recording::Coefficient { value, .. } => f.mdct_coefficients.coefficients@.push(value),
        _ => f.mdct_coefficients.coefficients@,
    })
    &&& g.mdct_coefficients.l3_sb_sample@ == (match r {
        Recording::SbSample { value, .. } => f.mdct_coefficients.l3_sb_sample@.push(value),
        _ => f.mdct_coefficients.l3_sb_sample@,
    })
    &&& g.quantization == (match r {
        Recording::Quantization { quantization } => quantization,
        _ => f.quantization,
    })
    &&& g.bitstream == (match r {
        Recording::Bitstream { bitstream } => bitstream,
        _ => f.bitstream,
    })
}

/// `n` is the collector `o` after `start_frame`.
pub open spec fn started_frame(o: TestDataCollector, frame_number: i32, n: TestDataCollector) -> bool {
    &&& n.current_frame == frame_number
    &&& n.test_case.config == o.test_case.config
    &&& n.test_case.metadata == o.test_case.metadata
    &&& if frame_number <= last_recorded_frame() && frame_position(
        o.test_case.frames@,
        frame_number,
    ) is None {
        &&& n.test_case.frames@.len() == o.test_case.frames@.len() + 1
        &&& same_frames_but(n.test_case.frames@.drop_last(), o.test_case.frames@, -1)
        &&& is_empty_frame(n.test_case.frames@.last(), frame_number)
    } else {
        n.test_case.frames@ == o.test_case.frames@
    }
}

/// `n` is the collector `o` after recording `r`.
pub open spec fn recorded(o: TestDataCollector, r: Recording, n: TestDataCollector) -> bool {
    &&& n.current_frame == o.current_frame
    &&& n.test_case.config == o.test_case.config
    &&& n.test_case.metadata == o.test_case.metadata
    &&& {
        let frames = o.test_case.frames@;
        let pos = frame_position(frames, o.current_frame);
        if applies(r, o.current_frame) && pos is Some {
            let i = pos.unwrap();
            &&& same_frames_but(n.test_case.frames@, frames, i)
            &&& recorded_into(r, frames[i], n.test_case.frames@[i])
        } else {
            n.test_case.frames@ == frames
        }
    }
}

impl MdctData {
    /// MDCT data with nothing recorded.
    pub fn empty() -> (m: Self)
        ensures
            m.coefficients@.len() == 0,
            m.l3_sb_sample@.len() == 0,
    {
        MdctData { coefficients: Vec::new(), l3_sb_sample: Vec::new() }
    }
}

impl TestDataCollector {
    /// Starts a collection for a test case, with no frame recorded.
    pub fn initialize(metadata: TestMetadata, config: EncodingConfig) -> (c: Self)
        ensures
            c.test_case.frames@.len() == 0,
            c.current_frame == 0,
            c.test_case.config == config,
            c.test_case.metadata == metadata,
    {
        TestDataCollector {
            test_case: TestCaseData { metadata, config, frames: Vec::new() },
            current_frame: 0,
        }
    }

    /// Position of the record of the current frame, if there is one.
    fn find_current(&self) -> (pos: Option<usize>)
        ensures
            pos matches Some(i) ==> frame_position(self.test_case.frames@, self.current_frame)
                == Some(i as int) && i < self.test_case.frames@.len(),
            pos is None ==> frame_position(self.test_case.frames@, self.current_frame) is None,
    {
        let frames = &self.test_case.frames;
        let mut i: usize = 0;
        while i < frames.len()
            invariant
                i <= frames.len(),
                frames@ == self.test_case.frames@,
                first_position_from(frames@, self.current_frame, 0) == first_position_from(
                    frames@,
                    self.current_frame,
                    i as int,
                ),
            decreases frames.len() - i,
        {
            if frames[i].frame_number == self.current_frame {
                return Some(i);
            }
            i = i + 1;
        }
        None
    }

    /// Makes `frame_number` the current frame and, if it is among the first
    /// six and has no record yet, adds an empty record for it.
    pub fn start_frame(&mut self, frame_number: i32)
        ensures
            started_frame(*old(self), frame_number, *final(self)),
    {
        self.current_frame = frame_number;
        let exists = self.find_current();
        if frame_number <= 6 && exists.is_none() {
            let frame_data = FrameData {
                frame_number,
                mdct_coefficients: MdctData::empty(),
                quantization: QuantizationData {
                    xrmax: 0,
                    max_bits: 0,
                    part2_3_length: 0,
                    quantizer_step_size: 0,
                    global_gain: 0,
                },
                bitstream: BitstreamData { padding: 0, bits_per_frame: 0, written: 0, slot_lag: 0 },
            };
            self.test_case.frames.push(frame_data);
            assert(self.test_case.frames@.drop_last() =~= old(self).test_case.frames@);
        }
    }

    /// Applies a recording to the record of the current frame, if the
    /// recording applies and the frame has a record.
    fn record(&mut self, r: Recording)
        ensures
            recorded(*old(self), r, *final(self)),
    {
        let applicable = self.current_frame <= 6 && match r {
            Recording::Coefficient { k, .. } => k >= 15 && k <= 17,
            Recording::SbSample { ch, .. } => ch == 0,
            _ => true,
        };
        if applicable {
            match self.find_current() {
                Some(i) => {
                    let mut frame = self.test_case.frames.remove(i);
                    match r {
                        Recording::Coefficient { value, .. } => {
                            frame.mdct_coefficients.coefficients.push(value);
                        },
                        Recording::SbSample { value, .. } => {
                            frame.mdct_coefficients.l3_sb_sample.push(value);
                        },
                        Recording::Quantization { quantization } => {
                            frame.quantization = quantization;
                        },
                        Recording::Bitstream { bitstream } => {
                            frame.bitstream = bitstream;
                        },
                    }
                    self.test_case.frames.insert(i, frame);
                    proof {
                        let a = self.test_case.frames@;
                        let b = old(self).test_case.frames@;
                        assert forall|j: int| 0 <= j < a.len() && j != i implies same_frame(
                            #[trigger] a[j],
                            b[j],
                        ) by {
                            assert(a[j] == b[j]);
                        }
                    }
                },
                None => {},
            }
        }
    }

    /// Appends MDCT coefficient `k` (15, 16 or 17) to the current frame's
    /// record, if the frame is among the first six and has a record.
    pub fn record_mdct_coefficient(&mut self, k: usize, value: i32)
        ensures
            recorded(*old(self), Recording::Coefficient { k, value }, *final(self)),
    {
        self.record(Recording::Coefficient { k, value });
    }

    /// Appends a subband sample of channel 0 to the current frame's record,
    /// if the frame is among the first six and has a record.
    pub fn record_l3_sb_sample(&mut self, ch: usize, value: i32)
        ensures
            recorded(*old(self), Recording::SbSample { ch, value }, *final(self)),
    {
        self.record(Recording::SbSample { ch, value });
    }

    /// Records the quantization parameters of the current frame, if it is
    /// among the first six and has a record.
    pub fn record_quantization(
        &mut self,
        xrmax: i32,
        max_bits: i32,
        part2_3_length: u32,
        quantizer_step_size: i32,
        global_gain: u32,
    )
        ensures
            recorded(
                *old(self),
                Recording::Quantization {
                    quantization: QuantizationData {
                        xrmax,
                        max_bits,
                        part2_3_length,
                        quantizer_step_size,
                        global_gain,
                    },
                },
                *final(self),
            ),
    {
        self.record(
            Recording::Quantization {
                quantization: QuantizationData {
                    xrmax,
                    max_bits,
                    part2_3_length,
                    quantizer_step_size,
                    global_gain,
                },
            },
        );
    }

    /// Records the bitstream parameters of the current frame, if it is among
    /// the first six and has a record; `slot_lag` is the bit pattern of an `f64`.
    pub fn record_bitstream(&mut self, padding: i32, bits_per_frame: i32, written: usize, slot_lag: u64)
        ensures
            recorded(
                *old(self),
                Recording::Bitstream {
                    bitstream: BitstreamData { padding, bits_per_frame, written, slot_lag },
                },
                *final(self),
            ),
    {
        self.record(
            Recording::Bitstream {
                bitstream: BitstreamData { padding, bits_per_frame, written, slot_lag },
            },
        );
    }
}

/// Starts frame `frame_number` in the collection, if one is running.
pub fn start_frame_collection(collector: &mut Option<TestDataCollector>, frame_number: i32)
    ensures
        match *old(collector) {
            None => *final(collector) is None,
            Some(c) => (*final(collector) matches Some(c2) && started_frame(c, frame_number, c2)),
        },
{
    match collector {
        Some(c) => c.start_frame(frame_number),
        None => {},
    }
}

/// Records an MDCT coefficient, if a collection is running.
pub fn record_mdct_coeff(collector: &mut Option<TestDataCollector>, k: usize, value: i32)
    ensures
        match *old(collector) {
            None => *final(collector) is None,
            Some(c) => (*final(collector) matches Some(c2) && recorded(
                c,
                Recording::Coefficient { k, value },
                c2,
            )),
        },
{
    match collector {
        Some(c) => c.record_mdct_coefficient(k, value),
        None => {},
    }
}

/// Records a subband sample, if a collection is running.
pub fn record_sb_sample(collector: &mut Option<TestDataCollector>, ch: usize, value: i32)
    ensures
        match *old(collector) {
            None => *final(collector) is None,
            Some(c) => (*final(collector) matches Some(c2) && recorded(
                c,
                Recording::SbSample { ch, value },
                c2,
            )),
        },
{
    match collector {
        Some(c) => c.record_l3_sb_sample(ch, value),
        None => {},
    }
}

/// Records quantization parameters, if a collection is running.
pub fn record_quant_data(
    collector: &mut Option<TestDataCollector>,
    xrmax: i32,
    max_bits: i32,
    part2_3_length: u32,
    quantizer_step_size: i32,
    global_gain: u32,
)
    ensures
        match *old(collector) {
            None => *final(collector) is None,
            Some(c) => (*final(collector) matches Some(c2) && recorded(
                c,
                Recording::Quantization {
                    quantization: QuantizationData {
                        xrmax,
                        max_bits,
                        part2_3_length,
                        quantizer_step_size,
                        global_gain,
                    },
                },
                c2,
            )),
        },
{
    match collector {
        Some(c) => c.record_quantization(xrmax, max_bits, part2_3_length, quantizer_step_size, global_gain),
        None => {},
    }
}

/// Records bitstream parameters, if a collection is running.
pub fn record_bitstream_data(
    collector: &mut Option<TestDataCollector>,
    padding: i32,
    bits_per_frame: i32,
    written: usize,
    slot_lag: u64,
)
    ensures
        match *old(collector) {
            None => *final(collector) is None,
            Some(c) => (*final(collector) matches Some(c2) && recorded(
                c,
                Recording::Bitstream {
                    bitstream: BitstreamData { padding, bits_per_frame, written, slot_lag },
                },
                c2,
            )),
        },
{
    match collector {
        Some(c) => c.record_bitstream(padding, bits_per_frame, written, slot_lag),
        None => {},
    }
}

/// A frame as encoded, with the values captured while encoding it.
#[derive(Debug)]
pub struct EncodedFrame {
    pub mdct_data: MdctData,
    pub quantization_data: QuantizationData,
    pub bitstream_data: BitstreamData,
    pub frame_data: Vec<u8>,
}

/// An encoder whose state is read back after each frame.
pub struct Encoder {
    config: Box<ShineGlobalConfig>,
}

/// Coefficients 17, 16 and 15 of band 0 of channel 0, granule 0, if the
/// stream has granules.
pub open spec fn captured_coefficients(config: ShineGlobalConfig) -> Seq<i32> {
    if config.mpeg.granules_per_frame > 0 {
        seq![config.mdct_freq[0][0][17], config.mdct_freq[0][0][16], config.mdct_freq[0][0][15]]
    } else {
        Seq::empty()
    }
}

impl Encoder {
    /// The encoder set up with parameters of `encoding_config`: mono mode
    /// for one channel, else stereo; no emphasis; not copyrighted; original.
    pub fn shine_config(encoding_config: &EncodingConfig) -> (c: ShineConfig)
        ensures
            c == shine_config_for(*encoding_config),
    {
        crate::diagnostics::Encoder::shine_config(encoding_config)
    }

    /// An encoder over an initialised encoder state.
    pub fn from_state(config: Box<ShineGlobalConfig>) -> (e: Self)
        ensures
            e.state() == *config,
    {
        Encoder { config }
    }

    /// The encoder state.
    pub closed spec fn state(&self) -> ShineGlobalConfig {
        *self.config
    }

    /// The MDCT data read from the encoder state: coefficients 17, 16 and
    /// 15 of band 0 and the first eight samples of subbands 0 to 2, of
    /// channel 0, granule 0.
    pub fn capture_mdct_data(&self) -> (m: MdctData)
        ensures
            m.coefficients@ == captured_coefficients(self.state()),
            m.l3_sb_sample@ == fallback_sb_samples(self.state()),
    {
        let mut coefficients: Vec<i32> = Vec::new();
        if self.config.mpeg.granules_per_frame > 0 {
            coefficients.push(self.config.mdct_freq[0][0][17]);
            coefficients.push(self.config.mdct_freq[0][0][16]);
            coefficients.push(self.config.mdct_freq[0][0][15]);
        }
        let mut l3_sb_sample: Vec<i32> = Vec::new();
        if self.config.mpeg.granules_per_frame != 0 {
            let mut sb: usize = 0;
            while sb < 3
                invariant
                    sb <= 3,
                    self.config.mpeg.granules_per_frame != 0,
                    l3_sb_sample@ == fallback_sb_samples(self.state()).take(8 * sb as int),
                decreases 3 - sb,
            {
                let mut i: usize = 0;
                while i < 8
                    invariant
                        sb < 3,
                        i <= 8,
                        self.config.mpeg.granules_per_frame != 0,
                        l3_sb_sample@ == fallback_sb_samples(self.state()).take(8 * sb + i),
                    decreases 8 - i,
                {
                    let v = self.config.l3_sb_sample[0][0][sb][i];
                    proof {
                        let all = fallback_sb_samples(self.state());
                        let j = 8 * sb + i;
                        assert(j / 8 == sb && j % 8 == i) by (nonlinear_arith)
                            requires
                                j == 8 * sb + i,
                                i < 8,
                        ;
                        assert(all.take(j + 1) =~= all.take(j as int).push(v));
                    }
                    l3_sb_sample.push(v);
                    i = i + 1;
                }
                sb = sb + 1;
            }
            assert(fallback_sb_samples(self.state()).take(24) =~= fallback_sb_samples(
                self.state(),
            ));
        } else {
            assert(l3_sb_sample@ =~= fallback_sb_samples(self.state()));
        }
        MdctData { coefficients, l3_sb_sample }
    }

    /// The quantization parameters of channel 0 of granule 0 in the encoder
    /// state, with the mean bits per granule as the bit budget.
    pub fn capture_quantization_data(&self) -> (q: QuantizationData)
        ensures
            q == (QuantizationData {
                global_gain: self.state().side_info.gr[0].ch[0].tt.global_gain,
                part2_3_length: self.state().side_info.gr[0].ch[0].tt.part2_3_length,
                max_bits: self.state().mean_bits,
                xrmax: self.state().l3loop.xrmax,
                quantizer_step_size: self.state().side_info.gr[0].ch[0].tt.quantizer_step_size,
            }),
    {
        let gr_info = &self.config.side_info.gr[0].ch[0].tt;
        QuantizationData {
            global_gain: gr_info.global_gain,
            part2_3_length: gr_info.part2_3_length,
            max_bits: self.config.mean_bits,
            xrmax: self.config.l3loop.xrmax,
            quantizer_step_size: gr_info.quantizer_step_size,
        }
    }
}

} // verus!
