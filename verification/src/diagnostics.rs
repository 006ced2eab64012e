//! Records of intermediate encoding values for the first frames of a test
//! case, for comparison with reference data: MDCT coefficients before and
//! after aliasing reduction, subband samples, quantization and bitstream
//! parameters.

use vstd::prelude::*;
use crate::types::{ShineConfig, ShineGlobalConfig, ShineMpeg, ShineWave};

verus! {

/// MDCT data of a frame.
#[derive(Debug)]
pub struct MdctData {
    /// Coefficients k = 17, 16, 15 before aliasing reduction.
    pub coefficients_before_aliasing: Vec<i32>,
    /// Coefficients k = 17, 16, 15 after aliasing reduction.
    pub coefficients_after_aliasing: Vec<i32>,
    /// Subband samples.
    pub l3_sb_sample: Vec<i32>,
}

/// Quantization parameters of a frame.
#[derive(Debug, Clone, Copy, PartialEq, Eq, Structural)]
pub struct QuantizationData {
    pub xrmax: i32,
    pub max_bits: i32,
    pub part2_3_length: u32,
    pub quantizer_step_size: i32,
    pub global_gain: u32,
}

/// Bitstream parameters of a frame. The slot lag is held as the bit
/// pattern of its `f64` value.
#[derive(Debug, Clone, Copy, PartialEq, Eq, Structural)]
pub struct BitstreamData {
    pub padding: i32,
    pub bits_per_frame: i32,
    pub written: usize,
    pub slot_lag: u64,
}

/// The values recorded for one frame.
#[derive(Debug)]
pub struct FrameData {
    /// Frame number, from 1.
    pub frame_number: i32,
    pub mdct_coefficients: MdctData,
    pub quantization: QuantizationData,
    pub bitstream: BitstreamData,
}

/// Description of a test case.
#[derive(Debug)]
pub struct TestMetadata {
    pub name: String,
    pub input_file: String,
    pub expected_output_size: usize,
    pub expected_hash: String,
    pub created_at: String,
    pub description: String,
}

/// The encoding parameters of a test case.
#[derive(Debug, Clone, Copy, PartialEq, Eq, Structural)]
pub struct EncodingConfig {
    pub sample_rate: i32,
    pub channels: i32,
    pub bitrate: i32,
    pub stereo_mode: i32,
    pub mpeg_version: i32,
}

/// A test case with the values recorded for its first frames.
#[derive(Debug)]
pub struct TestCaseData {
    pub metadata: TestMetadata,
    pub config: EncodingConfig,
    pub frames: Vec<FrameData>,
}

/// Collects the values of the first six frames of a test case.
#[derive(Debug)]
pub struct TestDataCollector {
    pub test_case: TestCaseData,
    pub current_frame: i32,
}

/// Channel modes.
#[derive(Debug, Clone, Copy, PartialEq, Eq, Structural)]
pub enum ChannelMode {
    Mono,
    Stereo,
}

/// Frames numbered up to this are recorded.
pub open spec fn last_recorded_frame() -> int {
    6
}

/// The record of a frame before any value is recorded for it.
pub open spec fn is_empty_frame(f: FrameData, frame_number: i32) -> bool {
    &&& f.frame_number == frame_number
    &&& f.mdct_coefficients.coefficients_before_aliasing@.len() == 0
    &&& f.mdct_coefficients.coefficients_after_aliasing@.len() == 0
    &&& f.mdct_coefficients.l3_sb_sample@.len() == 0
    &&& f.quantization == QuantizationData {
        xrmax: 0,
        max_bits: 0,
        part2_3_length: 0,
        quantizer_step_size: 0,
        global_gain: 0,
    }
    &&& f.bitstream == BitstreamData { padding: 0, bits_per_frame: 0, written: 0, slot_lag: 0 }
}

/// Position of the first record of frame `n` at or after `start`.
pub open spec fn first_position_from(frames: Seq<FrameData>, n: i32, start: int) -> Option<int>
    decreases frames.len() - start,
{
    if start < 0 || start >= frames.len() {
        None
    } else if frames[start].frame_number == n {
        Some(start)
    } else {
        first_position_from(frames, n, start + 1)
    }
}

/// Position of the first record of frame `n`, if there is one.
pub open spec fn frame_position(frames: Seq<FrameData>, n: i32) -> Option<int> {
    first_position_from(frames, n, 0)
}

/// A position found is in bounds and holds a record of the frame.
pub proof fn lemma_first_position_bounds(frames: Seq<FrameData>, n: i32, start: int)
    requires
        0 <= start,
    ensures
        first_position_from(frames, n, start) matches Some(i) ==> start <= i < frames.len()
            && frames[i].frame_number == n,
    decreases frames.len() - start,
{
    if start < frames.len() && frames[start].frame_number != n {
        lemma_first_position_bounds(frames, n, start + 1);
    }
}

/// Index at which a coefficient `k` of 15, 16 or 17 is recorded: 17 first.
pub open spec fn coefficient_slot(k: usize) -> int {
    17 - k
}

/// A coefficient list widened to three entries, the new ones zero.
pub open spec fn widened(s: Seq<i32>) -> Seq<i32> {
    if s.len() < 3 {
        s + Seq::new((3 - s.len()) as nat, |i: int| 0i32)
    } else {
        s
    }
}

/// Two frame records hold the same values.
pub open spec fn same_frame(a: FrameData, b: FrameData) -> bool {
    &&& a.frame_number == b.frame_number
    &&& a.mdct_coefficients.coefficients_before_aliasing@
        == b.mdct_coefficients.coefficients_before_aliasing@
    &&& a.mdct_coefficients.coefficients_after_aliasing@
        == b.mdct_coefficients.coefficients_after_aliasing@
    &&& a.mdct_coefficients.l3_sb_sample@ == b.mdct_coefficients.l3_sb_sample@
    &&& a.quantization == b.quantization
    &&& a.bitstream == b.bitstream
}

/// The records of `a` are those of `b`, but for the one at `skip`.
pub open spec fn same_frames_but(a: Seq<FrameData>, b: Seq<FrameData>, skip: int) -> bool {
    &&& a.len() == b.len()
    &&& forall|i: int| 0 <= i < a.len() && i != skip ==> same_frame(#[trigger] a[i], b[i])
}

/// `n` is the collector `o` after `start_frame`.
pub open spec fn started_frame(o: TestDataCollector, frame_number: i32, n: TestDataCollector) -> bool {
    &&& n.current_frame == frame_number
    &&& n.test_case.config == o.test_case.config
    &&& n.test_case.metadata == o.test_case.metadata
    &&& frame_number <= last_recorded_frame() && frame_position(o.test_case.frames@, frame_number) is None ==> {
        &&& n.test_case.frames@.len() == o.test_case.frames@.len() + 1
        &&& same_frames_but(n.test_case.frames@.drop_last(), o.test_case.frames@, -1)
        &&& is_empty_frame(n.test_case.frames@.last(), frame_number)
    }
    &&& !(frame_number <= last_recorded_frame() && frame_position(o.test_case.frames@, frame_number) is None) ==> n.test_case.frames@ == o.test_case.frames@
}

/// `n` is the collector `o` after `record_mdct_coefficient_before_aliasing`.
pub open spec fn recorded_before_aliasing(o: TestDataCollector, k: usize, value: i32, n: TestDataCollector) -> bool {
    &&& n.current_frame == o.current_frame
    &&& n.test_case.config == o.test_case.config
    &&& n.test_case.metadata == o.test_case.metadata
    &&& ({
                let frames = o.test_case.frames@;
                let pos = frame_position(frames, o.current_frame);
                if o.current_frame <= last_recorded_frame() && 15 <= k <= 17 && pos is Some {
                    let i = pos.unwrap();
                    let f = n.test_case.frames@[i];
                    let before = frames[i];
                    &&& same_frames_but(n.test_case.frames@, frames, i)
                    &&& f.mdct_coefficients.coefficients_before_aliasing@ == widened(
                        before.mdct_coefficients.coefficients_before_aliasing@,
                    ).update(coefficient_slot(k), value)
                    &&& f.mdct_coefficients.coefficients_after_aliasing@
                        == before.mdct_coefficients.coefficients_after_aliasing@
                    &&& f.mdct_coefficients.l3_sb_sample@ == before.mdct_coefficients.l3_sb_sample@
                    &&& f.frame_number == before.frame_number
                    &&& f.quantization == before.quantization
                    &&& f.bitstream == before.bitstream
                } else {
                    n.test_case.frames@ == frames
                }
            })
}

/// `n` is the collector `o` after `record_mdct_coefficient_after_aliasing`.
pub open spec fn recorded_after_aliasing(o: TestDataCollector, k: usize, value: i32, n: TestDataCollector) -> bool {
    &&& n.current_frame == o.current_frame
    &&& n.test_case.config == o.test_case.config
    &&& n.test_case.metadata == o.test_case.metadata
    &&& ({
                let frames = o.test_case.frames@;
                let pos = frame_position(frames, o.current_frame);
                if o.current_frame <= last_recorded_frame() && 15 <= k <= 17 && pos is Some {
                    let i = pos.unwrap();
                    let f = n.test_case.frames@[i];
                    let before = frames[i];
                    &&& same_frames_but(n.test_case.frames@, frames, i)
                    &&& f.mdct_coefficients.coefficients_after_aliasing@ == widened(
                        before.mdct_coefficients.coefficients_after_aliasing@,
                    ).update(coefficient_slot(k), value)
                    &&& f.mdct_coefficients.coefficients_before_aliasing@
                        == before.mdct_coefficients.coefficients_before_aliasing@
                    &&& f.mdct_coefficients.l3_sb_sample@ == before.mdct_coefficients.l3_sb_sample@
                    &&& f.frame_number == before.frame_number
                    &&& f.quantization == before.quantization
                    &&& f.bitstream == before.bitstream
                } else {
                    n.test_case.frames@ == frames
                }
            })
}

/// `n` is the collector `o` after `record_l3_sb_sample`.
pub open spec fn recorded_sb_sample(o: TestDataCollector, ch: usize, value: i32, n: TestDataCollector) -> bool {
    &&& n.current_frame == o.current_frame
    &&& n.test_case.config == o.test_case.config
    &&& n.test_case.metadata == o.test_case.metadata
    &&& ({
                let frames = o.test_case.frames@;
                let pos = frame_position(frames, o.current_frame);
                if o.current_frame <= last_recorded_frame() && ch == 0 && pos is Some {
                    let i = pos.unwrap();
                    let f = n.test_case.frames@[i];
                    let before = frames[i];
                    &&& same_frames_but(n.test_case.frames@, frames, i)
                    &&& f.mdct_coefficients.l3_sb_sample@ == before.mdct_coefficients.l3_sb_sample@.push(
                        value,
                    )
                    &&& f.mdct_coefficients.coefficients_before_aliasing@
                        == before.mdct_coefficients.coefficients_before_aliasing@
                    &&& f.mdct_coefficients.coefficients_after_aliasing@
                        == before.mdct_coefficients.coefficients_after_aliasing@
                    &&& f.frame_number == before.frame_number
                    &&& f.quantization == before.quantization
                    &&& f.bitstream == before.bitstream
                } else {
                    n.test_case.frames@ == frames
                }
            })
}

/// `n` is the collector `o` after `record_quantization`.
pub open spec fn recorded_quantization(o: TestDataCollector, xrmax: i32, max_bits: i32, part2_3_length: u32, quantizer_step_size: i32, global_gain: u32, n: TestDataCollector) -> bool {
    &&& n.current_frame == o.current_frame
    &&& n.test_case.config == o.test_case.config
    &&& n.test_case.metadata == o.test_case.metadata
    &&& ({
                let frames = o.test_case.frames@;
                let pos = frame_position(frames, o.current_frame);
                if o.current_frame <= last_recorded_frame() && pos is Some {
                    let i = pos.unwrap();
                    let f = n.test_case.frames@[i];
                    let before = frames[i];
                    &&& same_frames_but(n.test_case.frames@, frames, i)
                    &&& f.quantization == QuantizationData {
                        xrmax,
                        max_bits,
                        part2_3_length,
                        quantizer_step_size,
                        global_gain,
                    }
                    &&& f.mdct_coefficients.coefficients_before_aliasing@
                        == before.mdct_coefficients.coefficients_before_aliasing@
                    &&& f.mdct_coefficients.coefficients_after_aliasing@
                        == before.mdct_coefficients.coefficients_after_aliasing@
                    &&& f.mdct_coefficients.l3_sb_sample@ == before.mdct_coefficients.l3_sb_sample@
                    &&& f.frame_number == before.frame_number
                    &&& f.bitstream == before.bitstream
                } else {
                    n.test_case.frames@ == frames
                }
            })
}

/// `n` is the collector `o` after `record_bitstream`.
pub open spec fn recorded_bitstream(o: TestDataCollector, padding: i32, bits_per_frame: i32, written: usize, slot_lag: u64, n: TestDataCollector) -> bool {
    &&& n.current_frame == o.current_frame
    &&& n.test_case.config == o.test_case.config
    &&& n.test_case.metadata == o.test_case.metadata
    &&& ({
                let frames = o.test_case.frames@;
                let pos = frame_position(frames, o.current_frame);
                if o.current_frame <= last_recorded_frame() && pos is Some {
                    let i = pos.unwrap();
                    let f = n.test_case.frames@[i];
                    let before = frames[i];
                    &&& same_frames_but(n.test_case.frames@, frames, i)
                    &&& f.bitstream == BitstreamData { padding, bits_per_frame, written, slot_lag }
                    &&& f.mdct_coefficients.coefficients_before_aliasing@
                        == before.mdct_coefficients.coefficients_before_aliasing@
                    &&& f.mdct_coefficients.coefficients_after_aliasing@
                        == before.mdct_coefficients.coefficients_after_aliasing@
                    &&& f.mdct_coefficients.l3_sb_sample@ == before.mdct_coefficients.l3_sb_sample@
                    &&& f.frame_number == before.frame_number
                    &&& f.quantization == before.quantization
                } else {
                    n.test_case.frames@ == frames
                }
            })
}

/// A copy of an integer list.
fn copy_values(v: &Vec<i32>) -> (r: Vec<i32>)
    ensures
        r@ == v@,
{
    let mut r: Vec<i32> = Vec::new();
    let mut i: usize = 0;
    while i < v.len()
        invariant
            i <= v.len(),
            r@ == v@.take(i as int),
        decreases v.len() - i,
    {
        r.push(v[i]);
        assert(v@.take(i + 1) =~= v@.take(i as int).push(v@[i as int]));
        i = i + 1;
    }
    assert(v@.take(v.len() as int) =~= v@);
    r
}

impl MdctData {
    /// MDCT data with nothing recorded.
    pub fn empty() -> (m: Self)
        ensures
            m.coefficients_before_aliasing@.len() == 0,
            m.coefficients_after_aliasing@.len() == 0,
            m.l3_sb_sample@.len() == 0,
    {
        MdctData {
            coefficients_before_aliasing: Vec::new(),
            coefficients_after_aliasing: Vec::new(),
            l3_sb_sample: Vec::new(),
        }
    }

    /// A copy of the data.
    pub fn duplicate(&self) -> (m: Self)
        ensures
            m.coefficients_before_aliasing@ == self.coefficients_before_aliasing@,
            m.coefficients_after_aliasing@ == self.coefficients_after_aliasing@,
            m.l3_sb_sample@ == self.l3_sb_sample@,
    {
        MdctData {
            coefficients_before_aliasing: copy_values(&self.coefficients_before_aliasing),
            coefficients_after_aliasing: copy_values(&self.coefficients_after_aliasing),
            l3_sb_sample: copy_values(&self.l3_sb_sample),
        }
    }
}

impl FrameData {
    /// A copy of the record.
    pub fn duplicate(&self) -> (f: Self)
        ensures
            same_frame(f, *self),
    {
        FrameData {
            frame_number: self.frame_number,
            mdct_coefficients: self.mdct_coefficients.duplicate(),
            quantization: self.quantization,
            bitstream: self.bitstream,
        }
    }
}

/// Sets entry `17 - k` of a coefficient list, widening it to three entries first.
fn record_coefficient(list: &mut Vec<i32>, k: usize, value: i32)
    requires
        15 <= k <= 17,
    ensures
        final(list)@ == widened(old(list)@).update(coefficient_slot(k), value),
{
    if list.len() < 3 {
        list.resize(3, 0);
        assert(list@ =~= widened(old(list)@)) by {
            assert forall|i: int| old(list)@.len() <= i < 3 implies list@[i] == 0i32 by {
                assert(cloned::<i32>(0i32, list@[i]));
            }
        }
    }
    let index = 17 - k;
    list[index] = value;
}

impl TestDataCollector {
    /// Starts a collection for a test case, with no frame recorded.
    pub fn initialize(metadata: TestMetadata, config: EncodingConfig) -> (c: Self)
        ensures
            c.test_case.frames@.len() == 0,
            c.current_frame == 0,
            c.test_case.config == config,
            c.test_case.metadata == metadata,
    {
        TestDataCollector {
            test_case: TestCaseData { metadata, config, frames: Vec::new() },
            current_frame: 0,
        }
    }

    /// Position of the record of the current frame, if there is one.
    fn find_current(&self) -> (pos: Option<usize>)
        ensures
            pos matches Some(i) ==> frame_position(self.test_case.frames@, self.current_frame)
                == Some(i as int) && i < self.test_case.frames@.len(),
            pos is None ==> frame_position(self.test_case.frames@, self.current_frame) is None,
    {
        let frames = &self.test_case.frames;
        let mut i: usize = 0;
        while i < frames.len()
            invariant
                i <= frames.len(),
                frames@ == self.test_case.frames@,
                first_position_from(frames@, self.current_frame, 0) == first_position_from(
                    frames@,
                    self.current_frame,
                    i as int,
                ),
            decreases frames.len() - i,
        {
            if frames[i].frame_number == self.current_frame {
                assert(first_position_from(frames@, self.current_frame, i as int) == Some(i as int));
                return Some(i);
            }
            i = i + 1;
        }
        None
    }

    /// Makes `frame_number` the current frame and, if it is among the first
    /// six and has no record yet, adds an empty record for it.
    pub fn start_frame(&mut self, frame_number: i32)
        ensures
            started_frame(*old(self), frame_number, *final(self)),
    {
        self.current_frame = frame_number;
        let exists = self.find_current();
        if frame_number <= 6 && exists.is_none() {
            let frame_data = FrameData {
                frame_number,
                mdct_coefficients: MdctData::empty(),
                quantization: QuantizationData {
                    xrmax: 0,
                    max_bits: 0,
                    part2_3_length: 0,
                    quantizer_step_size: 0,
                    global_gain: 0,
                },
                bitstream: BitstreamData { padding: 0, bits_per_frame: 0, written: 0, slot_lag: 0 },
            };
            self.test_case.frames.push(frame_data);
            assert(self.test_case.frames@.drop_last() =~= old(self).test_case.frames@);
        }
    }

    /// Records MDCT coefficient `k` (15, 16 or 17) before aliasing
    /// reduction for the current frame, if it is among the first six and
    /// has a record.
    pub fn record_mdct_coefficient_before_aliasing(&mut self, k: usize, value: i32)
        ensures
            recorded_before_aliasing(*old(self), k, value, *final(self)),
    {
        if self.current_frame <= 6 && k >= 15 && k <= 17 {
            match self.find_current() {
                Some(i) => {
                    let mut frame = self.test_case.frames.remove(i);
                    record_coefficient(
                        &mut frame.mdct_coefficients.coefficients_before_aliasing,
                        k,
                        value,
                    );
                    self.test_case.frames.insert(i, frame);
                    proof {
                        let a = self.test_case.frames@;
                        let b = old(self).test_case.frames@;
                        assert forall|j: int| 0 <= j < a.len() && j != i implies same_frame(
                            #[trigger] a[j],
                            b[j],
                        ) by {
                            assert(a[j] == b[j]);
                        }
                    }
                },
                None => {},
            }
        }
    }

    /// Records MDCT coefficient `k` (15, 16 or 17) after aliasing reduction
    /// for the current frame, if it is among the first six and has a record.
    pub fn record_mdct_coefficient_after_aliasing(&mut self, k: usize, value: i32)
        ensures
            recorded_after_aliasing(*old(self), k, value, *final(self)),
    {
        if self.current_frame <= 6 && k >= 15 && k <= 17 {
            match self.find_current() {
                Some(i) => {
                    let mut frame = self.test_case.frames.remove(i);
                    record_coefficient(
                        &mut frame.mdct_coefficients.coefficients_after_aliasing,
                        k,
                        value,
                    );
                    self.test_case.frames.insert(i, frame);
                    proof {
                        let a = self.test_case.frames@;
                        let b = old(self).test_case.frames@;
                        assert forall|j: int| 0 <= j < a.len() && j != i implies same_frame(
                            #[trigger] a[j],
                            b[j],
                        ) by {
                            assert(a[j] == b[j]);
                        }
                    }
                },
                None => {},
            }
        }
    }

    /// Appends a subband sample of channel 0 to the current frame's record,
    /// if the frame is among the first six and has a record.
    pub fn record_l3_sb_sample(&mut self, ch: usize, value: i32)
        ensures
            recorded_sb_sample(*old(self), ch, value, *final(self)),
    {
        if self.current_frame <= 6 && ch == 0 {
            match self.find_current() {
                Some(i) => {
                    let mut frame = self.test_case.frames.remove(i);
                    frame.mdct_coefficients.l3_sb_sample.push(value);
                    self.test_case.frames.insert(i, frame);
                    proof {
                        let a = self.test_case.frames@;
                        let b = old(self).test_case.frames@;
                        assert forall|j: int| 0 <= j < a.len() && j != i implies same_frame(
                            #[trigger] a[j],
                            b[j],
                        ) by {
                            assert(a[j] == b[j]);
                        }
                    }
                },
                None => {},
            }
        }
    }

    /// Records the quantization parameters of the current frame, if it is
    /// among the first six and has a record.
    pub fn record_quantization(
        &mut self,
        xrmax: i32,
        max_bits: i32,
        part2_3_length: u32,
        quantizer_step_size: i32,
        global_gain: u32,
    )
        ensures
            recorded_quantization(*old(self), xrmax, max_bits, part2_3_length, quantizer_step_size, global_gain, *final(self)),
    {
        if self.current_frame <= 6 {
            match self.find_current() {
                Some(i) => {
                    let mut frame = self.test_case.frames.remove(i);
                    frame.quantization.xrmax = xrmax;
                    frame.quantization.max_bits = max_bits;
                    frame.quantization.part2_3_length = part2_3_length;
                    frame.quantization.quantizer_step_size = quantizer_step_size;
                    frame.quantization.global_gain = global_gain;
                    self.test_case.frames.insert(i, frame);
                    proof {
                        let a = self.test_case.frames@;
                        let b = old(self).test_case.frames@;
                        assert forall|j: int| 0 <= j < a.len() && j != i implies same_frame(
                            #[trigger] a[j],
                            b[j],
                        ) by {
                            assert(a[j] == b[j]);
                        }
                    }
                },
                None => {},
            }
        }
    }

    /// Records the bitstream parameters of the current frame, if it is among
    /// the first six and has a record; `slot_lag` is the bit pattern of an `f64`.
    pub fn record_bitstream(&mut self, padding: i32, bits_per_frame: i32, written: usize, slot_lag: u64)
        ensures
            recorded_bitstream(*old(self), padding, bits_per_frame, written, slot_lag, *final(self)),
    {
        if self.current_frame <= 6 {
            match self.find_current() {
                Some(i) => {
                    let mut frame = self.test_case.frames.remove(i);
                    frame.bitstream.padding = padding;
                    frame.bitstream.bits_per_frame = bits_per_frame;
                    frame.bitstream.written = written;
                    frame.bitstream.slot_lag = slot_lag;
                    self.test_case.frames.insert(i, frame);
                    proof {
                        let a = self.test_case.frames@;
                        let b = old(self).test_case.frames@;
                        assert forall|j: int| 0 <= j < a.len() && j != i implies same_frame(
                            #[trigger] a[j],
                            b[j],
                        ) by {
                            assert(a[j] == b[j]);
                        }
                    }
                },
                None => {},
            }
        }
    }

    /// A copy of the current frame's record, if there is one.
    pub fn get_current_frame_data(&self) -> (f: Option<FrameData>)
        ensures
            frame_position(self.test_case.frames@, self.current_frame) matches Some(i) ==> (f
                matches Some(g) && same_frame(g, self.test_case.frames@[i])),
            frame_position(self.test_case.frames@, self.current_frame) is None ==> f is None,
    {
        match self.find_current() {
            Some(i) => Some(self.test_case.frames[i].duplicate()),
            None => None,
        }
    }
}

/// Starts frame `frame_number` in the collection, if one is running.
pub fn start_frame_collection(collector: &mut Option<TestDataCollector>, frame_number: i32)
    ensures
        match *old(collector) {
            None => *final(collector) is None,
            Some(c) => (*final(collector) matches Some(c2) && started_frame(c, frame_number, c2)),
        },
{
    match collector {
        Some(c) => c.start_frame(frame_number),
        None => {},
    }
}

/// Records an MDCT coefficient before aliasing reduction, if a collection is running.
pub fn record_mdct_coeff_before_aliasing(collector: &mut Option<TestDataCollector>, k: usize, value: i32)
    ensures
        match *old(collector) {
            None => *final(collector) is None,
            Some(c) => (*final(collector) matches Some(c2) && recorded_before_aliasing(c, k, value, c2)),
        },
{
    match collector {
        Some(c) => c.record_mdct_coefficient_before_aliasing(k, value),
        None => {},
    }
}

/// Records an MDCT coefficient after aliasing reduction, if a collection is running.
pub fn record_mdct_coeff_after_aliasing(collector: &mut Option<TestDataCollector>, k: usize, value: i32)
    ensures
        match *old(collector) {
            None => *final(collector) is None,
            Some(c) => (*final(collector) matches Some(c2) && recorded_after_aliasing(c, k, value, c2)),
        },
{
    match collector {
        Some(c) => c.record_mdct_coefficient_after_aliasing(k, value),
        None => {},
    }
}

/// Records a subband sample, if a collection is running.
pub fn record_sb_sample(collector: &mut Option<TestDataCollector>, ch: usize, value: i32)
    ensures
        match *old(collector) {
            None => *final(collector) is None,
            Some(c) => (*final(collector) matches Some(c2) && recorded_sb_sample(c, ch, value, c2)),
        },
{
    match collector {
        Some(c) => c.record_l3_sb_sample(ch, value),
        None => {},
    }
}

/// Records quantization parameters, if a collection is running.
pub fn record_quant_data(
    collector: &mut Option<TestDataCollector>,
    xrmax: i32,
    max_bits: i32,
    part2_3_length: u32,
    quantizer_step_size: i32,
    global_gain: u32,
)
    ensures
        match *old(collector) {
            None => *final(collector) is None,
            Some(c) => (*final(collector) matches Some(c2) && recorded_quantization(c, xrmax, max_bits, part2_3_length, quantizer_step_size, global_gain, c2)),
        },
{
    match collector {
        Some(c) => c.record_quantization(xrmax, max_bits, part2_3_length, quantizer_step_size, global_gain),
        None => {},
    }
}

/// Records bitstream parameters, if a collection is running.
pub fn record_bitstream_data(
    collector: &mut Option<TestDataCollector>,
    padding: i32,
    bits_per_frame: i32,
    written: usize,
    slot_lag: u64,
)
    ensures
        match *old(collector) {
            None => *final(collector) is None,
            Some(c) => (*final(collector) matches Some(c2) && recorded_bitstream(c, padding, bits_per_frame, written, slot_lag, c2)),
        },
{
    match collector {
        Some(c) => c.record_bitstream(padding, bits_per_frame, written, slot_lag),
        None => {},
    }
}

/// A frame as encoded, with the values captured while encoding it.
#[derive(Debug)]
pub struct EncodedFrame {
    pub mdct_data: MdctData,
    pub quantization_data: QuantizationData,
    pub bitstream_data: BitstreamData,
    pub frame_data: Vec<u8>,
}

/// An encoder whose state is read back after each frame.
pub struct Encoder {
    config: Box<ShineGlobalConfig>,
}

/// Subband samples read back when no collection supplies them: the first
/// eight samples of subbands 0, 1 and 2 of channel 0, granule 0, if the
/// stream has granules.
pub open spec fn fallback_sb_samples(config: ShineGlobalConfig) -> Seq<i32> {
    if config.mpeg.granules_per_frame == 0 {
        Seq::empty()
    } else {
        Seq::new(24, |j: int| config.l3_sb_sample[0][0][j / 8][j % 8])
    }
}

/// The encoder parameters for a test case: mono mode for one channel, else
/// stereo; no emphasis; not copyrighted; original.
pub open spec fn shine_config_for(e: EncodingConfig) -> ShineConfig {
    ShineConfig {
        wave: ShineWave { channels: e.channels, samplerate: e.sample_rate },
        mpeg: ShineMpeg {
            mode: if e.channels == 1 { 3 } else { 1 },
            bitr: e.bitrate,
            emph: 0,
            copyright: 0,
            original: 1,
        },
    }
}

impl Encoder {
    /// The encoder set up with parameters of `encoding_config`: mono mode
    /// for one channel, else stereo; no emphasis; not copyrighted; original.
    pub fn shine_config(encoding_config: &EncodingConfig) -> (c: ShineConfig)
        ensures
            c == shine_config_for(*encoding_config),
    {
        ShineConfig {
            wave: ShineWave { channels: encoding_config.channels, samplerate: encoding_config.sample_rate },
            mpeg: ShineMpeg {
                mode: if encoding_config.channels == 1 { 3 } else { 1 },
                bitr: encoding_config.bitrate,
                emph: 0,
                copyright: 0,
                original: 1,
            },
        }
    }

    /// An encoder over an initialised encoder state.
    pub fn from_state(config: Box<ShineGlobalConfig>) -> (e: Self)
        ensures
            e.state() == *config,
    {
        Encoder { config }
    }

    /// The encoder state.
    pub closed spec fn state(&self) -> ShineGlobalConfig {
        *self.config
    }

    /// The MDCT data of the frame just encoded: what the collection
    /// recorded for it, if `collected` holds that record; else no
    /// coefficients and the subband samples read from the encoder state.
    pub fn capture_mdct_data(&self, collected: Option<FrameData>) -> (m: MdctData)
        ensures
            collected matches Some(f) ==> m == f.mdct_coefficients,
            collected is None ==> {
                &&& m.coefficients_before_aliasing@.len() == 0
                &&& m.coefficients_after_aliasing@.len() == 0
                &&& m.l3_sb_sample@ == fallback_sb_samples(self.state())
            },
    {
        match collected {
            Some(frame_data) => frame_data.mdct_coefficients,
            None => {
                let mut l3_sb_sample: Vec<i32> = Vec::new();
                if self.config.mpeg.granules_per_frame != 0 {
                    let mut sb: usize = 0;
                    while sb < 3
                        invariant
                            sb <= 3,
                            self.config.mpeg.granules_per_frame != 0,
                            l3_sb_sample@ == fallback_sb_samples(self.state()).take(8 * sb as int),
                        decreases 3 - sb,
                    {
                        let mut i: usize = 0;
                        while i < 8
                            invariant
                                sb < 3,
                                i <= 8,
                                self.config.mpeg.granules_per_frame != 0,
                                l3_sb_sample@ == fallback_sb_samples(self.state()).take(
                                    8 * sb + i,
                                ),
                            decreases 8 - i,
                        {
                            let v = self.config.l3_sb_sample[0][0][sb][i];
                            proof {
                                let all = fallback_sb_samples(self.state());
                                let j = 8 * sb + i;
                                assert(j / 8 == sb && j % 8 == i) by (nonlinear_arith)
                                    requires
                                        j == 8 * sb + i,
                                        i < 8,
                                ;
                                assert(all.take(j + 1) =~= all.take(j as int).push(v));
                            }
                            l3_sb_sample.push(v);
                            i = i + 1;
                        }
                        sb = sb + 1;
                    }
                    assert(fallback_sb_samples(self.state()).take(24) =~= fallback_sb_samples(
                        self.state(),
                    ));
                } else {
                    assert(l3_sb_sample@ =~= fallback_sb_samples(self.state()));
                }
                MdctData {
                    coefficients_before_aliasing: Vec::new(),
                    coefficients_after_aliasing: Vec::new(),
                    l3_sb_sample,
                }
            },
        }
    }

    /// The quantization parameters of the frame just encoded: what the
    /// collection recorded for it, if `collected` holds that record; else
    /// those of channel 0 of granule 0 in the encoder state, with the mean
    /// bits per granule as the bit budget.
    pub fn capture_quantization_data(&self, collected: Option<FrameData>) -> (q: QuantizationData)
        ensures
            collected matches Some(f) ==> q == f.quantization,
            collected is None ==> q == (QuantizationData {
                global_gain: self.state().side_info.gr[0].ch[0].tt.global_gain,
                part2_3_length: self.state().side_info.gr[0].ch[0].tt.part2_3_length,
                max_bits: self.state().mean_bits,
                xrmax: self.state().l3loop.xrmax,
                quantizer_step_size: self.state().side_info.gr[0].ch[0].tt.quantizer_step_size,
            }),
    {
        match collected {
            Some(frame_data) => frame_data.quantization,
            None => {
                let gr_info = &self.config.side_info.gr[0].ch[0].tt;
                QuantizationData {
                    global_gain: gr_info.global_gain,
                    part2_3_length: gr_info.part2_3_length,
                    max_bits: self.config.mean_bits,
                    xrmax: self.config.l3loop.xrmax,
                    quantizer_step_size: gr_info.quantizer_step_size,
                }
            },
        }
    }
}

/// The collector holds at most one record per frame number, and only for
/// frames numbered up to six.
pub open spec fn records_distinct(c: TestDataCollector) -> bool {
    let f = c.test_case.frames@;
    &&& forall|i: int| 0 <= i < f.len() ==> #[trigger] f[i].frame_number <= last_recorded_frame()
    &&& forall|i: int, j: int|
        0 <= i < j < f.len() ==> #[trigger] f[i].frame_number != #[trigger] f[j].frame_number
}

proof fn lemma_no_position(frames: Seq<FrameData>, n: i32, start: int)
    requires
        0 <= start,
        first_position_from(frames, n, start) is None,
    ensures
        forall|i: int| start <= i < frames.len() ==> #[trigger] frames[i].frame_number != n,
    decreases frames.len() - start,
{
    if start < frames.len() {
        lemma_no_position(frames, n, start + 1);
    }
}

proof fn lemma_same_numbers_same_position(a: Seq<FrameData>, b: Seq<FrameData>, n: i32, start: int)
    requires
        0 <= start,
        a.len() == b.len(),
        forall|i: int| 0 <= i < a.len() ==> #[trigger] a[i].frame_number == b[i].frame_number,
    ensures
        first_position_from(a, n, start) == first_position_from(b, n, start),
    decreases a.len() - start,
{
    if start < a.len() {
        lemma_same_numbers_same_position(a, b, n, start + 1);
    }
}

/// Starting a frame keeps at most one record per frame number, all of
/// frames up to six.
pub proof fn law_start_frame_keeps_records_distinct(o: TestDataCollector, frame_number: i32, n: TestDataCollector)
    requires
        records_distinct(o),
        started_frame(o, frame_number, n),
    ensures
        records_distinct(n),
{
    let a = o.test_case.frames@;
    let b = n.test_case.frames@;
    if frame_number <= last_recorded_frame() && frame_position(a, frame_number) is None {
        lemma_no_position(a, frame_number, 0);
        assert forall|i: int| 0 <= i < b.len() implies #[trigger] b[i].frame_number
            <= last_recorded_frame() by {
            if i < a.len() {
                assert(same_frame(b.drop_last()[i], a[i]));
            }
        }
        assert forall|i: int, j: int| 0 <= i < j < b.len() implies #[trigger] b[i].frame_number
            != #[trigger] b[j].frame_number by {
            assert(same_frame(b.drop_last()[i], a[i]));
            if j < a.len() {
                assert(same_frame(b.drop_last()[j], a[j]));
            }
        }
    }
}

/// A recording that changes the record at `skip`, if any, but not its
/// frame number.
pub open spec fn numbers_kept(a: Seq<FrameData>, b: Seq<FrameData>) -> bool {
    &&& a.len() == b.len()
    &&& forall|i: int| 0 <= i < a.len() ==> #[trigger] a[i].frame_number == b[i].frame_number
}

proof fn lemma_numbers_kept_distinct(o: TestDataCollector, n: TestDataCollector)
    requires
        records_distinct(o),
        numbers_kept(n.test_case.frames@, o.test_case.frames@),
    ensures
        records_distinct(n),
{
    let a = o.test_case.frames@;
    let b = n.test_case.frames@;
    assert forall|i: int, j: int| 0 <= i < j < b.len() implies #[trigger] b[i].frame_number
        != #[trigger] b[j].frame_number by {
        assert(b[i].frame_number == a[i].frame_number);
        assert(b[j].frame_number == a[j].frame_number);
    }
}

/// Recording quantization parameters keeps the records distinct, and a
/// read of the current frame's record afterwards gives them back.
pub proof fn law_quantization_read_back(
    o: TestDataCollector,
    xrmax: i32,
    max_bits: i32,
    part2_3_length: u32,
    quantizer_step_size: i32,
    global_gain: u32,
    n: TestDataCollector,
)
    requires
        records_distinct(o),
        recorded_quantization(o, xrmax, max_bits, part2_3_length, quantizer_step_size, global_gain, n),
        o.current_frame <= last_recorded_frame(),
        frame_position(o.test_case.frames@, o.current_frame) is Some,
    ensures
        records_distinct(n),
        frame_position(n.test_case.frames@, n.current_frame) == frame_position(
            o.test_case.frames@,
            o.current_frame,
        ),
        n.test_case.frames@[frame_position(n.test_case.frames@, n.current_frame)->Some_0].quantization
            == (QuantizationData { xrmax, max_bits, part2_3_length, quantizer_step_size, global_gain }),
{
    let a = o.test_case.frames@;
    let b = n.test_case.frames@;
    let i = frame_position(a, o.current_frame)->Some_0;
    lemma_first_position_bounds(a, o.current_frame, 0);
    assert(numbers_kept(b, a)) by {
        assert forall|j: int| 0 <= j < b.len() implies #[trigger] b[j].frame_number
            == a[j].frame_number by {
            if j != i {
                assert(same_frame(b[j], a[j]));
            }
        }
    }
    lemma_numbers_kept_distinct(o, n);
    lemma_same_numbers_same_position(b, a, o.current_frame, 0);
}

/// Recording bitstream parameters keeps the records distinct, and a read
/// of the current frame's record afterwards gives them back.
pub proof fn law_bitstream_read_back(
    o: TestDataCollector,
    padding: i32,
    bits_per_frame: i32,
    written: usize,
    slot_lag: u64,
    n: TestDataCollector,
)
    requires
        records_distinct(o),
        recorded_bitstream(o, padding, bits_per_frame, written, slot_lag, n),
        o.current_frame <= last_recorded_frame(),
        frame_position(o.test_case.frames@, o.current_frame) is Some,
    ensures
        records_distinct(n),
        frame_position(n.test_case.frames@, n.current_frame) == frame_position(
            o.test_case.frames@,
            o.current_frame,
        ),
        n.test_case.frames@[frame_position(n.test_case.frames@, n.current_frame)->Some_0].bitstream
            == (BitstreamData { padding, bits_per_frame, written, slot_lag }),
{
    let a = o.test_case.frames@;
    let b = n.test_case.frames@;
    let i = frame_position(a, o.current_frame)->Some_0;
    lemma_first_position_bounds(a, o.current_frame, 0);
    assert(numbers_kept(b, a)) by {
        assert forall|j: int| 0 <= j < b.len() implies #[trigger] b[j].frame_number
            == a[j].frame_number by {
            if j != i {
                assert(same_frame(b[j], a[j]));
            }
        }
    }
    lemma_numbers_kept_distinct(o, n);
    lemma_same_numbers_same_position(b, a, o.current_frame, 0);
}

/// Recording an MDCT coefficient before aliasing reduction keeps the
/// records distinct, and a read of the current frame's record afterwards
/// finds it at its slot (17 first).
pub proof fn law_coefficient_read_back(o: TestDataCollector, k: usize, value: i32, n: TestDataCollector)
    requires
        records_distinct(o),
        recorded_before_aliasing(o, k, value, n),
        o.current_frame <= last_recorded_frame(),
        15 <= k <= 17,
        frame_position(o.test_case.frames@, o.current_frame) is Some,
    ensures
        records_distinct(n),
        frame_position(n.test_case.frames@, n.current_frame) == frame_position(
            o.test_case.frames@,
            o.current_frame,
        ),
        n.test_case.frames@[frame_position(
            n.test_case.frames@,
            n.current_frame,
        )->Some_0].mdct_coefficients.coefficients_before_aliasing@[coefficient_slot(k)] == value,
{
    let a = o.test_case.frames@;
    let b = n.test_case.frames@;
    let i = frame_position(a, o.current_frame)->Some_0;
    lemma_first_position_bounds(a, o.current_frame, 0);
    assert(numbers_kept(b, a)) by {
        assert forall|j: int| 0 <= j < b.len() implies #[trigger] b[j].frame_number
            == a[j].frame_number by {
            if j != i {
                assert(same_frame(b[j], a[j]));
            }
        }
    }
    lemma_numbers_kept_distinct(o, n);
    lemma_same_numbers_same_position(b, a, o.current_frame, 0);
    let w = a[i].mdct_coefficients.coefficients_before_aliasing@;
    assert(widened(w).len() >= 3);
}

/// Recording an MDCT coefficient after aliasing reduction keeps the
/// records distinct, and a read of the current frame's record afterwards
/// finds it at its slot (17 first).
pub proof fn law_aliased_coefficient_read_back(o: TestDataCollector, k: usize, value: i32, n: TestDataCollector)
    requires
        records_distinct(o),
        recorded_after_aliasing(o, k, value, n),
        o.current_frame <= last_recorded_frame(),
        15 <= k <= 17,
        frame_position(o.test_case.frames@, o.current_frame) is Some,
    ensures
        records_distinct(n),
        frame_position(n.test_case.frames@, n.current_frame) == frame_position(
            o.test_case.frames@,
            o.current_frame,
        ),
        n.test_case.frames@[frame_position(
            n.test_case.frames@,
            n.current_frame,
        )->Some_0].mdct_coefficients.coefficients_after_aliasing@[coefficient_slot(k)] == value,
{
    let a = o.test_case.frames@;
    let b = n.test_case.frames@;
    let i = frame_position(a, o.current_frame)->Some_0;
    lemma_first_position_bounds(a, o.current_frame, 0);
    assert(numbers_kept(b, a)) by {
        assert forall|j: int| 0 <= j < b.len() implies #[trigger] b[j].frame_number
            == a[j].frame_number by {
            if j != i {
                assert(same_frame(b[j], a[j]));
            }
        }
    }
    lemma_numbers_kept_distinct(o, n);
    lemma_same_numbers_same_position(b, a, o.current_frame, 0);
    let w = a[i].mdct_coefficients.coefficients_after_aliasing@;
    assert(widened(w).len() >= 3);
}

/// Recording a subband sample of channel 0 keeps the records distinct, and
/// a read of the current frame's record afterwards finds it last.
pub proof fn law_sb_sample_read_back(o: TestDataCollector, value: i32, n: TestDataCollector)
    requires
        records_distinct(o),
        recorded_sb_sample(o, 0, value, n),
        o.current_frame <= last_recorded_frame(),
        frame_position(o.test_case.frames@, o.current_frame) is Some,
    ensures
        records_distinct(n),
        frame_position(n.test_case.frames@, n.current_frame) == frame_position(
            o.test_case.frames@,
            o.current_frame,
        ),
        n.test_case.frames@[frame_position(
            n.test_case.frames@,
            n.current_frame,
        )->Some_0].mdct_coefficients.l3_sb_sample@.last() == value,
{
    let a = o.test_case.frames@;
    let b = n.test_case.frames@;
    let i = frame_position(a, o.current_frame)->Some_0;
    lemma_first_position_bounds(a, o.current_frame, 0);
    assert(numbers_kept(b, a)) by {
        assert forall|j: int| 0 <= j < b.len() implies #[trigger] b[j].frame_number
            == a[j].frame_number by {
            if j != i {
                assert(same_frame(b[j], a[j]));
            }
        }
    }
    lemma_numbers_kept_distinct(o, n);
    lemma_same_numbers_same_position(b, a, o.current_frame, 0);
}

} // verus!
