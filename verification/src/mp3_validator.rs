//! Checking the frame structure of an MP3 stream held in memory, frame by
//! frame, stopping at the first error: an optional ID3v2 tag, then frames
//! whose headers must be MPEG-1 Layer III and whose side information must
//! be present. The size of each frame is found by looking for the next
//! frame header near the size its header gives.

use vstd::prelude::*;
use crate::mp3_frame::{
    be_u32, calculate_frame_size, header_error, header_of, plausible_header, read_be_u32,
    side_info_size, theoretical_frame_size, validate_header_fields, whole_slots, bitrate_kbps,
    sample_rate_hz, FrameHeader, ValidationError,
};

verus! {

/// The largest frame size a valid header gives.
pub open spec fn max_frame_size() -> int {
    1443
}

/// Where the frames start: after the ID3v2 tag, if the data starts with
/// one, whose size is the 28-bit value of the low 7 bits of bytes 6 to 9.
pub open spec fn id3_skip(b: Seq<u8>) -> int {
    if b[0] == 73 && b[1] == 68 && b[2] == 51 {
        10 + (b[6] % 128) * 2097152 + (b[7] % 128) * 16384 + (b[8] % 128) * 128 + b[9] % 128
    } else {
        0
    }
}

/// The `i`-th frame size tried around a theoretical size `t`: `t - 2`,
/// `t - 1` (not below 0), `t`, `t + 1`, `t + 2`, `t + 3`.
pub open spec fn candidate(t: int, i: int) -> int {
    if i == 0 {
        if t >= 2 { t - 2 } else { 0 }
    } else if i == 1 {
        if t >= 1 { t - 1 } else { 0 }
    } else {
        t + i - 2
    }
}

/// A plausible frame header starts at `at`.
pub open spec fn header_at(b: Seq<u8>, at: int) -> bool {
    at + 4 <= b.len() && plausible_header(be_u32(b, at) as u32)
}

/// The first of the sizes tried, from the `i`-th on, after which a
/// plausible frame header follows the frame starting at `pos`.
pub open spec fn first_candidate(b: Seq<u8>, pos: int, t: int, i: int) -> Option<int>
    decreases 6 - i,
{
    if i < 0 || i >= 6 {
        None
    } else if header_at(b, pos + candidate(t, i)) {
        Some(candidate(t, i))
    } else {
        first_candidate(b, pos, t, i + 1)
    }
}

/// The size of the frame starting at `pos` whose header gives `t`: the
/// first size tried after which a plausible header follows, else 419.
pub open spec fn actual_frame_size(b: Seq<u8>, pos: int, t: int) -> int {
    match first_candidate(b, pos, t, 0) {
        Some(c) => c,
        None => 419,
    }
}

/// Checks the frame starting at `pos`: its header must be readable and
/// valid, and its side information must fit in the frame and be readable.
/// Gives where the next frame starts.
pub open spec fn frame_step(b: Seq<u8>, pos: int) -> Result<int, ValidationError> {
    if pos + 4 > b.len() {
        Err(ValidationError::UnexpectedEndOfFile { position: pos as usize })
    } else {
        let h = header_of(be_u32(b, pos) as u32);
        match header_error(h, pos as usize) {
            Some(e) => Err(e),
            None => {
                let fs = actual_frame_size(b, pos, theoretical_frame_size(h));
                let side = side_info_size(h.channel_mode);
                if fs - 4 < side {
                    Err(
                        ValidationError::InvalidSideInfoLength {
                            position: (pos + 4) as usize,
                            expected: side as usize,
                            available: (fs - 4) as usize,
                        },
                    )
                } else if pos + 4 + side > b.len() {
                    Err(ValidationError::UnexpectedEndOfFile { position: (pos + 4) as usize })
                } else {
                    Ok(pos + fs)
                }
            },
        }
    }
}

/// A valid header gives a frame size of 94 to 1443 bytes.
pub proof fn lemma_frame_size_range(b: Seq<u8>, pos: int, w: u32)
    requires
        header_error(header_of(w), pos as usize) is None,
    ensures
        96 <= theoretical_frame_size(header_of(w)) <= 1440,
        94 <= actual_frame_size(b, pos, theoretical_frame_size(header_of(w))) <= max_frame_size(),
{
    let h = header_of(w);
    assert((w >> 12u32) & 0xFu32 < 16) by (bit_vector);
    let br = bitrate_kbps(h.bitrate_index as int);
    let sr = sample_rate_hz(h.sample_rate_index as int);
    assert(32 <= br <= 320);
    assert(32000 <= sr <= 48000);
    let q = 144000 * br / sr;
    assert(96 <= q <= 1440) by (nonlinear_arith)
        requires
            q == 144000 * br / sr,
            32 <= br <= 320,
            32000 <= sr <= 48000,
    ;
    if sr == 32000 && br >= 48 {
        assert(q >= 216) by (nonlinear_arith)
            requires
                q == 144000 * br / sr,
                48 <= br,
                sr == 32000,
        ;
    }
    let t = theoretical_frame_size(h);
    lemma_first_candidate_range(b, pos, t, 0);
}

proof fn lemma_first_candidate_range(b: Seq<u8>, pos: int, t: int, i: int)
    requires
        0 <= i,
        0 <= t,
    ensures
        first_candidate(b, pos, t, i) matches Some(c) ==> t - 2 <= c <= t + 3 && c >= 0,
    decreases 6 - i,
{
    if 0 <= i < 6 && !header_at(b, pos + candidate(t, i)) {
        lemma_first_candidate_range(b, pos, t, i + 1);
    }
}

/// Checks the frames from `pos` on, `count` having been counted so far,
/// until the data ends; gives the outcome and the number of frames counted,
/// a frame that fails included.
pub open spec fn frames_from(b: Seq<u8>, pos: int, count: int) -> (Result<(), ValidationError>, int)
    decreases b.len() - pos,
{
    if pos < 0 || pos >= b.len() {
        (Ok(()), count)
    } else {
        match frame_step(b, pos) {
            Err(e) => (Err(e), count + 1),
            Ok(next) => if next >= b.len() {
                (Ok(()), count + 1)
            } else {
                proof {
                    lemma_frame_step_advances(b, pos);
                }
                frames_from(b, next, count + 1)
            },
        }
    }
}

/// A frame that passes moves on by at least 94 bytes.
pub proof fn lemma_frame_step_advances(b: Seq<u8>, pos: int)
    requires
        frame_step(b, pos) is Ok,
    ensures
        pos + 94 <= frame_step(b, pos)->Ok_0 <= pos + max_frame_size(),
{
    lemma_frame_size_range(b, pos, be_u32(b, pos) as u32);
}

/// What checking the whole data gives: the outcome and the number of frames
/// counted. Fewer than 4 bytes are refused, fewer than 10 cannot hold the
/// place of an ID3v2 header.
pub open spec fn validation_of(b: Seq<u8>) -> (Result<(), ValidationError>, int) {
    if b.len() < 4 {
        (Err(ValidationError::InvalidFileSize(b.len() as usize)), 0)
    } else if b.len() < 10 {
        (Err(ValidationError::UnexpectedEndOfFile { position: 0 }), 0)
    } else {
        frames_from(b, id3_skip(b), 0)
    }
}

/// Checks the frame structure of an MP3 stream held in memory.
pub struct Mp3Validator {
    /// The stream's bytes.
    pub data: Vec<u8>,
    /// Where the frame being checked starts.
    pub position: usize,
    /// Frames counted so far.
    pub frame_count: usize,
    /// Whether progress is to be reported in detail.
    pub verbose: bool,
}

impl Mp3Validator {
    /// A validator at the start of `data`.
    pub fn new(data: Vec<u8>, verbose: bool) -> (v: Self)
        ensures
            v.data@ == data@,
            v.position == 0,
            v.frame_count == 0,
            v.verbose == verbose,
    {
        Mp3Validator { data, position: 0, frame_count: 0, verbose }
    }

    /// Checks the whole stream: its size, an ID3v2 tag, then each frame
    /// until the data ends. Counts the frames checked.
    pub fn validate(&mut self) -> (r: Result<(), ValidationError>)
        requires
            old(self).position == 0,
            old(self).frame_count == 0,
            old(self).data@.len() <= isize::MAX,
        ensures
            final(self).data@ == old(self).data@,
            (r, final(self).frame_count as int) == validation_of(old(self).data@),
    {
        self.check_file_size()?;
        if self.data.len() < 10 {
            return Err(ValidationError::UnexpectedEndOfFile { position: 0 });
        }
        self.skip_id3v2_tag()?;
        while !self.is_end_of_file()
            invariant
                self.data@ == old(self).data@,
                self.data@.len() <= isize::MAX,
                10 <= self.data@.len(),
                self.frame_count <= self.position,
                self.position <= self.data@.len() + max_frame_size() + 0x1000_0000,
                validation_of(self.data@) == frames_from(
                    self.data@,
                    self.position as int,
                    self.frame_count as int,
                ),
            decreases self.data@.len() + max_frame_size() - self.position,
        {
            let ghost before = self.position as int;
            let step = self.validate_frame();
            match step {
                Err(e) => {
                    return Err(e);
                },
                Ok(()) => {},
            }
            proof {
                lemma_frame_step_advances(self.data@, before);
            }
        }
        assert(frames_from(self.data@, self.position as int, self.frame_count as int) == (
        Ok::<(), ValidationError>(()), self.frame_count as int));
        Ok(())
    }

    /// The stream must have at least 4 bytes.
    pub fn check_file_size(&self) -> (r: Result<(), ValidationError>)
        ensures
            self.data@.len() < 4 ==> r == Err::<(), ValidationError>(
                ValidationError::InvalidFileSize(self.data@.len() as usize),
            ),
            self.data@.len() >= 4 ==> r is Ok,
    {
        let file_size = self.data.len();
        if file_size < 4 {
            return Err(ValidationError::InvalidFileSize(file_size));
        }
        Ok(())
    }

    /// Moves past an ID3v2 tag at the start of the stream, if there is one.
    pub fn skip_id3v2_tag(&mut self) -> (r: Result<(), ValidationError>)
        ensures
            final(self).data@ == old(self).data@,
            final(self).frame_count == old(self).frame_count,
            old(self).data@.len() < 10 ==> r == Err::<(), ValidationError>(
                ValidationError::UnexpectedEndOfFile { position: 0 },
            ) && final(self).position == old(self).position,
            old(self).data@.len() >= 10 ==> r is Ok && final(self).position == id3_skip(
                old(self).data@,
            ),
    {
        if self.data.len() < 10 {
            return Err(ValidationError::UnexpectedEndOfFile { position: 0 });
        }
        if self.data[0] == 73 && self.data[1] == 68 && self.data[2] == 51 {
            let size: u32 = ((self.data[6] as u32 & 0x7F) << 21) | ((self.data[7] as u32 & 0x7F)
                << 14) | ((self.data[8] as u32 & 0x7F) << 7) | (self.data[9] as u32 & 0x7F);
            proof {
                let b6 = self.data@[6] as u32;
                let b7 = self.data@[7] as u32;
                let b8 = self.data@[8] as u32;
                let b9 = self.data@[9] as u32;
                assert(((b6 & 0x7F) << 21) | ((b7 & 0x7F) << 14) | ((b8 & 0x7F) << 7) | (b9 & 0x7F)
                    == (b6 % 128) * 2097152 + (b7 % 128) * 16384 + (b8 % 128) * 128 + b9 % 128)
                    by (bit_vector)
                    requires
                        b6 < 256 && b7 < 256 && b8 < 256 && b9 < 256,
                ;
            }
            self.position = (10 + size) as usize;
        } else {
            self.position = 0;
        }
        Ok(())
    }

    /// Whether the frame position has reached the end of the stream.
    pub fn is_end_of_file(&self) -> (r: bool)
        ensures
            r == (self.position >= self.data@.len()),
    {
        self.position >= self.data.len()
    }

    /// Checks one frame and moves to the next.
    pub fn validate_frame(&mut self) -> (r: Result<(), ValidationError>)
        requires
            old(self).frame_count < usize::MAX,
            old(self).position < old(self).data@.len() <= isize::MAX,
        ensures
            final(self).data@ == old(self).data@,
            final(self).frame_count == old(self).frame_count + 1,
            match frame_step(old(self).data@, old(self).position as int) {
                Ok(next) => r is Ok && final(self).position == next,
                Err(e) => r == Err::<(), ValidationError>(e),
            },
    {
        self.frame_count = self.frame_count + 1;
        let header = self.parse_frame_header()?;
        self.validate_header_fields(&header)?;
        proof {
            lemma_frame_size_range(
                self.data@,
                self.position as int,
                be_u32(self.data@, self.position as int) as u32,
            );
        }
        let theoretical_size = self.calculate_frame_size(&header)?;
        let actual_frame_size = self.find_actual_frame_size(theoretical_size)?;
        self.validate_side_info(&header, actual_frame_size)?;
        self.skip_to_next_frame(actual_frame_size)?;
        Ok(())
    }

    /// The header of the frame at the current position.
    pub fn parse_frame_header(&self) -> (r: Result<FrameHeader, ValidationError>)
        ensures
            self.position + 4 > self.data@.len() ==> r == Err::<FrameHeader, ValidationError>(
                ValidationError::UnexpectedEndOfFile { position: self.position },
            ),
            self.position + 4 <= self.data@.len() ==> r == Ok::<FrameHeader, ValidationError>(
                header_of(be_u32(self.data@, self.position as int) as u32),
            ),
    {
        if self.data.len() < 4 || self.position > self.data.len() - 4 {
            return Err(ValidationError::UnexpectedEndOfFile { position: self.position });
        }
        let header_u32 = read_be_u32(self.data.as_slice(), self.position);
        Ok(FrameHeader::from_word(header_u32))
    }

    /// Checks the header's fields, reporting the current position.
    pub fn validate_header_fields(&self, header: &FrameHeader) -> (r: Result<(), ValidationError>)
        ensures
            match header_error(*header, self.position) {
                Some(e) => r == Err::<(), ValidationError>(e),
                None => r is Ok,
            },
    {
        validate_header_fields(header, self.position)
    }

    /// The frame size, without padding, the header gives.
    pub fn calculate_frame_size(&self, header: &FrameHeader) -> (r: Result<usize, ValidationError>)
        ensures
            r == Ok::<usize, ValidationError>(theoretical_frame_size(*header) as usize),
    {
        Ok(calculate_frame_size(header))
    }

    /// The size of the frame at the current position: the first of
    /// `t - 2`, `t - 1`, `t`, `t + 1`, `t + 2`, `t + 3` after which a
    /// plausible frame header follows, else 419.
    pub fn find_actual_frame_size(&self, theoretical_size: usize) -> (r: Result<usize, ValidationError>)
        requires
            theoretical_size + 3 <= usize::MAX,
        ensures
            r == Ok::<usize, ValidationError>(
                actual_frame_size(self.data@, self.position as int, theoretical_size as int) as usize,
            ),
    {
        let t = theoretical_size;
        let candidates: [usize; 6] = [
            if t >= 2 { t - 2 } else { 0 },
            if t >= 1 { t - 1 } else { 0 },
            t,
            t + 1,
            t + 2,
            t + 3,
        ];
        let len = self.data.len();
        let pos = self.position;
        let mut i: usize = 0;
        while i < 6
            invariant
                i <= 6,
                len == self.data@.len(),
                pos == self.position,
                t == theoretical_size,
                t + 3 <= usize::MAX,
                forall|j: int| 0 <= j < 6 ==> candidates[j] == candidate(t as int, j),
                first_candidate(self.data@, pos as int, t as int, 0) == first_candidate(
                    self.data@,
                    pos as int,
                    t as int,
                    i as int,
                ),
            decreases 6 - i,
        {
            let c = candidates[i];
            if len >= 4 && pos <= len - 4 && c <= len - 4 - pos {
                let w = read_be_u32(self.data.as_slice(), pos + c);
                let h = FrameHeader::from_word(w);
                if h.sync_word >= 0xFFE && h.mpeg_version == 1 && h.layer == 1 && h.bitrate_index > 0
                    && h.bitrate_index < 15 && h.sample_rate_index < 3 {
                    assert(header_at(self.data@, pos + c));
                    assert(first_candidate(self.data@, pos as int, t as int, i as int) == Some(c as int));
                    return Ok(c);
                }
            }
            assert(!header_at(self.data@, pos + c));
            i = i + 1;
        }
        Ok(419)
    }

    /// Checks that the frame has room for its side information after the
    /// header and that the side information can be read.
    pub fn validate_side_info(&self, header: &FrameHeader, frame_size: usize) -> (r: Result<(), ValidationError>)
        requires
            frame_size >= 4,
            self.position + 36 <= usize::MAX,
        ensures
            ({
                let side = side_info_size(header.channel_mode);
                if frame_size - 4 < side {
                    r == Err::<(), ValidationError>(
                        ValidationError::InvalidSideInfoLength {
                            position: (self.position + 4) as usize,
                            expected: side as usize,
                            available: (frame_size - 4) as usize,
                        },
                    )
                } else if self.position + 4 + side > self.data@.len() {
                    r == Err::<(), ValidationError>(
                        ValidationError::UnexpectedEndOfFile { position: (self.position + 4) as usize },
                    )
                } else {
                    r is Ok
                }
            }),
    {
        let side_info_size: usize = if header.channel_mode == 3 { 17 } else { 32 };
        let remaining_frame_size = frame_size - 4;
        if remaining_frame_size < side_info_size {
            return Err(
                ValidationError::InvalidSideInfoLength {
                    position: self.position + 4,
                    expected: side_info_size,
                    available: remaining_frame_size,
                },
            );
        }
        let len = self.data.len();
        if len < 4 + side_info_size || self.position > len - 4 - side_info_size {
            return Err(ValidationError::UnexpectedEndOfFile { position: self.position + 4 });
        }
        let start = self.position + 4;
        let side_info = slice_range(self.data.as_slice(), start, start + side_info_size);
        self.validate_side_info_content(side_info, header)
    }

    /// Checks the side information's content: the granule information that
    /// follows the main data pointer and private bits (2 bytes in mono, 4
    /// otherwise) must be complete.
    pub fn validate_side_info_content(&self, side_info: &[u8], header: &FrameHeader) -> (r: Result<(), ValidationError>)
        requires
            side_info@.len() >= if header.channel_mode == 3 { 2int } else { 4int },
        ensures
            ({
                let skip: int = if header.channel_mode == 3 { 2 } else { 4 };
                let need: int = if header.channel_mode == 3 { 15 } else { 28 };
                let available = side_info@.len() - skip;
                if available < need {
                    r == Err::<(), ValidationError>(
                        ValidationError::InvalidSideInfoLength {
                            position: self.position,
                            expected: need as usize,
                            available: available as usize,
                        },
                    )
                } else {
                    r is Ok
                }
            }),
    {
        if header.channel_mode == 3 {
            self.validate_granule_info_mono(slice_range(side_info, 2, side_info.len()))
        } else {
            self.validate_granule_info_stereo(slice_range(side_info, 4, side_info.len()))
        }
    }

    /// The granule information of a mono frame needs 15 bytes.
    pub fn validate_granule_info_mono(&self, granule_data: &[u8]) -> (r: Result<(), ValidationError>)
        ensures
            granule_data@.len() < 15 ==> r == Err::<(), ValidationError>(
                ValidationError::InvalidSideInfoLength {
                    position: self.position,
                    expected: 15,
                    available: granule_data@.len() as usize,
                },
            ),
            granule_data@.len() >= 15 ==> r is Ok,
    {
        if granule_data.len() < 15 {
            return Err(
                ValidationError::InvalidSideInfoLength {
                    position: self.position,
                    expected: 15,
                    available: granule_data.len(),
                },
            );
        }
        Ok(())
    }

    /// The granule information of a two-channel frame needs 28 bytes.
    pub fn validate_granule_info_stereo(&self, granule_data: &[u8]) -> (r: Result<(), ValidationError>)
        ensures
            granule_data@.len() < 28 ==> r == Err::<(), ValidationError>(
                ValidationError::InvalidSideInfoLength {
                    position: self.position,
                    expected: 28,
                    available: granule_data@.len() as usize,
                },
            ),
            granule_data@.len() >= 28 ==> r is Ok,
    {
        if granule_data.len() < 28 {
            return Err(
                ValidationError::InvalidSideInfoLength {
                    position: self.position,
                    expected: 28,
                    available: granule_data.len(),
                },
            );
        }
        Ok(())
    }

    /// Moves to the frame after one of `frame_size` bytes.
    pub fn skip_to_next_frame(&mut self, frame_size: usize) -> (r: Result<(), ValidationError>)
        requires
            old(self).position + frame_size <= usize::MAX,
        ensures
            r is Ok,
            final(self).position == old(self).position + frame_size,
            final(self).data@ == old(self).data@,
            final(self).frame_count == old(self).frame_count,
    {
        self.position = self.position + frame_size;
        Ok(())
    }
}

/// The bytes `start..end` of `s`.
pub fn slice_range(s: &[u8], start: usize, end: usize) -> (r: &[u8])
    requires
        start <= end <= s@.len(),
    ensures
        r@ == s@.subrange(start as int, end as int),
{
    vstd::slice::slice_subrange(s, start, end)
}

} // verus!
