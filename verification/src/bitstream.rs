//! The Layer III bitstream: a bit writer with a 32-bit cache, and the
//! formatting of a frame's header, side information and Huffman-coded main
//! data into it.

use vstd::prelude::*;
use crate::bits::{
    lemma_zero_shift_facts, bytes_bits, lemma_bytes_bits_append, lemma_bytes_bits_len, lemma_cache_fill, lemma_cache_insert,
    lemma_cache_rest, lemma_value_bits_ones, lemma_word_bytes_bits, lemma_word_bytes_take_bits, lemma_word_prefix_zero_tail,
    lemma_value_bits_concat, lemma_value_bits_push, lemma_value_bits_zero, ones, value_bits, word_bytes, word_prefix, zeros,
};
use crate::error::{BitstreamFault, EncodingError};
use crate::huffman::{HuffCodeTab, tables_wf};
use crate::types::{
    GrInfo, MpegFrameInfo, ShineGlobalConfig, ShineSideInfo, SideInfoGranule,
    SHINE_SCALE_FACT_BAND_INDEX, SHINE_SLEN1_TAB, SHINE_SLEN2_TAB,
};

verus! {

/// Writes bits, most significant first, into a growing byte buffer. Bits are
/// gathered in a 32-bit cache that is stored big-endian once it is full.
#[derive(Debug)]
pub struct BitstreamWriter {
    /// The byte buffer.
    pub data: Vec<u8>,
    /// The buffer's size.
    pub data_size: i32,
    /// Number of bytes of the buffer that have been written.
    pub data_position: i32,
    /// Bits not yet stored, from the most significant bit down.
    pub cache: u32,
    /// Number of bits still free in the cache.
    pub cache_bits: i32,
}

/// Whether one write of `n` bits of `val` is accepted.
pub open spec fn put_is_valid(val: u32, n: i32) -> bool {
    &&& 0 <= n <= 32
    &&& n < 32 ==> val >> (n as u32) == 0
}

/// The fault reported for a refused write.
pub open spec fn put_fault(val: u32, n: i32) -> BitstreamFault {
    if n > 32 {
        BitstreamFault::TooManyBits { n: n as i64 }
    } else if n < 0 {
        BitstreamFault::NegativeBitCount { n: n as i64 }
    } else {
        BitstreamFault::UpperBitsSet { val, n: n as i64 }
    }
}

/// `b` is the writer `a` after an accepted write of the `n` low bits of
/// `val`: the bits are appended to the stream, at most one cache word is
/// stored, and the bytes stored before stay.
pub open spec fn write_step(a: BitstreamWriter, b: BitstreamWriter, val: u32, n: i32) -> bool {
    &&& put_is_valid(val, n)
    &&& a.wf()
    &&& b.wf()
    &&& b.stream() == a.stream() + value_bits(val, n as nat)
    &&& (b.data_position == a.data_position || b.data_position == a.data_position + 4)
    &&& b.data@.subrange(0, a.data_position as int) == a.data@.subrange(0, a.data_position as int)
}

/// Storing `k` more bytes at the write position needs no growth of the
/// buffer, or its growth by half stays within `i32`.
pub open spec fn can_store(bs: BitstreamWriter, k: int) -> bool {
    bs.data_position + k < bs.data_size || bs.data_size + bs.data_size / 2 <= i32::MAX
}

impl Default for BitstreamWriter {
    /// A writer over a zeroed buffer of 8192 bytes.
    fn default() -> (w: Self)
        ensures
            w.data@ == Seq::new(8192, |i: int| 0u8),
            w.data_size == 8192,
            w.data_position == 0,
            w.cache == 0,
            w.cache_bits == 32,
            w.wf(),
            w.stream() == Seq::<bool>::empty(),
    {
        BitstreamWriter::new(8192)
    }
}

impl BitstreamWriter {
    /// The writer's bookkeeping is consistent: the buffer size is recorded,
    /// the buffer is large enough to grow by half, the cache holds between 0
    /// and 31 bits and its free bits are clear.
    pub open spec fn wf(&self) -> bool {
        &&& self.data@.len() == self.data_size
        &&& 8 <= self.data_size
        &&& 0 <= self.data_position <= self.data_size
        &&& 1 <= self.cache_bits <= 32
        &&& self.cache << ((32 - self.cache_bits) as u32) == 0
    }

    /// Every bit written so far: the stored bytes, then the bits held in the cache.
    #[verifier::opaque]
    pub open spec fn stream(&self) -> Seq<bool> {
        bytes_bits(self.data@.subrange(0, self.data_position as int)) + word_prefix(
            self.cache,
            (32 - self.cache_bits) as nat,
        )
    }

    pub proof fn lemma_stream_len(&self)
        requires
            self.wf(),
        ensures
            self.stream().len() == 8 * self.data_position + 32 - self.cache_bits,
    {
        reveal(BitstreamWriter::stream);
        lemma_bytes_bits_len(self.data@.subrange(0, self.data_position as int));
    }

    /// Opens a writer over a zeroed buffer of `size` bytes.
    pub fn new(size: i32) -> (w: Self)
        requires
            size >= 0,
        ensures
            w.data@ == Seq::new(size as nat, |i: int| 0u8),
            w.data_size == size,
            w.data_position == 0,
            w.cache == 0,
            w.cache_bits == 32,
            size >= 8 ==> w.wf(),
            w.stream() == Seq::<bool>::empty(),
    {
        reveal(BitstreamWriter::stream);
        let data = vec![0u8; size as usize];
        let w = BitstreamWriter { data, data_size: size, data_position: 0, cache: 0, cache_bits: 32 };
        assert(w.data@ =~= Seq::new(size as nat, |i: int| 0u8));
        proof { lemma_zero_shift_facts(); }
        assert(w.data@.subrange(0, 0) =~= Seq::<u8>::empty());
        assert(bytes_bits(Seq::<u8>::empty()) =~= Seq::<bool>::empty());
        assert(w.stream() =~= Seq::<bool>::empty());
        w
    }

    /// Replaces the buffer by one half as large again, keeping the bytes
    /// written so far and zeroing the rest.
    fn grow(&mut self)
        requires
            old(self).wf(),
            old(self).data_size + old(self).data_size / 2 <= i32::MAX,
        ensures
            final(self).data_size == old(self).data_size + old(self).data_size / 2,
            final(self).data@ == old(self).data@.subrange(0, old(self).data_position as int) + Seq::new(
                (final(self).data_size - old(self).data_position) as nat,
                |i: int| 0u8,
            ),
            final(self).data_position == old(self).data_position,
            final(self).cache == old(self).cache,
            final(self).cache_bits == old(self).cache_bits,
            final(self).wf(),
            final(self).stream() == old(self).stream(),
    {
        reveal(BitstreamWriter::stream);
        let new_size = self.data_size + self.data_size / 2;
        let mut new_buffer = vec![0u8; new_size as usize];
        let pos = self.data_position as usize;
        let mut i: usize = 0;
        while i < pos
            invariant
                0 <= i <= pos,
                pos == self.data_position,
                self.wf(),
                new_buffer@.len() == new_size,
                new_size == self.data_size + self.data_size / 2,
                forall|j: int| 0 <= j < i ==> new_buffer@[j] == self.data@[j],
                forall|j: int| i <= j < new_size ==> new_buffer@[j] == 0u8,
            decreases pos - i,
        {
            new_buffer[i] = self.data[i];
            i = i + 1;
        }
        let ghost old_prefix = self.data@.subrange(0, pos as int);
        self.data = new_buffer;
        self.data_size = new_size;
        assert(self.data@.subrange(0, pos as int) =~= old_prefix);
        assert(self.data@ =~= old_prefix + Seq::new((new_size - pos) as nat, |i: int| 0u8));
    }

    /// Stores the four bytes of `w` at the write position and moves past them.
    fn store_word(&mut self, w: u32)
        requires
            old(self).data@.len() == old(self).data_size,
            0 <= old(self).data_position,
            old(self).data_position + 4 <= old(self).data_size,
        ensures
            final(self).data@ == old(self).data@.update(old(self).data_position as int, (w >> 24u32) as u8)
                .update(old(self).data_position + 1, (w >> 16u32) as u8)
                .update(old(self).data_position + 2, (w >> 8u32) as u8)
                .update(old(self).data_position + 3, w as u8),
            final(self).data@.subrange(0, old(self).data_position + 4) == old(self).data@.subrange(
                0,
                old(self).data_position as int,
            ) + word_bytes(w),
            final(self).data_size == old(self).data_size,
            final(self).data_position == old(self).data_position + 4,
            final(self).cache == old(self).cache,
            final(self).cache_bits == old(self).cache_bits,
    {
        let p = self.data_position as usize;
        self.data[p] = (w >> 24u32) as u8;
        self.data[p + 1] = (w >> 16u32) as u8;
        self.data[p + 2] = (w >> 8u32) as u8;
        self.data[p + 3] = w as u8;
        self.data_position = self.data_position + 4;
        assert(self.data@.subrange(0, p + 4) =~= old(self).data@.subrange(0, p as int) + word_bytes(w));
    }

    /// Stores the first `k` bytes of `w`, most significant first, at the
    /// write position and moves past them.
    fn store_leading_bytes(&mut self, w: u32, k: usize)
        requires
            old(self).data@.len() == old(self).data_size,
            0 <= old(self).data_position,
            k <= 4,
            old(self).data_position + k <= old(self).data_size,
        ensures
            final(self).data@.len() == old(self).data@.len(),
            final(self).data@.subrange(0, old(self).data_position + k) == old(self).data@.subrange(
                0,
                old(self).data_position as int,
            ) + word_bytes(w).take(k as int),
            final(self).data_size == old(self).data_size,
            final(self).data_position == old(self).data_position + k,
            final(self).cache == old(self).cache,
            final(self).cache_bits == old(self).cache_bits,
    {
        let pos = self.data_position as usize;
        let mut j: usize = 0;
        while j < k
            invariant
                0 <= j <= k <= 4,
                pos == old(self).data_position,
                pos + k <= self.data@.len(),
                self.data@.len() == old(self).data@.len(),
                self.data_size == old(self).data_size,
                self.data_position == old(self).data_position,
                self.cache == old(self).cache,
                self.cache_bits == old(self).cache_bits,
                self.data@.subrange(0, pos + j) == old(self).data@.subrange(0, pos as int) + word_bytes(
                    w,
                ).take(j as int),
            decreases k - j,
        {
            let shift: u32 = (24 - 8 * j) as u32;
            let byte = #[verifier::truncate] ((w >> shift) as u8);
            let ghost before = self.data@;
            self.data[pos + j] = byte;
            assert(byte == word_bytes(w)[j as int]) by {
                if j == 0 {
                    assert(shift == 24);
                } else if j == 1 {
                    assert(shift == 16);
                } else if j == 2 {
                    assert(shift == 8);
                } else {
                    assert(shift == 0);
                    lemma_zero_shift_facts();
                }
            }
            assert(self.data@.subrange(0, pos + j + 1) =~= before.subrange(0, pos + j).push(byte));
            assert(word_bytes(w).take(j + 1) =~= word_bytes(w).take(j as int).push(byte));
            j = j + 1;
        }
        self.data_position = self.data_position + k as i32;
    }

    /// Writes the `n` low bits of `val`, most significant first. A write of
    /// more than 32 bits, of a negative number of bits, or of a value with
    /// bits set above the `n` low ones is refused and changes nothing.
    pub fn put_bits(&mut self, val: u32, n: i32) -> (r: Result<(), EncodingError>)
        requires
            old(self).wf(),
            put_is_valid(val, n) && n > 0 && old(self).cache_bits <= n ==> can_store(*old(self), 4),
        ensures
            final(self).wf(),
            r is Ok <==> put_is_valid(val, n),
            n == 0 ==> *final(self) == *old(self),
            forall|i: int|
                final(self).data_position <= i < final(self).data@.len() ==> #[trigger] final(self).data@[i]
                    == if final(self).data_size == old(self).data_size {
                    old(self).data@[i]
                } else {
                    0u8
                },
            r is Ok ==> final(self).stream() == old(self).stream() + value_bits(val, n as nat),
            r is Ok ==> write_step(*old(self), *final(self), val, n),
            r is Err ==> *final(self) == *old(self),
            r is Err ==> r == Err::<(), EncodingError>(EncodingError::BitstreamError(put_fault(val, n))),
            final(self).data_size == if r is Ok && n > 0 && old(self).cache_bits <= n
                && old(self).data_position + 4 >= old(self).data_size {
                old(self).data_size + old(self).data_size / 2
            } else {
                old(self).data_size as int
            },
            final(self).data_position == old(self).data_position + if r is Ok && n > 0
                && old(self).cache_bits <= n {
                4int
            } else {
                0int
            },
            final(self).cache_bits == if r is Ok && n > 0 {
                if old(self).cache_bits > n {
                    old(self).cache_bits - n
                } else {
                    32 - (n - old(self).cache_bits)
                }
            } else {
                old(self).cache_bits as int
            },
            final(self).data@.subrange(0, old(self).data_position as int) == old(self).data@.subrange(
                0,
                old(self).data_position as int,
            ),
    {
        reveal(BitstreamWriter::stream);
        if n > 32 {
            return Err(EncodingError::BitstreamError(BitstreamFault::TooManyBits { n: n as i64 }));
        }
        if n < 0 {
            return Err(
                EncodingError::BitstreamError(BitstreamFault::NegativeBitCount { n: n as i64 }),
            );
        }
        if n < 32 && (val >> (n as u32)) != 0 {
            return Err(
                EncodingError::BitstreamError(BitstreamFault::UpperBitsSet { val, n: n as i64 }),
            );
        }
        if n == 0 {
            assert(value_bits(val, 0) =~= Seq::<bool>::empty());
            assert(old(self).stream() + value_bits(val, 0) =~= old(self).stream());
            return Ok(());
        }
        let ghost old_w = *self;
        if self.cache_bits > n {
            let cb = self.cache_bits;
            self.cache_bits = self.cache_bits - n;
            if self.cache_bits >= 0 && self.cache_bits < 32 {
                let shifted_val = val << (self.cache_bits as u32);
                proof {
                    lemma_cache_insert(old_w.cache, cb as u32, val, n as u32);
                }
                self.cache = self.cache | shifted_val;
                assert((32 - self.cache_bits) as u32 == (32 - (cb - n)) as u32);
                assert(self.stream() =~= old_w.stream() + value_bits(val, n as nat));
            } else {
                return Err(
                    EncodingError::BitstreamError(
                        BitstreamFault::InvalidCacheBits { cache_bits: self.cache_bits as i64 },
                    ),
                );
            }
        } else {
            if self.data_position + 4 >= self.data_size {
                self.grow();
            }
            let ghost mid = *self;
            let remaining_n = n - self.cache_bits;
            let cb = self.cache_bits;
            proof {
                lemma_cache_fill(mid.cache, cb as u32, val, remaining_n as u32);
            }
            let word = self.cache | (val >> (remaining_n as u32));
            self.cache = word;
            self.store_word(word);
            proof {
                let p0 = old_w.data_position as int;
                assert(mid.data@.subrange(0, p0) =~= old_w.data@.subrange(0, p0));
                assert(self.data@.subrange(0, p0) =~= self.data@.subrange(0, p0 + 4).subrange(0, p0));
                assert(self.data@.subrange(0, p0) =~= old_w.data@.subrange(0, p0));
                lemma_word_bytes_bits(word);
                lemma_bytes_bits_append(
                    mid.data@.subrange(0, mid.data_position as int),
                    word_bytes(word),
                );
            }
            self.cache_bits = 32 - remaining_n;
            if remaining_n != 0 && self.cache_bits > 0 && self.cache_bits < 32 {
                let new_cache = val << (self.cache_bits as u32);
                self.cache = new_cache;
                proof {
                    lemma_cache_rest(val, cb as u32, remaining_n as u32);
                }
                assert(value_bits(val, n as nat) =~= value_bits(val, n as nat).take(cb as int)
                    + value_bits(val, n as nat).skip(cb as int));
            } else {
                self.cache = 0;
                assert(remaining_n == 0);
                assert(word_prefix(0, 0) =~= Seq::<bool>::empty());
                assert(value_bits(val, n as nat).take(cb as int) =~= value_bits(val, n as nat));
                proof { lemma_zero_shift_facts(); }
            }
            assert(self.stream() =~= old_w.stream() + value_bits(val, n as nat));
        }
        Ok(())
    }

    /// Number of bits written so far.
    pub fn get_bits_count(&self) -> (count: i32)
        requires
            i32::MIN <= 8 * self.data_position <= i32::MAX,
            i32::MIN <= 32 - self.cache_bits <= i32::MAX,
            i32::MIN <= 8 * self.data_position + 32 - self.cache_bits <= i32::MAX,
        ensures
            count == 8 * self.data_position + 32 - self.cache_bits,
            self.wf() ==> count == self.stream().len(),
    {
        proof {
            if self.wf() {
                self.lemma_stream_len();
            }
        }
        self.data_position * 8 + (32 - self.cache_bits)
    }

    /// The bytes stored so far.
    pub fn get_data(&self) -> (out: &[u8])
        requires
            0 <= self.data_position <= self.data@.len(),
        ensures
            out@ == self.data@.subrange(0, self.data_position as int),
    {
        vstd::slice::slice_subrange(self.data.as_slice(), 0, self.data_position as usize)
    }

    /// Stores the bits held in the cache as whole bytes, the last one padded
    /// with zero bits, and empties the cache. With an empty cache nothing
    /// changes.
    #[verifier::rlimit(30)]
    pub fn flush(&mut self) -> (r: Result<(), EncodingError>)
        requires
            old(self).wf(),
            old(self).cache_bits < 32 ==> can_store(*old(self), (32 - old(self).cache_bits + 7) / 8),
        ensures
            r is Ok,
            final(self).wf(),
            final(self).cache_bits == 32,
            final(self).cache == 0,
            final(self).stream() == old(self).stream() + zeros(
                ((8 - (32 - old(self).cache_bits) % 8) % 8) as nat,
            ),
            final(self).stream() == bytes_bits(
                final(self).data@.subrange(0, final(self).data_position as int),
            ),
            final(self).data_position == old(self).data_position + (32 - old(self).cache_bits + 7)
                / 8,
            final(self).data_size == if old(self).cache_bits < 32 && old(self).data_position + (32
                - old(self).cache_bits + 7) / 8 >= old(self).data_size {
                old(self).data_size + old(self).data_size / 2
            } else {
                old(self).data_size as int
            },
            final(self).data@.subrange(0, old(self).data_position as int) == old(self).data@.subrange(
                0,
                old(self).data_position as int,
            ),
            old(self).cache_bits == 32 ==> *final(self) == *old(self),
    {
        reveal(BitstreamWriter::stream);
        if self.cache_bits < 32 {
            let bits_in_cache = 32 - self.cache_bits;
            let bytes_to_write = (bits_in_cache + 7) / 8;
            if self.data_position + bytes_to_write >= self.data_size {
                self.grow();
                assert(self.data@.subrange(0, old(self).data_position as int) =~= old(self).data@.subrange(
                    0,
                    old(self).data_position as int,
                ));
            }
            let ghost mid = *self;
            let c = self.cache;
            let pos = self.data_position as usize;
            let k = bytes_to_write as usize;
            self.store_leading_bytes(c, k);
            self.cache = 0;
            self.cache_bits = 32;
            proof {
                lemma_word_bytes_take_bits(c, k as int);
                lemma_bytes_bits_append(mid.data@.subrange(0, pos as int), word_bytes(c).take(k as int));
                lemma_word_prefix_zero_tail(c, mid.cache_bits as u32, (8 * k) as nat);
                assert(word_prefix(0, 0) =~= Seq::<bool>::empty());
                lemma_zero_shift_facts();
                assert(self.stream() =~= bytes_bits(self.data@.subrange(0, self.data_position as int)));
                assert(self.stream() =~= mid.stream() + zeros(
                    ((8 - (32 - mid.cache_bits) % 8) % 8) as nat,
                ));
                assert(self.data@.subrange(0, pos as int) =~= self.data@.subrange(0, pos + k).subrange(
                    0,
                    pos as int,
                ));
                assert(self.data@.subrange(0, pos as int) =~= mid.data@.subrange(0, pos as int));
            }
        } else {
            let c = self.cache;
            proof { lemma_zero_shift_facts(); }
            assert(c == 0);
            assert(zeros(0) =~= Seq::<bool>::empty());
            assert(word_prefix(self.cache, 0) =~= Seq::<bool>::empty());
            assert(self.stream() =~= old(self).stream() + zeros(0));
        }
        Ok(())
    }

    /// Aligns the stream to a byte boundary: pads the bits held in the cache
    /// with zero bits up to the next byte boundary and stores those partial
    /// bytes, so that only the padding is added to the stream. The cache's
    /// free bits are always clear, so storing its last, partly filled byte
    /// is that padding. With an empty cache nothing changes.
    pub fn byte_align(&mut self) -> (r: Result<(), EncodingError>)
        requires
            old(self).wf(),
            old(self).cache_bits < 32 ==> can_store(*old(self), (32 - old(self).cache_bits + 7) / 8),
        ensures
            r is Ok,
            final(self).wf(),
            final(self).cache_bits == 32,
            final(self).cache == 0,
            final(self).stream() == old(self).stream() + zeros(
                ((8 - (32 - old(self).cache_bits) % 8) % 8) as nat,
            ),
            final(self).stream() == bytes_bits(
                final(self).data@.subrange(0, final(self).data_position as int),
            ),
            final(self).data_position == old(self).data_position + (32 - old(self).cache_bits + 7)
                / 8,
            final(self).data_size == if old(self).cache_bits < 32 && old(self).data_position + (32
                - old(self).cache_bits + 7) / 8 >= old(self).data_size {
                old(self).data_size + old(self).data_size / 2
            } else {
                old(self).data_size as int
            },
            final(self).data@.subrange(0, old(self).data_position as int) == old(self).data@.subrange(
                0,
                old(self).data_position as int,
            ),
            old(self).cache_bits == 32 ==> *final(self) == *old(self),
    {
        self.flush()
    }
}


/// Largest number of bits a stream may hold; bit counts stay within `i32`.
pub open spec fn stream_limit() -> int {
    0x7fff_0000
}

/// The writer can take `extra` more bits.
pub open spec fn has_room(bs: BitstreamWriter, extra: int) -> bool {
    bs.wf() && bs.stream().len() + extra <= stream_limit()
}

/// The magnitude of `x`.
pub open spec fn abs_value(x: i32) -> int {
    if x < 0 {
        -x
    } else {
        x as int
    }
}

/// The sign bit sent after a non-zero coded magnitude: set for a negative value.
pub open spec fn sign_bits(x: i32) -> Seq<bool> {
    if x != 0 {
        seq![x < 0]
    } else {
        Seq::empty()
    }
}

/// The escape bits of a magnitude coded with an escape table: the excess
/// over 15, in `linbits` bits, for magnitudes of 15 and more.
pub open spec fn escape_bits(a: int, linbits: u32) -> Seq<bool> {
    if a > 14 {
        value_bits((a - 15) as u32, linbits as nat)
    } else {
        Seq::empty()
    }
}

/// Index of the code word of the pair `(x, y)` in table number `table_select`.
pub open spec fn pair_index(h: HuffCodeTab, table_select: int, x: i32, y: i32) -> int {
    if table_select > 15 {
        (if abs_value(x) > 14 { 15 } else { abs_value(x) }) * h.ylen + (if abs_value(y) > 14 {
            15
        } else {
            abs_value(y)
        })
    } else {
        abs_value(x) * h.ylen + abs_value(y)
    }
}

/// The pair `(x, y)` can be coded with table number `table_select`: its code
/// word exists and the escape values fit in `linbits` bits.
pub open spec fn pair_codable(h: HuffCodeTab, table_select: int, x: i32, y: i32) -> bool {
    &&& x != i32::MIN
    &&& y != i32::MIN
    &&& h.has_codes() ==> {
        &&& pair_index(h, table_select, x, y) < h.code_count()
        &&& table_select > 15 && abs_value(x) > 14 ==> ((abs_value(x) - 15) as u32) >> h.linbits
            == 0
        &&& table_select > 15 && abs_value(y) > 14 ==> ((abs_value(y) - 15) as u32) >> h.linbits
            == 0
    }
}

/// The bits that code the pair `(x, y)` with table number `table_select`:
/// the code word of the magnitudes, then for each value its escape bits
/// (escape tables only) and its sign bit.
pub open spec fn pair_bits(h: HuffCodeTab, table_select: int, x: i32, y: i32) -> Seq<bool> {
    if !h.has_codes() {
        Seq::empty()
    } else if table_select > 15 {
        h.code_bits(pair_index(h, table_select, x, y)) + escape_bits(abs_value(x), h.linbits)
            + sign_bits(x) + escape_bits(abs_value(y), h.linbits) + sign_bits(y)
    } else {
        h.code_bits(pair_index(h, table_select, x, y)) + sign_bits(x) + sign_bits(y)
    }
}

/// Index of the code word of the quadruple `(v, w, x, y)` of magnitudes 0 or 1.
pub open spec fn quad_index(v: i32, w: i32, x: i32, y: i32) -> int {
    abs_value(v) + 2 * abs_value(w) + 4 * abs_value(x) + 8 * abs_value(y)
}

/// The quadruple can be coded with the table: its values are -1, 0 or 1
/// and its code word exists.
pub open spec fn quad_codable(h: HuffCodeTab, v: i32, w: i32, x: i32, y: i32) -> bool {
    &&& -1 <= v <= 1 && -1 <= w <= 1 && -1 <= x <= 1 && -1 <= y <= 1
    &&& h.has_codes() ==> quad_index(v, w, x, y) < h.code_count()
}

/// The bits that code a quadruple: the code word of the magnitudes, then
/// the sign bits of the non-zero values in order.
pub open spec fn quad_bits(h: HuffCodeTab, v: i32, w: i32, x: i32, y: i32) -> Seq<bool> {
    if !h.has_codes() {
        Seq::empty()
    } else {
        h.code_bits(quad_index(v, w, x, y)) + sign_bits(v) + sign_bits(w) + sign_bits(x)
            + sign_bits(y)
    }
}

/// Makes `*x` its magnitude and returns its sign bit: 0 for zero or a
/// positive value, 1 for a negative one.
#[inline]
pub fn abs_and_sign(x: &mut i32) -> (sign: u32)
    requires
        *old(x) != i32::MIN,
    ensures
        sign == if *old(x) >= 0 {
            0u32
        } else {
            1u32
        },
        *final(x) == abs_value(*old(x)),
{
    if *x >= 0 {
        0
    } else {
        *x = -*x;
        1
    }
}

/// Appends one more bit to a code of `n` bits.
proof fn lemma_code_extend(code: u32, n: nat, s: u32, acc: Seq<bool>)
    requires
        n < 31,
        s <= 1,
        code >> (n as u32) == 0,
        value_bits(code, n) == acc,
    ensures
        value_bits((code << 1u32) | s, n + 1) == acc.push(s == 1),
        ((code << 1u32) | s) >> ((n + 1) as u32) == 0,
{
    lemma_value_bits_push(code, n, s);
}

/// Appends to a code word of `cbits` bits the sign bits of the non-zero
/// values among `x` and `y`.
fn append_signs(code: u32, cbits: u32, x: i32, signx: u32, y: i32, signy: u32) -> (res: (u32, u32))
    requires
        cbits <= 28,
        code >> cbits == 0,
        signx <= 1,
        signy <= 1,
    ensures
        res.1 <= 30,
        res.0 >> res.1 == 0,
        value_bits(res.0, res.1 as nat) == value_bits(code, cbits as nat) + (if x != 0 {
            seq![signx == 1]
        } else {
            Seq::<bool>::empty()
        }) + (if y != 0 {
            seq![signy == 1]
        } else {
            Seq::<bool>::empty()
        }),
{
    let mut code = code;
    let mut cbits = cbits;
    let ghost acc0 = value_bits(code, cbits as nat);
    let ghost mut acc = acc0;
    if x != 0 {
        proof {
            lemma_code_extend(code, cbits as nat, signx, acc);
            acc = acc.push(signx == 1);
        }
        code = code << 1u32;
        code = code | signx;
        cbits = cbits + 1;
    }
    let ghost acc1 = acc;
    if y != 0 {
        proof {
            lemma_code_extend(code, cbits as nat, signy, acc);
            acc = acc.push(signy == 1);
        }
        code = code << 1u32;
        code = code | signy;
        cbits = cbits + 1;
    }
    assert(acc =~= acc0 + (if x != 0 { seq![signx == 1] } else { Seq::<bool>::empty() }) + (if y
        != 0 {
        seq![signy == 1]
    } else {
        Seq::<bool>::empty()
    }));
    (code, cbits)
}

/// The escape word sent after the code word of an escape table: for each
/// value, its excess over 15 in `linbits` bits when it is 15 or more, then
/// its sign bit when it is non-zero. `x` and `y` are magnitudes clipped to 15.
fn escape_extension(
    x: i32,
    linbitsx: u32,
    signx: u32,
    y: i32,
    linbitsy: u32,
    signy: u32,
    linbits: u32,
) -> (res: (u32, u32))
    requires
        0 <= x <= 15,
        0 <= y <= 15,
        linbits <= 13,
        x > 14 ==> linbitsx >> linbits == 0,
        y > 14 ==> linbitsy >> linbits == 0,
        signx <= 1,
        signy <= 1,
    ensures
        res.1 <= 28,
        res.0 >> res.1 == 0,
        value_bits(res.0, res.1 as nat) == (if x > 14 {
            value_bits(linbitsx, linbits as nat)
        } else {
            Seq::empty()
        }) + (if x != 0 {
            seq![signx == 1]
        } else {
            Seq::<bool>::empty()
        }) + (if y > 14 {
            value_bits(linbitsy, linbits as nat)
        } else {
            Seq::empty()
        }) + (if y != 0 {
            seq![signy == 1]
        } else {
            Seq::<bool>::empty()
        }),
{
    let mut ext = 0u32;
    let mut xbits = 0u32;
    let ghost mut acc: Seq<bool> = Seq::empty();
    proof {
        lemma_value_bits_zero(0);
        assert(zeros(0) =~= Seq::<bool>::empty());
        lemma_zero_shift_facts();
    }
    if x > 14 {
        proof {
            lemma_zero_shift_facts();
            acc = value_bits(linbitsx, linbits as nat);
        }
        ext = ext | linbitsx;
        xbits = xbits + linbits;
    }
    let ghost a1 = acc;
    if x != 0 {
        proof {
            lemma_code_extend(ext, xbits as nat, signx, acc);
            acc = acc.push(signx == 1);
        }
        ext = ext << 1u32;
        ext = ext | signx;
        xbits = xbits + 1;
    }
    assert(acc =~= a1 + (if x != 0 { seq![signx == 1] } else { Seq::<bool>::empty() }));
    let ghost a2 = acc;
    if y > 14 {
        proof {
            lemma_value_bits_concat(ext, xbits as nat, linbitsy, linbits as nat);
            acc = acc + value_bits(linbitsy, linbits as nat);
        }
        ext = ext << linbits;
        ext = ext | linbitsy;
        xbits = xbits + linbits;
    }
    let ghost a3 = acc;
    if y != 0 {
        proof {
            lemma_code_extend(ext, xbits as nat, signy, acc);
            acc = acc.push(signy == 1);
        }
        ext = ext << 1u32;
        ext = ext | signy;
        xbits = xbits + 1;
    }
    assert(acc =~= a3 + (if y != 0 { seq![signy == 1] } else { Seq::<bool>::empty() }));
    (ext, xbits)
}

/// The bits of an escape-table pair: the code word, then the escape word.
proof fn lemma_escape_pair_bits(
    h: HuffCodeTab,
    table_select: int,
    x0: i32,
    y0: i32,
    x: i32,
    y: i32,
    linbitsx: u32,
    linbitsy: u32,
    signx: u32,
    signy: u32,
    idx: int,
    tail: Seq<bool>,
)
    requires
        h.has_codes(),
        table_select > 15,
        x0 != i32::MIN,
        y0 != i32::MIN,
        x == (if abs_value(x0) > 14 { 15 } else { abs_value(x0) }),
        y == (if abs_value(y0) > 14 { 15 } else { abs_value(y0) }),
        abs_value(x0) > 14 ==> linbitsx == (abs_value(x0) - 15) as u32,
        abs_value(y0) > 14 ==> linbitsy == (abs_value(y0) - 15) as u32,
        signx == (if x0 >= 0 { 0u32 } else { 1u32 }),
        signy == (if y0 >= 0 { 0u32 } else { 1u32 }),
        idx == pair_index(h, table_select, x0, y0),
        tail == (if x > 14 {
            value_bits(linbitsx, h.linbits as nat)
        } else {
            Seq::empty()
        }) + (if x != 0 {
            seq![signx == 1]
        } else {
            Seq::<bool>::empty()
        }) + (if y > 14 {
            value_bits(linbitsy, h.linbits as nat)
        } else {
            Seq::empty()
        }) + (if y != 0 {
            seq![signy == 1]
        } else {
            Seq::<bool>::empty()
        }),
    ensures
        pair_bits(h, table_select, x0, y0) == h.code_bits(idx) + tail,
{
    let head = h.code_bits(idx);
    let ex = escape_bits(abs_value(x0), h.linbits);
    let sx = sign_bits(x0);
    let ey = escape_bits(abs_value(y0), h.linbits);
    let sy = sign_bits(y0);
    assert(tail == ex + sx + ey + sy);
    assert(pair_bits(h, table_select, x0, y0) == head + ex + sx + ey + sy);
    assert(head + ex + sx + ey + sy =~= head + (ex + sx + ey + sy));
}

/// Writes the code of the pair `(x, y)` with table number `table_select`.
#[verifier::spinoff_prover]
#[verifier::rlimit(40)]
fn huffman_code(
    bs: &mut BitstreamWriter,
    tables: &[HuffCodeTab],
    table_select: usize,
    x: i32,
    y: i32,
) -> (r: Result<(), EncodingError>)
    requires
        has_room(*old(bs), 64),
        table_select < tables@.len(),
        tables_wf(tables@),
        pair_codable(tables@[table_select as int], table_select as int, x, y),
    ensures
        r is Ok,
        final(bs).wf(),
        final(bs).stream() == old(bs).stream() + pair_bits(
            tables@[table_select as int],
            table_select as int,
            x,
            y,
        ),
{
    let ghost x0 = x;
    let ghost y0 = y;
    let mut x = x;
    let mut y = y;
    let signx = abs_and_sign(&mut x);
    let signy = abs_and_sign(&mut y);
    let h = &tables[table_select];
    assert(h.wf());
    let ylen = h.ylen as usize;
    proof {
        old(bs).lemma_stream_len();
    }
    match (&h.hb, &h.hlen) {
        (Some(table), Some(hlen)) => {
            if table_select > 15 {
                let mut linbitsx = 0u32;
                let mut linbitsy = 0u32;
                let linbits = h.linbits;
                if x > 14 {
                    linbitsx = (x - 15) as u32;
                    x = 15;
                }
                if y > 14 {
                    linbitsy = (y - 15) as u32;
                    y = 15;
                }
                let tlen = table.len();
                assert((x as int) * (ylen as int) + (y as int) == pair_index(*h, table_select as int, x0, y0));
                assert((x as int) * (ylen as int) <= usize::MAX) by (nonlinear_arith)
                    requires
                        (x as int) * (ylen as int) + (y as int) < tlen,
                        y >= 0,
                        tlen <= usize::MAX,
                ;
                let idx = (x as usize * ylen) + y as usize;
                let code = table[idx] as u32;
                let cbits = hlen[idx] as u32;
                let (ext, xbits) = escape_extension(x, linbitsx, signx, y, linbitsy, signy, linbits);
                let ghost head = value_bits(code, cbits as nat);
                let ghost tail = value_bits(ext, xbits as nat);
                proof {
                    lemma_escape_pair_bits(*h, table_select as int, x0, y0, x, y, linbitsx, linbitsy, signx, signy, idx as int, tail);
                }
                assert(hlen@[idx as int] <= 28);
                let r1 = bs.put_bits(code, cbits as i32);
                assert(r1 is Ok);
                let ghost mid = bs.stream();
                if xbits > 0 {
                    proof {
                        bs.lemma_stream_len();
                    }
                    let r2 = bs.put_bits(ext, xbits as i32);
                    assert(r2 is Ok);
                    assert(bs.stream() =~= old(bs).stream() + (head + tail));
                } else {
                    assert(tail =~= Seq::<bool>::empty());
                    assert(bs.stream() =~= old(bs).stream() + (head + tail));
                }
            } else {
                let tlen = table.len();
                assert((x as int) * (ylen as int) + (y as int) == pair_index(*h, table_select as int, x0, y0));
                assert((x as int) * (ylen as int) <= usize::MAX) by (nonlinear_arith)
                    requires
                        (x as int) * (ylen as int) + (y as int) < tlen,
                        y >= 0,
                        tlen <= usize::MAX,
                ;
                let idx = (x as usize * ylen) + y as usize;
                assert(hlen@[idx as int] <= 28);
                let (code, cbits) = append_signs(table[idx] as u32, hlen[idx] as u32, x, signx, y, signy);
                assert(h.code_bits(idx as int) == value_bits(table@[idx as int] as u32, hlen@[idx as int] as nat));
                assert(sign_bits(x0) == (if x != 0 { seq![signx == 1] } else { Seq::<bool>::empty() }));
                assert(sign_bits(y0) == (if y != 0 { seq![signy == 1] } else { Seq::<bool>::empty() }));
                let r1 = bs.put_bits(code, cbits as i32);
                assert(r1 is Ok);
                assert(bs.stream() =~= old(bs).stream() + pair_bits(
                    tables@[table_select as int],
                    table_select as int,
                    x0,
                    y0,
                ));
            }
        },
        _ => {
            assert(bs.stream() =~= old(bs).stream() + pair_bits(
                tables@[table_select as int],
                table_select as int,
                x0,
                y0,
            ));
        },
    }
    Ok(())
}


/// The sign bits of the non-zero values of a quadruple, packed into one
/// word: the first value's bit is the most significant.
fn quad_signs(v: i32, signv: u32, w: i32, signw: u32, x: i32, signx: u32, y: i32, signy: u32) -> (res: (u32, u32))
    requires
        signv <= 1,
        signw <= 1,
        signx <= 1,
        signy <= 1,
    ensures
        res.1 <= 4,
        res.0 >> res.1 == 0,
        value_bits(res.0, res.1 as nat) == (if v != 0 {
            seq![signv == 1]
        } else {
            Seq::<bool>::empty()
        }) + (if w != 0 {
            seq![signw == 1]
        } else {
            Seq::<bool>::empty()
        }) + (if x != 0 {
            seq![signx == 1]
        } else {
            Seq::<bool>::empty()
        }) + (if y != 0 {
            seq![signy == 1]
        } else {
            Seq::<bool>::empty()
        }),
{
    let mut code = 0u32;
    let mut cbits = 0u32;
    let ghost mut acc: Seq<bool> = Seq::empty();
    proof {
        lemma_value_bits_zero(0);
        assert(zeros(0) =~= Seq::<bool>::empty());
        lemma_zero_shift_facts();
    }
    if v != 0 {
        proof {
            lemma_code_extend(code, cbits as nat, signv, acc);
            lemma_zero_shift_facts();
            acc = acc.push(signv == 1);
        }
        code = signv;
        cbits = 1;
    }
    let ghost a1 = acc;
    if w != 0 {
        proof {
            lemma_code_extend(code, cbits as nat, signw, acc);
            acc = acc.push(signw == 1);
        }
        code = (code << 1u32) | signw;
        cbits = cbits + 1;
    }
    assert(acc =~= a1 + (if w != 0 { seq![signw == 1] } else { Seq::<bool>::empty() }));
    let ghost a2 = acc;
    if x != 0 {
        proof {
            lemma_code_extend(code, cbits as nat, signx, acc);
            acc = acc.push(signx == 1);
        }
        code = (code << 1u32) | signx;
        cbits = cbits + 1;
    }
    assert(acc =~= a2 + (if x != 0 { seq![signx == 1] } else { Seq::<bool>::empty() }));
    let ghost a3 = acc;
    if y != 0 {
        proof {
            lemma_code_extend(code, cbits as nat, signy, acc);
            acc = acc.push(signy == 1);
        }
        code = (code << 1u32) | signy;
        cbits = cbits + 1;
    }
    assert(acc =~= a3 + (if y != 0 { seq![signy == 1] } else { Seq::<bool>::empty() }));
    (code, cbits)
}

/// The bits of a count1 quadruple: the code word, then the sign bits.
#[verifier::rlimit(30)]
proof fn lemma_quad_bits(
    h: HuffCodeTab,
    v0: i32,
    w0: i32,
    x0: i32,
    y0: i32,
    signv: u32,
    signw: u32,
    signx: u32,
    signy: u32,
    tail: Seq<bool>,
)
    requires
        h.has_codes(),
        -1 <= v0 <= 1 && -1 <= w0 <= 1 && -1 <= x0 <= 1 && -1 <= y0 <= 1,
        signv == (if v0 >= 0 { 0u32 } else { 1u32 }),
        signw == (if w0 >= 0 { 0u32 } else { 1u32 }),
        signx == (if x0 >= 0 { 0u32 } else { 1u32 }),
        signy == (if y0 >= 0 { 0u32 } else { 1u32 }),
        tail == (if abs_value(v0) != 0 {
            seq![signv == 1]
        } else {
            Seq::<bool>::empty()
        }) + (if abs_value(w0) != 0 {
            seq![signw == 1]
        } else {
            Seq::<bool>::empty()
        }) + (if abs_value(x0) != 0 {
            seq![signx == 1]
        } else {
            Seq::<bool>::empty()
        }) + (if abs_value(y0) != 0 {
            seq![signy == 1]
        } else {
            Seq::<bool>::empty()
        }),
    ensures
        quad_bits(h, v0, w0, x0, y0) == h.code_bits(quad_index(v0, w0, x0, y0)) + tail,
{
    let head = h.code_bits(quad_index(v0, w0, x0, y0));
    let (a, b, c, d) = (sign_bits(v0), sign_bits(w0), sign_bits(x0), sign_bits(y0));
    assert(tail == a + b + c + d);
    assert(head + a + b + c + d =~= head + (a + b + c + d));
}

/// Writes the code of a quadruple of values -1, 0 or 1 of the count1 region.
fn huffman_coder_count1(
    bs: &mut BitstreamWriter,
    h: &HuffCodeTab,
    v: i32,
    w: i32,
    x: i32,
    y: i32,
) -> (r: Result<(), EncodingError>)
    requires
        has_room(*old(bs), 64),
        h.wf(),
        quad_codable(*h, v, w, x, y),
    ensures
        r is Ok,
        final(bs).wf(),
        final(bs).stream() == old(bs).stream() + quad_bits(*h, v, w, x, y),
{
    let ghost (v0, w0, x0, y0) = (v, w, x, y);
    let mut v = v;
    let mut w = w;
    let mut x = x;
    let mut y = y;
    let signv = abs_and_sign(&mut v);
    let signw = abs_and_sign(&mut w);
    let signx = abs_and_sign(&mut x);
    let signy = abs_and_sign(&mut y);
    assert(w << 1u32 == 2 * w) by (bit_vector)
        requires
            0 <= w <= 1,
    ;
    assert(x << 2u32 == 4 * x) by (bit_vector)
        requires
            0 <= x <= 1,
    ;
    assert(y << 3u32 == 8 * y) by (bit_vector)
        requires
            0 <= y <= 1,
    ;
    let p = v + (w << 1u32) + (x << 2u32) + (y << 3u32);
    assert(p == quad_index(v0, w0, x0, y0));
    proof {
        old(bs).lemma_stream_len();
    }
    match (&h.hb, &h.hlen) {
        (Some(table), Some(hlen)) => {
            let code0 = table[p as usize] as u32;
            let len0 = hlen[p as usize] as i32;
            assert(h.code_bits(p as int) == value_bits(code0, len0 as nat));
            let r1 = bs.put_bits(code0, len0);
            assert(r1 is Ok);
            let (code, cbits) = quad_signs(v, signv, w, signw, x, signx, y, signy);
            let ghost mid = bs.stream();
            proof {
                lemma_quad_bits(*h, v0, w0, x0, y0, signv, signw, signx, signy, value_bits(code, cbits as nat));
            }
            if cbits > 0 {
                proof {
                    bs.lemma_stream_len();
                }
                let r2 = bs.put_bits(code, cbits as i32);
                assert(r2 is Ok);
            } else {
                assert(value_bits(code, 0) =~= Seq::<bool>::empty());
                assert(bs.stream() =~= mid + value_bits(code, 0));
            }
            assert(bs.stream() =~= old(bs).stream() + (value_bits(code0, len0 as nat) + value_bits(code, cbits as nat)));
        },
        _ => {
            assert(bs.stream() =~= old(bs).stream() + quad_bits(*h, v0, w0, x0, y0));
        },
    }
    Ok(())
}


/// First spectral line of region 1 of a granule.
pub open spec fn region1_start_line(gi: GrInfo, samplerate_index: int) -> int {
    SHINE_SCALE_FACT_BAND_INDEX@[samplerate_index]@[gi.region0_count + 1] as int
}

/// First spectral line of region 2 of a granule.
pub open spec fn region2_start_line(gi: GrInfo, samplerate_index: int) -> int {
    SHINE_SCALE_FACT_BAND_INDEX@[samplerate_index]@[gi.region0_count + gi.region1_count + 2] as int
}

/// Number of spectral lines coded as pairs ("big values").
pub open spec fn big_values_end(gi: GrInfo) -> int {
    (gi.big_values << 1u32) as int
}

/// End of the count1 region, which codes quadruples after the big values.
pub open spec fn count1_region_end(gi: GrInfo) -> int {
    big_values_end(gi) + (gi.count1 << 2u32) as int
}

/// The table that codes the pair starting at line `k`: by region.
pub open spec fn pair_table(gi: GrInfo, samplerate_index: int, k: int) -> int {
    gi.table_select@[(if k >= region1_start_line(gi, samplerate_index) { 1int } else { 0int }) + (if k
        >= region2_start_line(gi, samplerate_index) {
        1int
    } else {
        0int
    })] as int
}

/// The pair starting at line `k` can be coded.
pub open spec fn pair_ok(tables: Seq<HuffCodeTab>, ix: Seq<i32>, gi: GrInfo, samplerate_index: int, k: int) -> bool {
    let t = pair_table(gi, samplerate_index, k);
    t != 0 ==> t < tables.len() && pair_codable(tables[t], t, ix[k], ix[k + 1])
}

/// The bits of the pairs of lines `0 .. i` (`i` even): each pair with the
/// table of its region, nothing for table 0.
pub open spec fn big_values_bits(
    tables: Seq<HuffCodeTab>,
    ix: Seq<i32>,
    gi: GrInfo,
    samplerate_index: int,
    i: int,
) -> Seq<bool>
    decreases i,
{
    if i < 2 {
        Seq::empty()
    } else {
        let k = i - 2;
        let t = pair_table(gi, samplerate_index, k);
        big_values_bits(tables, ix, gi, samplerate_index, k) + if t != 0 {
            pair_bits(tables[t], t, ix[k], ix[k + 1])
        } else {
            Seq::empty()
        }
    }
}

/// The bits of the quadruples of lines `start .. i`, coded with `h`.
pub open spec fn count1_bits(h: HuffCodeTab, ix: Seq<i32>, start: int, i: int) -> Seq<bool>
    decreases i - start,
{
    if i - start < 4 {
        Seq::empty()
    } else {
        let k = i - 4;
        count1_bits(h, ix, start, k) + quad_bits(h, ix[k], ix[k + 1], ix[k + 2], ix[k + 3])
    }
}

/// The bits that a granule's part 3 makes available for Huffman code:
/// `part2_3_length - part2_length`, each taken as an `i32`.
pub open spec fn granule_bits_available(gi: GrInfo) -> int {
    (gi.part2_3_length as i32) as int - (gi.part2_length as i32) as int
}

/// The Huffman code of a granule: the pairs of the big values region, then
/// the quadruples of the count1 region.
pub open spec fn granule_code_bits(tables: Seq<HuffCodeTab>, ix: Seq<i32>, gi: GrInfo, samplerate_index: int) -> Seq<bool> {
    big_values_bits(tables, ix, gi, samplerate_index, big_values_end(gi)) + count1_bits(
        tables[gi.count1table_select + 32],
        ix,
        big_values_end(gi),
        count1_region_end(gi),
    )
}

/// Stuffing bits that fill a granule's part 3 after `used` code bits.
pub open spec fn stuffing_len(gi: GrInfo, used: int) -> int {
    if granule_bits_available(gi) - used > 0 {
        granule_bits_available(gi) - used
    } else {
        0
    }
}

/// The bits written for a granule's part 3: its Huffman code, then one bits
/// up to the length the side information announces.
pub open spec fn granule_main_bits(tables: Seq<HuffCodeTab>, ix: Seq<i32>, gi: GrInfo, samplerate_index: int) -> Seq<bool> {
    let code = granule_code_bits(tables, ix, gi, samplerate_index);
    code + ones(stuffing_len(gi, code.len() as int) as nat)
}

/// A granule's spectrum can be coded: its regions lie within the granule
/// and the scale factor band table, its tables exist and can code its values.
pub open spec fn granule_codable(tables: Seq<HuffCodeTab>, ix: Seq<i32>, gi: GrInfo, samplerate_index: int) -> bool {
    &&& 0 <= samplerate_index < 9
    &&& gi.region0_count + 1 < 23
    &&& gi.region0_count + gi.region1_count + 2 < 23
    &&& ix.len() == 576
    &&& count1_region_end(gi) <= 576
    &&& tables_wf(tables)
    &&& gi.count1table_select + 32 < tables.len()
    &&& gi.count1table_select + 32 <= u32::MAX
    &&& forall|k: int|
        0 <= k < big_values_end(gi) && k % 2 == 0 ==> #[trigger] pair_ok(
            tables,
            ix,
            gi,
            samplerate_index,
            k,
        )
    &&& forall|k: int|
        big_values_end(gi) <= k < count1_region_end(gi) && (k - big_values_end(gi)) % 4 == 0
            ==> #[trigger] quad_codable(
            tables[gi.count1table_select + 32],
            ix[k],
            ix[k + 1],
            ix[k + 2],
            ix[k + 3],
        )
    &&& i32::MIN <= granule_bits_available(gi) - granule_code_bits(
        tables,
        ix,
        gi,
        samplerate_index,
    ).len() <= i32::MAX
}

proof fn lemma_big_values_bits_mono(
    tables: Seq<HuffCodeTab>,
    ix: Seq<i32>,
    gi: GrInfo,
    samplerate_index: int,
    i: int,
    j: int,
)
    requires
        0 <= i <= j,
        i % 2 == 0,
        j % 2 == 0,
    ensures
        big_values_bits(tables, ix, gi, samplerate_index, i).len() <= big_values_bits(
            tables,
            ix,
            gi,
            samplerate_index,
            j,
        ).len(),
    decreases j - i,
{
    if i < j {
        lemma_big_values_bits_mono(tables, ix, gi, samplerate_index, i, j - 2);
    }
}

proof fn lemma_count1_bits_mono(h: HuffCodeTab, ix: Seq<i32>, start: int, i: int, j: int)
    requires
        start <= i <= j,
        (i - start) % 4 == 0,
        (j - start) % 4 == 0,
    ensures
        count1_bits(h, ix, start, i).len() <= count1_bits(h, ix, start, j).len(),
    decreases j - i,
{
    if i < j {
        lemma_count1_bits_mono(h, ix, start, i, j - 4);
    }
}

/// Writes the Huffman code of a granule's spectrum `ix`: the big values by
/// pairs with the table of each region, the count1 region by quadruples,
/// then one bits up to the granule's announced part 3 length.
fn huffman_code_bits(
    bs: &mut BitstreamWriter,
    samplerate_index: i32,
    tables: &[HuffCodeTab],
    ix: &[i32; 576],
    gi: &GrInfo,
) -> (r: Result<(), EncodingError>)
    requires
        granule_codable(tables@, ix@, *gi, samplerate_index as int),
        has_room(
            *old(bs),
            granule_main_bits(tables@, ix@, *gi, samplerate_index as int).len() as int + 64,
        ),
    ensures
        r is Ok,
        final(bs).wf(),
        final(bs).stream() == old(bs).stream() + granule_main_bits(
            tables@,
            ix@,
            *gi,
            samplerate_index as int,
        ),
{
    let ghost tb = tables@;
    let ghost sri = samplerate_index as int;
    let ghost total = granule_main_bits(tables@, ix@, *gi, sri).len();
    let scalefac = &SHINE_SCALE_FACT_BAND_INDEX[samplerate_index as usize];
    proof {
        old(bs).lemma_stream_len();
    }
    let bits_start = bs.get_bits_count();
    let ghost s0 = bs.stream();
    let bigvalues = (gi.big_values << 1u32) as usize;
    let scalefac_index = gi.region0_count + 1;
    let region1_start = scalefac[scalefac_index as usize] as usize;
    let scalefac_index = scalefac_index + gi.region1_count + 1;
    let region2_start = scalefac[scalefac_index as usize] as usize;
    assert(region1_start == region1_start_line(*gi, sri));
    assert(region2_start == region2_start_line(*gi, sri));
    let ghost code_total = granule_code_bits(tables@, ix@, *gi, sri).len();
    let bv = gi.big_values;
    let c1 = gi.count1;
    assert((bv << 1u32) % 2 == 0) by (bit_vector);
    assert((c1 << 2u32) % 4 == 0) by (bit_vector);
    proof {
        lemma_count1_bits_mono(tb[gi.count1table_select + 32], ix@, big_values_end(*gi), big_values_end(*gi), count1_region_end(*gi));
    }
    let mut i: usize = 0;
    while i < bigvalues
        invariant
            i <= bigvalues,
            i % 2 == 0,
            bigvalues % 2 == 0,
            bigvalues == big_values_end(*gi),
            region1_start == region1_start_line(*gi, sri),
            region2_start == region2_start_line(*gi, sri),
            granule_codable(tb, ix@, *gi, sri),
            tb == tables@,
            bs.wf(),
            bs.stream() == s0 + big_values_bits(tb, ix@, *gi, sri, i as int),
            s0.len() + total + 64 <= stream_limit(),
            total >= big_values_bits(tb, ix@, *gi, sri, bigvalues as int).len(),
        decreases bigvalues - i,
    {
        let idx = (if i >= region1_start { 1usize } else { 0usize }) + (if i >= region2_start {
            1usize
        } else {
            0usize
        });
        let table_index = gi.table_select[idx];
        assert(table_index == pair_table(*gi, sri, i as int));
        assert(pair_ok(tb, ix@, *gi, sri, i as int));
        proof {
            lemma_big_values_bits_mono(tb, ix@, *gi, sri, i + 2, bigvalues as int);
        }
        if table_index != 0 {
            let x = ix[i];
            let y = ix[i + 1];
            let r = huffman_code(bs, tables, table_index as usize, x, y);
            assert(r is Ok);
        }
        assert(bs.stream() =~= s0 + big_values_bits(tb, ix@, *gi, sri, i + 2));
        i = i + 2;
    }
    let h = &tables[(gi.count1table_select + 32) as usize];
    let count1_end = bigvalues + ((gi.count1 << 2u32) as usize);
    let ghost s1 = bs.stream();
    let mut i = bigvalues;
    while i < count1_end
        invariant
            bigvalues <= i <= count1_end,
            (i - bigvalues) % 4 == 0,
            (count1_end - bigvalues) % 4 == 0,
            bigvalues == big_values_end(*gi),
            count1_end == count1_region_end(*gi),
            granule_codable(tb, ix@, *gi, sri),
            tb == tables@,
            *h == tb[gi.count1table_select + 32],
            bs.wf(),
            bs.stream() == s1 + count1_bits(*h, ix@, bigvalues as int, i as int),
            s1 == s0 + big_values_bits(tb, ix@, *gi, sri, bigvalues as int),
            s0.len() + total + 64 <= stream_limit(),
            total >= code_total,
            code_total == big_values_bits(tb, ix@, *gi, sri, bigvalues as int).len() + count1_bits(*h, ix@, bigvalues as int, count1_end as int).len(),
        decreases count1_end - i,
    {
        assert(quad_codable(*h, ix@[i as int], ix@[i + 1], ix@[i + 2], ix@[i + 3]));
        proof {
            lemma_count1_bits_mono(*h, ix@, bigvalues as int, i + 4, count1_end as int);
        }
        let v = ix[i];
        let w = ix[i + 1];
        let x = ix[i + 2];
        let y = ix[i + 3];
        let r = huffman_coder_count1(bs, h, v, w, x, y);
        assert(r is Ok);
        assert(bs.stream() =~= s1 + count1_bits(*h, ix@, bigvalues as int, i + 4));
        i = i + 4;
    }
    let ghost code = granule_code_bits(tb, ix@, *gi, sri);
    assert(bs.stream() =~= s0 + code);
    proof {
        bs.lemma_stream_len();
    }
    let bits_used = bs.get_bits_count() - bits_start;
    assert(bits_used == code.len());
    let bits_available = #[verifier::truncate] (gi.part2_3_length as i32) - #[verifier::truncate] (gi.part2_length as i32);
    let stuffing_bits = bits_available - bits_used;
    if stuffing_bits > 0 {
        let stuffing_words = stuffing_bits / 32;
        let remaining_bits = stuffing_bits % 32;
        let mut k: i32 = 0;
        while k < stuffing_words
            invariant
                0 <= k <= stuffing_words,
                stuffing_words == stuffing_bits / 32,
                stuffing_bits > 0,
                bs.wf(),
                bs.stream() == s0 + code + ones((32 * k) as nat),
                s0.len() + code.len() + stuffing_bits + 64 <= stream_limit(),
            decreases stuffing_words - k,
        {
            proof {
                bs.lemma_stream_len();
                lemma_value_bits_ones(0);
            }
            let r = bs.put_bits(0xffff_ffffu32, 32);
            assert(r is Ok);
            assert(bs.stream() =~= s0 + code + ones((32 * (k + 1)) as nat));
            k = k + 1;
        }
        if remaining_bits > 0 {
            proof {
                bs.lemma_stream_len();
                lemma_value_bits_ones(remaining_bits as u32);
                let rb = remaining_bits as u32;
                assert(((1u32 << rb) - 1) as u32 >> rb == 0 && (1u32 << rb) >= 1) by (bit_vector)
                    requires
                        rb < 32,
                ;
            }
            let r = bs.put_bits((1u32 << (remaining_bits as u32)) - 1, remaining_bits);
            assert(r is Ok);
        }
        assert(bs.stream() =~= s0 + code + ones(stuffing_bits as nat));
    } else {
        assert(ones(0) =~= Seq::<bool>::empty());
        assert(bs.stream() =~= s0 + code + ones(0));
    }
    Ok(())
}


/// The bits of a list of writes `(value, width)`, each taken as valid.
pub open spec fn puts_bits(p: Seq<(u32, i32)>) -> Seq<bool>
    decreases p.len(),
{
    if p.len() == 0 {
        Seq::empty()
    } else {
        value_bits(p[0].0, p[0].1 as nat) + puts_bits(p.drop_first())
    }
}

/// Number of leading writes of the list that are accepted.
pub open spec fn puts_valid_prefix(p: Seq<(u32, i32)>) -> nat
    decreases p.len(),
{
    if p.len() == 0 {
        0
    } else if put_is_valid(p[0].0, p[0].1) {
        1 + puts_valid_prefix(p.drop_first())
    } else {
        0
    }
}

/// Every write of the list is accepted.
pub open spec fn puts_all_valid(p: Seq<(u32, i32)>) -> bool {
    puts_valid_prefix(p) == p.len()
}

/// The bits that a list of writes leaves in the stream: those of its writes
/// up to the first refused one.
pub open spec fn puts_written(p: Seq<(u32, i32)>) -> Seq<bool> {
    puts_bits(p.take(puts_valid_prefix(p) as int))
}

/// The outcome of a list of writes: success, or the fault of its first
/// refused write.
pub open spec fn puts_result(p: Seq<(u32, i32)>) -> Result<(), EncodingError> {
    if puts_all_valid(p) {
        Ok(())
    } else {
        Err(
            EncodingError::BitstreamError(
                put_fault(p[puts_valid_prefix(p) as int].0, p[puts_valid_prefix(p) as int].1),
            ),
        )
    }
}

pub proof fn lemma_puts_bits_append(a: Seq<(u32, i32)>, b: Seq<(u32, i32)>)
    ensures
        puts_bits(a + b) == puts_bits(a) + puts_bits(b),
    decreases a.len(),
{
    if a.len() == 0 {
        assert(a + b =~= b);
        assert(puts_bits(a) + puts_bits(b) =~= puts_bits(b));
    } else {
        lemma_puts_bits_append(a.drop_first(), b);
        assert((a + b).drop_first() =~= a.drop_first() + b);
        assert(puts_bits(a) + puts_bits(b) =~= value_bits(a[0].0, a[0].1 as nat) + (puts_bits(
            a.drop_first(),
        ) + puts_bits(b)));
    }
}

pub proof fn lemma_puts_valid_prefix_append(a: Seq<(u32, i32)>, b: Seq<(u32, i32)>)
    requires
        puts_all_valid(a),
    ensures
        puts_valid_prefix(a + b) == a.len() + puts_valid_prefix(b),
    decreases a.len(),
{
    if a.len() == 0 {
        assert(a + b =~= b);
    } else {
        lemma_puts_valid_prefix_append(a.drop_first(), b);
        assert((a + b).drop_first() =~= a.drop_first() + b);
    }
}

pub proof fn lemma_puts_valid_prefix_bound(p: Seq<(u32, i32)>)
    ensures
        puts_valid_prefix(p) <= p.len(),
        puts_valid_prefix(p) < p.len() ==> !put_is_valid(
            p[puts_valid_prefix(p) as int].0,
            p[puts_valid_prefix(p) as int].1,
        ),
        forall|i: int| 0 <= i < puts_valid_prefix(p) ==> put_is_valid(#[trigger] p[i].0, p[i].1),
    decreases p.len(),
{
    if p.len() > 0 && put_is_valid(p[0].0, p[0].1) {
        lemma_puts_valid_prefix_bound(p.drop_first());
        assert forall|i: int| 0 <= i < puts_valid_prefix(p) implies put_is_valid(
            #[trigger] p[i].0,
            p[i].1,
        ) by {
            if i > 0 {
                assert(p[i] == p.drop_first()[i - 1]);
            }
        }
    }
}

/// A list of writes that begins with accepted ones.
proof fn lemma_puts_take_valid(p: Seq<(u32, i32)>, i: int)
    requires
        0 <= i <= puts_valid_prefix(p),
        puts_valid_prefix(p) <= p.len(),
    ensures
        puts_all_valid(p.take(i)),
        puts_valid_prefix(p) == i + puts_valid_prefix(p.skip(i)),
    decreases i,
{
    if i > 0 {
        lemma_puts_take_valid(p.drop_first(), i - 1);
        assert(p.take(i).drop_first() =~= p.drop_first().take(i - 1));
        assert(p.skip(i) =~= p.drop_first().skip(i - 1));
    } else {
        assert(p.take(0) =~= Seq::<(u32, i32)>::empty());
        assert(p.skip(0) =~= p);
    }
}

/// Bytes kept below `p1` keep in particular those below `p0`.
pub proof fn lemma_prefix_kept(a: Seq<u8>, b: Seq<u8>, c: Seq<u8>, p0: int, p1: int)
    requires
        0 <= p0 <= p1 <= a.len(),
        p1 <= b.len(),
        p0 <= c.len(),
        b.subrange(0, p1) == a.subrange(0, p1),
        a.subrange(0, p0) == c.subrange(0, p0),
    ensures
        b.subrange(0, p0) == c.subrange(0, p0),
{
    assert forall|j: int| 0 <= j < p0 implies b[j] == c[j] by {
        assert(b.subrange(0, p1)[j] == b[j]);
        assert(a.subrange(0, p1)[j] == a[j]);
        assert(a.subrange(0, p0)[j] == a[j]);
        assert(c.subrange(0, p0)[j] == c[j]);
        assert(b.subrange(0, p1)[j] == a.subrange(0, p1)[j]);
        assert(a.subrange(0, p0)[j] == c.subrange(0, p0)[j]);
    }
    assert(b.subrange(0, p0) =~= c.subrange(0, p0));
}

/// A writer that has only stored whole cache words since `bs0` stands where
/// the bits written since then put it: the cache words they filled are
/// stored and the cache holds the rest.
pub proof fn lemma_whole_words_stored(bs0: BitstreamWriter, bs: BitstreamWriter)
    requires
        bs0.wf(),
        bs.wf(),
        bs0.data_position <= bs.data_position,
        (bs.data_position - bs0.data_position) % 4 == 0,
        bs.stream().len() >= bs0.stream().len(),
    ensures
        bs.data_position == bs0.data_position + 4 * ((32 - bs0.cache_bits + bs.stream().len()
            - bs0.stream().len()) / 32),
        bs.cache_bits == 32 - (32 - bs0.cache_bits + bs.stream().len() - bs0.stream().len()) % 32,
{
    bs0.lemma_stream_len();
    bs.lemma_stream_len();
    let d = bs.data_position - bs0.data_position;
    let q = d / 4;
    vstd::arithmetic::div_mod::lemma_fundamental_div_mod(d as int, 4);
    assert(d == 4 * q);
    let x = 32 - bs0.cache_bits + bs.stream().len() - bs0.stream().len();
    assert(x == q * 32 + (32 - bs.cache_bits));
    vstd::arithmetic::div_mod::lemma_fundamental_div_mod_converse(x, 32, q, 32 - bs.cache_bits);
}

/// Writes a list of `(value, width)` fields in order, stopping at the first
/// refused one. Cache words are stored only when full, so the writer ends
/// where the bits written put it, and the bytes stored before stay.
pub fn write_puts(bs: &mut BitstreamWriter, puts: &Vec<(u32, i32)>) -> (r: Result<(), EncodingError>)
    requires
        has_room(*old(bs), puts_written(puts@).len() as int),
    ensures
        final(bs).wf(),
        final(bs).stream() == old(bs).stream() + puts_written(puts@),
        r == puts_result(puts@),
        final(bs).data_position == old(bs).data_position + 4 * ((32 - old(bs).cache_bits
            + puts_written(puts@).len()) / 32),
        final(bs).cache_bits == 32 - (32 - old(bs).cache_bits + puts_written(puts@).len()) % 32,
        final(bs).data@.subrange(0, old(bs).data_position as int) == old(bs).data@.subrange(
            0,
            old(bs).data_position as int,
        ),
{
    let ghost p = puts@;
    let ghost s0 = bs.stream();
    let ghost bs0 = *bs;
    let ghost pos0 = bs.data_position as int;
    proof {
        lemma_puts_valid_prefix_bound(p);
    }
    let ghost vp = puts_valid_prefix(p);
    let mut i: usize = 0;
    while i < puts.len()
        invariant
            0 <= i <= puts.len(),
            p == puts@,
            vp == puts_valid_prefix(p),
            vp <= p.len(),
            i <= vp,
            forall|j: int| 0 <= j < vp ==> put_is_valid(#[trigger] p[j].0, p[j].1),
            vp < p.len() ==> !put_is_valid(p[vp as int].0, p[vp as int].1),
            bs.wf(),
            bs.stream() == s0 + puts_bits(p.take(i as int)),
            s0 == old(bs).stream(),
            s0.len() + puts_written(p).len() <= stream_limit(),
            bs0 == *old(bs),
            bs0.wf(),
            pos0 == bs0.data_position,
            pos0 <= bs.data_position,
            (bs.data_position - pos0) % 4 == 0,
            bs.data@.subrange(0, pos0) == bs0.data@.subrange(0, pos0),
        decreases puts.len() - i,
    {
        let (v, n) = puts[i];
        let ghost before = *bs;
        proof {
            lemma_puts_take_valid(p, i as int);
            lemma_puts_take_valid(p, vp as int);
            lemma_puts_bits_append(p.take(i as int), p.subrange(i as int, vp as int));
            assert(p.take(i as int) + p.subrange(i as int, vp as int) =~= p.take(vp as int));
            bs.lemma_stream_len();
        }
        let r = bs.put_bits(v, n);
        proof {
            let bp = before.data_position as int;
            assert(pos0 <= bp <= before.data@.len());
            lemma_prefix_kept(before.data@, bs.data@, bs0.data@, pos0, bp);
        }
        match r {
            Ok(()) => {
                proof {
                    assert(p.take(i + 1) =~= p.take(i as int) + seq![(v, n)]);
                    lemma_puts_bits_append(p.take(i as int), seq![(v, n)]);
                    assert(seq![(v, n)].drop_first() =~= Seq::<(u32, i32)>::empty());
                    assert(puts_bits(Seq::<(u32, i32)>::empty()) =~= Seq::<bool>::empty());
                    assert(puts_bits(seq![(v, n)]) == value_bits(v, n as nat) + puts_bits(
                        seq![(v, n)].drop_first(),
                    ));
                    assert(puts_bits(seq![(v, n)]) =~= value_bits(v, n as nat));
                }
            },
            Err(e) => {
                assert(i == vp);
                assert(bs.stream() == s0 + puts_written(p));
                assert(s0 == old(bs).stream());
                assert(bs.stream() == old(bs).stream() + puts_written(puts@));
                proof {
                    lemma_whole_words_stored(bs0, *bs);
                }
                return Err(e);
            },
        }
        i = i + 1;
    }
    assert(p.take(p.len() as int) =~= p);
    proof {
        lemma_whole_words_stored(bs0, *bs);
    }
    Ok(())
}


/// `x % 3` as Rust computes it: the remainder takes the sign of `x`.
pub open spec fn rem3(x: i32) -> int {
    if x >= 0 {
        (x as int) % 3
    } else {
        -((-x) % 3)
    }
}

/// The frame header, as `(value, width)` fields: the sync word, version,
/// layer, protection bit, bitrate index, sample rate index, padding,
/// private bit, mode, mode extension, copyright, original and emphasis.
pub open spec fn header_fields(m: MpegFrameInfo) -> Seq<(u32, i32)> {
    seq![
        (0x7ffu32, 11i32),
        (m.version as u32, 2i32),
        (m.layer as u32, 2i32),
        (if m.crc == 0 { 1u32 } else { 0u32 }, 1i32),
        (m.bitrate_index as u32, 4i32),
        (rem3(m.samplerate_index) as u32, 2i32),
        (m.padding as u32, 1i32),
        (m.ext as u32, 1i32),
        (m.mode as u32, 2i32),
        (m.mode_ext as u32, 2i32),
        (m.copyright as u32, 1i32),
        (m.original as u32, 1i32),
        (m.emph as u32, 2i32),
    ]
}

/// The start of the side information: a zero main data pointer, then the
/// private bits; their widths depend on the version and channel count.
pub open spec fn side_start_fields(version: i32, channels: i32, private_bits: u32) -> Seq<(u32, i32)> {
    if version == 3 {
        seq![(0u32, 9i32), (private_bits, if channels == 2 { 3i32 } else { 5i32 })]
    } else {
        seq![(0u32, 8i32), (private_bits, if channels == 2 { 2i32 } else { 1i32 })]
    }
}

/// The scale factor selection bits of the first `nch` channels, one bit per band group.
pub open spec fn scfsi_fields(si: ShineSideInfo, nch: int) -> Seq<(u32, i32)>
    decreases nch,
{
    if nch <= 0 {
        Seq::empty()
    } else {
        let b = si.scfsi@[nch - 1]@;
        scfsi_fields(si, nch - 1) + seq![(b[0], 1i32), (b[1], 1i32), (b[2], 1i32), (b[3], 1i32)]
    }
}

/// The side information of one granule of one channel.
pub open spec fn granule_info_fields(gi: GrInfo, version: i32) -> Seq<(u32, i32)> {
    seq![
        (gi.part2_3_length, 12i32),
        (gi.big_values, 9i32),
        (gi.global_gain, 8i32),
        (gi.scalefac_compress, if version == 3 { 4i32 } else { 9i32 }),
        (0u32, 1i32),
        (gi.table_select@[0], 5i32),
        (gi.table_select@[1], 5i32),
        (gi.table_select@[2], 5i32),
        (gi.region0_count, 4i32),
        (gi.region1_count, 3i32),
    ] + (if version == 3 { seq![(gi.preflag, 1i32)] } else { Seq::empty() }) + seq![
        (gi.scalefac_scale, 1i32),
        (gi.count1table_select, 1i32),
    ]
}

/// The side information of the first `nch` channels of a granule.
pub open spec fn granule_channels_fields(g: SideInfoGranule, nch: int, version: i32) -> Seq<(u32, i32)>
    decreases nch,
{
    if nch <= 0 {
        Seq::empty()
    } else {
        granule_channels_fields(g, nch - 1, version) + granule_info_fields(
            g.ch@[nch - 1].tt,
            version,
        )
    }
}

/// The side information of the first `ngr` granules, each for `nch` channels.
pub open spec fn granules_fields(si: ShineSideInfo, ngr: int, nch: int, version: i32) -> Seq<(u32, i32)>
    decreases ngr,
{
    if ngr <= 0 {
        Seq::empty()
    } else {
        granules_fields(si, ngr - 1, nch, version) + granule_channels_fields(
            si.gr@[ngr - 1],
            nch,
            version,
        )
    }
}

/// Everything `encode_side_info` writes: the header, the start of the side
/// information, the scale factor selection bits (MPEG-1 only) and the
/// information of every granule and channel.
pub open spec fn side_info_fields(config: ShineGlobalConfig) -> Seq<(u32, i32)> {
    let m = config.mpeg;
    let channels = config.wave.channels;
    header_fields(m) + side_start_fields(m.version, channels, config.side_info.private_bits) + (
    if m.version == 3 {
        scfsi_fields(config.side_info, channels as int)
    } else {
        Seq::empty()
    }) + granules_fields(config.side_info, m.granules_per_frame as int, channels as int, m.version)
}

/// Lays out the frame header and side information as `(value, width)`
/// fields in the order they are written.
#[verifier::rlimit(30)]
fn side_info_field_list(config: &ShineGlobalConfig) -> (fields: Vec<(u32, i32)>)
    requires
        0 <= config.wave.channels <= 2,
        0 <= config.mpeg.granules_per_frame <= 2,
    ensures
        fields@ == side_info_fields(*config),
{
    let si = &config.side_info;
    let m = &config.mpeg;
    let mut v: Vec<(u32, i32)> = Vec::new();
    v.push((0x7ff, 11));
    v.push((#[verifier::truncate] (m.version as u32), 2));
    v.push((#[verifier::truncate] (m.layer as u32), 2));
    v.push((if m.crc == 0 { 1 } else { 0 }, 1));
    v.push((#[verifier::truncate] (m.bitrate_index as u32), 4));
    v.push((#[verifier::truncate] ((m.samplerate_index % 3) as u32), 2));
    v.push((#[verifier::truncate] (m.padding as u32), 1));
    v.push((#[verifier::truncate] (m.ext as u32), 1));
    v.push((#[verifier::truncate] (m.mode as u32), 2));
    v.push((#[verifier::truncate] (m.mode_ext as u32), 2));
    v.push((#[verifier::truncate] (m.copyright as u32), 1));
    v.push((#[verifier::truncate] (m.original as u32), 1));
    v.push((#[verifier::truncate] (m.emph as u32), 2));
    assert(v@ =~= header_fields(*m));
    if m.version == 3 {
        v.push((0, 9));
        if config.wave.channels == 2 {
            v.push((si.private_bits, 3));
        } else {
            v.push((si.private_bits, 5));
        }
    } else {
        v.push((0, 8));
        if config.wave.channels == 2 {
            v.push((si.private_bits, 2));
        } else {
            v.push((si.private_bits, 1));
        }
    }
    let ghost start = header_fields(*m) + side_start_fields(m.version, config.wave.channels, si.private_bits);
    assert(v@ =~= start);
    let channels = config.wave.channels as usize;
    if m.version == 3 {
        let mut ch: usize = 0;
        while ch < channels
            invariant
                ch <= channels,
                channels <= 2,
                v@ == start + scfsi_fields(*si, ch as int),
            decreases channels - ch,
        {
            let mut band: usize = 0;
            while band < 4
                invariant
                    band <= 4,
                    ch < channels,
                    channels <= 2,
                    v@ == start + scfsi_fields(*si, ch as int) + si.scfsi@[ch as int]@.take(
                        band as int,
                    ).map_values(|b: u32| (b, 1i32)),
                decreases 4 - band,
            {
                v.push((si.scfsi[ch][band], 1));
                assert(si.scfsi@[ch as int]@.take(band + 1).map_values(|b: u32| (b, 1i32))
                    =~= si.scfsi@[ch as int]@.take(band as int).map_values(|b: u32| (b, 1i32)).push(
                    (si.scfsi[ch as int][band as int], 1i32),
                ));
                band = band + 1;
            }
            assert(si.scfsi@[ch as int]@.take(4).map_values(|b: u32| (b, 1i32)) =~= seq![
                (si.scfsi@[ch as int]@[0], 1i32),
                (si.scfsi@[ch as int]@[1], 1i32),
                (si.scfsi@[ch as int]@[2], 1i32),
                (si.scfsi@[ch as int]@[3], 1i32),
            ]);
            assert(v@ =~= start + scfsi_fields(*si, ch + 1));
            ch = ch + 1;
        }
    } else {
        assert(v@ =~= start + Seq::<(u32, i32)>::empty());
    }
    let ghost mid = v@;
    assert(mid == start + (if m.version == 3 {
        scfsi_fields(*si, channels as int)
    } else {
        Seq::empty()
    }));
    let granules = config.mpeg.granules_per_frame as usize;
    let mut gr: usize = 0;
    while gr < granules
        invariant
            gr <= granules,
            granules <= 2,
            channels <= 2,
            v@ == mid + granules_fields(*si, gr as int, channels as int, m.version),
        decreases granules - gr,
    {
        let mut ch: usize = 0;
        while ch < channels
            invariant
                ch <= channels,
                gr < granules,
                granules <= 2,
                channels <= 2,
                v@ == mid + granules_fields(*si, gr as int, channels as int, m.version)
                    + granule_channels_fields(si.gr@[gr as int], ch as int, m.version),
            decreases channels - ch,
        {
            let gi = &si.gr[gr].ch[ch].tt;
            let ghost before = v@;
            v.push((gi.part2_3_length, 12));
            v.push((gi.big_values, 9));
            v.push((gi.global_gain, 8));
            if m.version == 3 {
                v.push((gi.scalefac_compress, 4));
            } else {
                v.push((gi.scalefac_compress, 9));
            }
            v.push((0, 1));
            v.push((gi.table_select[0], 5));
            v.push((gi.table_select[1], 5));
            v.push((gi.table_select[2], 5));
            v.push((gi.region0_count, 4));
            v.push((gi.region1_count, 3));
            if m.version == 3 {
                v.push((gi.preflag, 1));
            }
            v.push((gi.scalefac_scale, 1));
            v.push((gi.count1table_select, 1));
            assert(v@ =~= before + granule_info_fields(*gi, m.version));
            ch = ch + 1;
        }
        gr = gr + 1;
    }
    v
}

/// Writes the frame header and the side information.
fn encode_side_info(config: &mut ShineGlobalConfig) -> (r: Result<(), EncodingError>)
    requires
        0 <= old(config).wave.channels <= 2,
        0 <= old(config).mpeg.granules_per_frame <= 2,
        has_room(old(config).bs, puts_written(side_info_fields(*old(config))).len() as int),
    ensures
        final(config).bs.wf(),
        final(config).bs.stream() == old(config).bs.stream() + puts_written(
            side_info_fields(*old(config)),
        ),
        r == puts_result(side_info_fields(*old(config))),
        final(config).bs.data_position == old(config).bs.data_position + 4 * ((32
            - old(config).bs.cache_bits + puts_written(side_info_fields(*old(config))).len()) / 32),
        final(config).bs.cache_bits == 32 - (32 - old(config).bs.cache_bits + puts_written(
            side_info_fields(*old(config)),
        ).len()) % 32,
        final(config).bs.data@.subrange(0, old(config).bs.data_position as int) == old(
            config,
        ).bs.data@.subrange(0, old(config).bs.data_position as int),
        same_frame_state(*final(config), *old(config)),
{
    let fields = side_info_field_list(config);
    write_puts(&mut config.bs, &fields)
}


/// A step of the main data: fields to write, then, if every field was
/// accepted, Huffman code bits, which are always accepted; the flag says
/// whether the step can be carried out when reached.
pub type MainDataStep = (Seq<(u32, i32)>, Seq<bool>, bool);

/// The bits that a list of steps leaves in the stream: each step in full
/// until the first one with a refused field, of which the fields before it.
pub open spec fn steps_written(c: Seq<MainDataStep>) -> Seq<bool>
    decreases c.len(),
{
    if c.len() == 0 {
        Seq::empty()
    } else if puts_all_valid(c[0].0) {
        puts_bits(c[0].0) + c[0].1 + steps_written(c.drop_first())
    } else {
        puts_written(c[0].0)
    }
}

/// The outcome of a list of steps: the fault of the first refused field, if any.
pub open spec fn steps_result(c: Seq<MainDataStep>) -> Result<(), EncodingError>
    decreases c.len(),
{
    if c.len() == 0 {
        Ok(())
    } else if puts_all_valid(c[0].0) {
        steps_result(c.drop_first())
    } else {
        puts_result(c[0].0)
    }
}

/// Every step that is reached can be carried out.
pub open spec fn steps_ready(c: Seq<MainDataStep>) -> bool
    decreases c.len(),
{
    if c.len() == 0 {
        true
    } else {
        c[0].2 && (puts_all_valid(c[0].0) ==> steps_ready(c.drop_first()))
    }
}

/// All fields of all steps are accepted.
pub open spec fn steps_all_valid(c: Seq<MainDataStep>) -> bool {
    forall|i: int| 0 <= i < c.len() ==> puts_all_valid(#[trigger] c[i].0)
}

proof fn lemma_steps_append(a: Seq<MainDataStep>, b: Seq<MainDataStep>)
    requires
        steps_all_valid(a),
    ensures
        steps_written(a + b) == steps_written(a) + steps_written(b),
        steps_result(a + b) == steps_result(b),
        steps_ready(a + b) ==> steps_ready(b),
    decreases a.len(),
{
    if a.len() == 0 {
        assert(a + b =~= b);
        assert(steps_written(a) + steps_written(b) =~= steps_written(b));
    } else {
        assert(puts_all_valid(a[0].0));
        assert(steps_all_valid(a.drop_first())) by {
            assert forall|i: int| 0 <= i < a.drop_first().len() implies puts_all_valid(
                #[trigger] a.drop_first()[i].0,
            ) by {
                assert(a.drop_first()[i] == a[i + 1]);
            }
        }
        lemma_steps_append(a.drop_first(), b);
        assert((a + b).drop_first() =~= a.drop_first() + b);
        assert((a + b)[0] == a[0]);
        assert(steps_written(a) + steps_written(b) =~= puts_bits(a[0].0) + a[0].1 + (
        steps_written(a.drop_first()) + steps_written(b)));
    }
}

/// The scale factors of bands `from .. to`, each in `slen` bits.
pub open spec fn band_fields(sf: Seq<i32>, from: int, to: int, slen: i32) -> Seq<(u32, i32)> {
    Seq::new((to - from) as nat, |i: int| (sf[from + i] as u32, slen))
}

/// The scale factors written for granule `gr` of channel `ch`: each group of
/// bands unless granule 1 reuses it from granule 0 (scale factor selection).
pub open spec fn scalefactor_fields(config: ShineGlobalConfig, gr: int, ch: int) -> Seq<(u32, i32)> {
    let gi = config.side_info.gr@[gr].ch@[ch].tt;
    let slen1 = SHINE_SLEN1_TAB@[gi.scalefac_compress as int];
    let slen2 = SHINE_SLEN2_TAB@[gi.scalefac_compress as int];
    let scfsi = config.side_info.scfsi@[ch]@;
    let sf = config.scalefactor.l@[gr]@[ch]@;
    (if gr == 0 || scfsi[0] == 0 {
        band_fields(sf, 0, 6, slen1)
    } else {
        Seq::empty()
    }) + (if gr == 0 || scfsi[1] == 0 {
        band_fields(sf, 6, 11, slen1)
    } else {
        Seq::empty()
    }) + (if gr == 0 || scfsi[2] == 0 {
        band_fields(sf, 11, 16, slen2)
    } else {
        Seq::empty()
    }) + (if gr == 0 || scfsi[3] == 0 {
        band_fields(sf, 16, 21, slen2)
    } else {
        Seq::empty()
    })
}

/// The main data step of granule `gr` of channel `ch`: its scale factors,
/// then its Huffman-coded spectrum.
pub open spec fn main_data_step(
    config: ShineGlobalConfig,
    tables: Seq<HuffCodeTab>,
    spectra: Seq<Seq<Seq<i32>>>,
    gr: int,
    ch: int,
) -> MainDataStep {
    let gi = config.side_info.gr@[gr].ch@[ch].tt;
    let ix = spectra[ch][gr];
    let sri = config.mpeg.samplerate_index as int;
    (
        scalefactor_fields(config, gr, ch),
        granule_main_bits(tables, ix, gi, sri),
        gi.scalefac_compress < 16 && (puts_all_valid(scalefactor_fields(config, gr, ch))
            ==> granule_codable(tables, ix, gi, sri)),
    )
}

/// The steps of the first `nch` channels of granule `gr`.
pub open spec fn channel_steps(
    config: ShineGlobalConfig,
    tables: Seq<HuffCodeTab>,
    spectra: Seq<Seq<Seq<i32>>>,
    gr: int,
    nch: int,
) -> Seq<MainDataStep>
    decreases nch,
{
    if nch <= 0 {
        Seq::empty()
    } else {
        channel_steps(config, tables, spectra, gr, nch - 1).push(
            main_data_step(config, tables, spectra, gr, nch - 1),
        )
    }
}

/// The steps of the first `ngr` granules, each for all channels.
pub open spec fn granule_steps(
    config: ShineGlobalConfig,
    tables: Seq<HuffCodeTab>,
    spectra: Seq<Seq<Seq<i32>>>,
    ngr: int,
) -> Seq<MainDataStep>
    decreases ngr,
{
    if ngr <= 0 {
        Seq::empty()
    } else {
        granule_steps(config, tables, spectra, ngr - 1) + channel_steps(
            config,
            tables,
            spectra,
            ngr - 1,
            config.wave.channels as int,
        )
    }
}

/// The quantized spectra of the encoder state, by channel and granule.
pub open spec fn l3_enc_view(config: ShineGlobalConfig) -> Seq<Seq<Seq<i32>>> {
    Seq::new(2, |ch: int| Seq::new(2, |gr: int| config.l3_enc@[ch]@[gr]@))
}

/// The main data of the frame: for each granule and channel, its scale
/// factors and its Huffman-coded spectrum.
pub open spec fn main_data_steps(
    config: ShineGlobalConfig,
    tables: Seq<HuffCodeTab>,
    spectra: Seq<Seq<Seq<i32>>>,
) -> Seq<MainDataStep> {
    granule_steps(config, tables, spectra, config.mpeg.granules_per_frame as int)
}

proof fn lemma_channel_steps_prefix(
    config: ShineGlobalConfig,
    tables: Seq<HuffCodeTab>,
    spectra: Seq<Seq<Seq<i32>>>,
    gr: int,
    i: int,
    j: int,
)
    requires
        0 <= i <= j,
    ensures
        channel_steps(config, tables, spectra, gr, i).is_prefix_of(
            channel_steps(config, tables, spectra, gr, j),
        ),
        channel_steps(config, tables, spectra, gr, i).len() == i,
    decreases j,
{
    if i < j {
        lemma_channel_steps_prefix(config, tables, spectra, gr, i, j - 1);
        lemma_channel_steps_prefix(config, tables, spectra, gr, j - 1, j - 1);
    } else if i > 0 {
        lemma_channel_steps_prefix(config, tables, spectra, gr, i - 1, i - 1);
    }
}

proof fn lemma_granule_steps_prefix(
    config: ShineGlobalConfig,
    tables: Seq<HuffCodeTab>,
    spectra: Seq<Seq<Seq<i32>>>,
    i: int,
    j: int,
)
    requires
        0 <= i <= j,
    ensures
        granule_steps(config, tables, spectra, i).is_prefix_of(
            granule_steps(config, tables, spectra, j),
        ),
    decreases j - i,
{
    if i < j {
        lemma_granule_steps_prefix(config, tables, spectra, i, j - 1);
    }
}

/// Lays out the scale factors of granule `gr` of channel `ch` as fields.
fn scalefactor_field_list(config: &ShineGlobalConfig, gr: usize, ch: usize, slen1: i32, slen2: i32) -> (fields: Vec<(u32, i32)>)
    requires
        gr < 2,
        ch < 2,
        config.side_info.gr@[gr as int].ch@[ch as int].tt.scalefac_compress < 16,
        slen1 == SHINE_SLEN1_TAB@[config.side_info.gr@[gr as int].ch@[ch as int].tt.scalefac_compress as int],
        slen2 == SHINE_SLEN2_TAB@[config.side_info.gr@[gr as int].ch@[ch as int].tt.scalefac_compress as int],
    ensures
        fields@ == scalefactor_fields(*config, gr as int, ch as int),
{
    let scfsi = config.side_info.scfsi[ch];
    let sf = &config.scalefactor.l[gr][ch];
    let mut v: Vec<(u32, i32)> = Vec::new();
    let ghost sfs = sf@;
    let mut b: usize = 0;
    while b < 21
        invariant
            b <= 21,
            sfs == config.scalefactor.l@[gr as int]@[ch as int]@,
            sf@ == sfs,
            scfsi == config.side_info.scfsi@[ch as int],
            gr < 2,
            ch < 2,
            v@ == (if gr == 0 || scfsi@[0] == 0 {
                band_fields(sfs, 0, if b < 6 { b as int } else { 6 }, slen1)
            } else {
                Seq::empty()
            }) + (if gr == 0 || scfsi@[1] == 0 {
                band_fields(sfs, 6, if b < 6 { 6 } else if b < 11 { b as int } else { 11 }, slen1)
            } else {
                Seq::empty()
            }) + (if gr == 0 || scfsi@[2] == 0 {
                band_fields(sfs, 11, if b < 11 { 11 } else if b < 16 { b as int } else { 16 }, slen2)
            } else {
                Seq::empty()
            }) + (if gr == 0 || scfsi@[3] == 0 {
                band_fields(sfs, 16, if b < 16 { 16 } else { b as int }, slen2)
            } else {
                Seq::empty()
            }),
        decreases 21 - b,
    {
        let group: usize = if b < 6 { 0 } else if b < 11 { 1 } else if b < 16 { 2 } else { 3 };
        let slen = if b < 11 { slen1 } else { slen2 };
        let ghost before = v@;
        if gr == 0 || scfsi[group] == 0 {
            v.push((#[verifier::truncate] (sf[b] as u32), slen));
        }
        proof {
            let e = Seq::<(u32, i32)>::empty();
            if b < 6 {
                assert(band_fields(sfs, 0, b + 1, slen1) =~= band_fields(sfs, 0, b as int, slen1).push((sfs[b as int] as u32, slen1)));
                assert(band_fields(sfs, 6, 6, slen1) =~= e);
            } else if b < 11 {
                assert(band_fields(sfs, 6, b + 1, slen1) =~= band_fields(sfs, 6, b as int, slen1).push((sfs[b as int] as u32, slen1)));
                assert(band_fields(sfs, 11, 11, slen2) =~= e);
            } else if b < 16 {
                assert(band_fields(sfs, 11, b + 1, slen2) =~= band_fields(sfs, 11, b as int, slen2).push((sfs[b as int] as u32, slen2)));
                assert(band_fields(sfs, 16, 16, slen2) =~= e);
            } else {
                assert(band_fields(sfs, 16, b + 1, slen2) =~= band_fields(sfs, 16, b as int, slen2).push((sfs[b as int] as u32, slen2)));
            }
            assert(band_fields(sfs, 0, 0, slen1) =~= e);
        }
        b = b + 1;
        assert(v@ =~= (if gr == 0 || scfsi@[0] == 0 {
            band_fields(sfs, 0, if b < 6 { b as int } else { 6 }, slen1)
        } else {
            Seq::empty()
        }) + (if gr == 0 || scfsi@[1] == 0 {
            band_fields(sfs, 6, if b < 6 { 6 } else if b < 11 { b as int } else { 11 }, slen1)
        } else {
            Seq::empty()
        }) + (if gr == 0 || scfsi@[2] == 0 {
            band_fields(sfs, 11, if b < 11 { 11 } else if b < 16 { b as int } else { 16 }, slen2)
        } else {
            Seq::empty()
        }) + (if gr == 0 || scfsi@[3] == 0 {
            band_fields(sfs, 16, if b < 16 { 16 } else { b as int }, slen2)
        } else {
            Seq::empty()
        }));
    }
    v
}


/// Splits a list of steps at a step `c` that follows the fully accepted steps `done`.
proof fn lemma_step_split(all: Seq<MainDataStep>, done: Seq<MainDataStep>, c: MainDataStep)
    requires
        steps_all_valid(done),
        done.push(c).is_prefix_of(all),
        steps_ready(all),
    ensures
        c.2,
        steps_written(all) == steps_written(done) + if puts_all_valid(c.0) {
            puts_bits(c.0) + c.1 + steps_written(all.skip(done.len() as int + 1))
        } else {
            puts_written(c.0)
        },
        steps_result(all) == if puts_all_valid(c.0) {
            steps_result(all.skip(done.len() as int + 1))
        } else {
            puts_result(c.0)
        },
        !puts_all_valid(c.0) ==> steps_written(done).len() + puts_written(c.0).len() <= steps_written(all).len(),
        puts_all_valid(c.0) ==> steps_written(done).len() + puts_bits(c.0).len() + c.1.len() <= steps_written(all).len(),
{
    let rest = all.skip(done.len() as int);
    let p = done.push(c);
    assert(p =~= all.subrange(0, p.len() as int));
    assert forall|i: int| 0 <= i < done.len() implies all[i] == done[i] by {
        assert(p[i] == all.subrange(0, p.len() as int)[i]);
    }
    assert(all[done.len() as int] == c) by {
        assert(p[done.len() as int] == all.subrange(0, p.len() as int)[done.len() as int]);
    }
    assert(all =~= done + rest);
    lemma_steps_append(done, rest);
    assert(rest[0] == c);
    assert(rest.drop_first() =~= all.skip(done.len() as int + 1));
}

/// Appends a fully accepted step to fully accepted steps.
proof fn lemma_steps_push(done: Seq<MainDataStep>, c: MainDataStep)
    requires
        steps_all_valid(done),
        puts_all_valid(c.0),
    ensures
        steps_all_valid(done.push(c)),
        steps_written(done.push(c)) == steps_written(done) + puts_bits(c.0) + c.1,
{
    assert forall|i: int| 0 <= i < done.push(c).len() implies puts_all_valid(
        #[trigger] done.push(c)[i].0,
    ) by {
        if i < done.len() {
            assert(done.push(c)[i] == done[i]);
        }
    }
    lemma_steps_append(done, seq![c]);
    assert(done + seq![c] =~= done.push(c));
    assert(seq![c].drop_first() =~= Seq::<MainDataStep>::empty());
    assert(steps_written(seq![c]) == puts_bits(c.0) + c.1 + steps_written(seq![c].drop_first()));
    assert(steps_written(Seq::<MainDataStep>::empty()) =~= Seq::<bool>::empty());
    assert(steps_written(done) + (puts_bits(c.0) + c.1 + Seq::<bool>::empty()) =~= steps_written(done) + puts_bits(c.0) + c.1);
}

/// The parts of the encoder state other than the bitstream are those of `c`.
pub open spec fn same_frame_state(a: ShineGlobalConfig, c: ShineGlobalConfig) -> bool {
    &&& a.wave == c.wave
    &&& a.mpeg == c.mpeg
    &&& a.side_info == c.side_info
    &&& a.scalefactor == c.scalefactor
    &&& a.l3_enc == c.l3_enc
    &&& a.mdct_freq == c.mdct_freq
    &&& a.l3_sb_sample == c.l3_sb_sample
    &&& a.l3loop == c.l3loop
    &&& a.mean_bits == c.mean_bits
    &&& a.resv_size == c.resv_size
    &&& a.resv_max == c.resv_max
}


/// Writes the main data of granule `gr` of channel `ch`: its scale factors,
/// then, if they were all accepted, its Huffman-coded spectrum.
fn encode_granule_channel(config: &mut ShineGlobalConfig, tables: &[HuffCodeTab], gr: usize, ch: usize) -> (r: Result<(), EncodingError>)
    requires
        gr < 2,
        ch < 2,
        main_data_step(*old(config), tables@, l3_enc_view(*old(config)), gr as int, ch as int).2,
        has_room(
            old(config).bs,
            (if puts_all_valid(main_data_step(*old(config), tables@, l3_enc_view(*old(config)), gr as int, ch as int).0) {
                (puts_bits(main_data_step(*old(config), tables@, l3_enc_view(*old(config)), gr as int, ch as int).0).len()
                    + main_data_step(*old(config), tables@, l3_enc_view(*old(config)), gr as int, ch as int).1.len()) as int
            } else {
                puts_written(main_data_step(*old(config), tables@, l3_enc_view(*old(config)), gr as int, ch as int).0).len() as int
            }) + 64,
        ),
    ensures
        final(config).bs.wf(),
        final(config).bs.stream() == old(config).bs.stream() + if puts_all_valid(
            main_data_step(*old(config), tables@, l3_enc_view(*old(config)), gr as int, ch as int).0,
        ) {
            puts_bits(main_data_step(*old(config), tables@, l3_enc_view(*old(config)), gr as int, ch as int).0) + main_data_step(
                *old(config),
                tables@,
                l3_enc_view(*old(config)),
                gr as int,
                ch as int,
            ).1
        } else {
            puts_written(main_data_step(*old(config), tables@, l3_enc_view(*old(config)), gr as int, ch as int).0)
        },
        r == if puts_all_valid(main_data_step(*old(config), tables@, l3_enc_view(*old(config)), gr as int, ch as int).0) {
            Ok(())
        } else {
            puts_result(main_data_step(*old(config), tables@, l3_enc_view(*old(config)), gr as int, ch as int).0)
        },
        same_frame_state(*final(config), *old(config)),
{
    let ghost c = main_data_step(*config, tables@, l3_enc_view(*config), gr as int, ch as int);
    let sfc = config.side_info.gr[gr].ch[ch].tt.scalefac_compress;
    let slen1 = SHINE_SLEN1_TAB[sfc as usize];
    let slen2 = SHINE_SLEN2_TAB[sfc as usize];
    let fields = scalefactor_field_list(config, gr, ch, slen1, slen2);
    assert(fields@ == c.0);
    proof {
        lemma_puts_valid_prefix_bound(c.0);
        if puts_all_valid(c.0) {
            assert(c.0.take(c.0.len() as int) =~= c.0);
        }
    }
    let r1 = write_puts(&mut config.bs, &fields);
    match r1 {
        Ok(()) => {},
        Err(e) => {
            return Err(e);
        },
    }
    let gi = config.side_info.gr[gr].ch[ch].tt;
    let ix = config.l3_enc[ch][gr];
    let r2 = huffman_code_bits(&mut config.bs, config.mpeg.samplerate_index, tables, &ix, &gi);
    assert(r2 is Ok);
    assert(config.bs.stream() =~= old(config).bs.stream() + (puts_bits(c.0) + c.1));
    Ok(())
}

/// Writes the main data: for each granule and channel, its scale factors
/// (each group of bands unless granule 1 reuses it from granule 0), then its
/// Huffman-coded spectrum.
#[verifier::rlimit(40)]
fn encode_main_data(config: &mut ShineGlobalConfig, tables: &[HuffCodeTab]) -> (r: Result<(), EncodingError>)
    requires
        0 <= old(config).wave.channels <= 2,
        0 <= old(config).mpeg.granules_per_frame <= 2,
        steps_ready(main_data_steps(*old(config), tables@, l3_enc_view(*old(config)))),
        has_room(old(config).bs, steps_written(main_data_steps(*old(config), tables@, l3_enc_view(*old(config)))).len() as int + 64),
    ensures
        final(config).bs.wf(),
        final(config).bs.stream() == old(config).bs.stream() + steps_written(
            main_data_steps(*old(config), tables@, l3_enc_view(*old(config))),
        ),
        r == steps_result(main_data_steps(*old(config), tables@, l3_enc_view(*old(config)))),
        same_frame_state(*final(config), *old(config)),
{
    let ghost cfg0 = *config;
    let ghost tb = tables@;
    let ghost sp = l3_enc_view(cfg0);
    let ghost all = main_data_steps(cfg0, tb, sp);
    let ghost s0 = config.bs.stream();
    let granules = config.mpeg.granules_per_frame as usize;
    let channels = config.wave.channels as usize;
    proof {
        lemma_granule_steps_prefix(cfg0, tb, sp, 0, granules as int);
        assert(granule_steps(cfg0, tb, sp, 0) =~= Seq::<MainDataStep>::empty());
        assert(steps_written(Seq::<MainDataStep>::empty()) =~= Seq::<bool>::empty());
    }
    let mut gr: usize = 0;
    while gr < granules
        invariant
            gr <= granules,
            granules == cfg0.mpeg.granules_per_frame,
            channels == cfg0.wave.channels,
            granules <= 2,
            channels <= 2,
            same_frame_state(*config, cfg0),
            tb == tables@,
            all == main_data_steps(cfg0, tb, sp),
            sp == l3_enc_view(cfg0),
            steps_ready(all),
            granule_steps(cfg0, tb, sp, gr as int).is_prefix_of(all),
            steps_all_valid(granule_steps(cfg0, tb, sp, gr as int)),
            config.bs.wf(),
            config.bs.stream() == s0 + steps_written(granule_steps(cfg0, tb, sp, gr as int)),
            s0 == old(config).bs.stream(),
            cfg0 == *old(config),
            s0.len() + steps_written(all).len() + 64 <= stream_limit(),
        decreases granules - gr,
    {
        let ghost base = granule_steps(cfg0, tb, sp, gr as int);
        proof {
            lemma_granule_steps_prefix(cfg0, tb, sp, gr + 1, granules as int);
            lemma_channel_steps_prefix(cfg0, tb, sp, gr as int, 0, channels as int);
            assert(channel_steps(cfg0, tb, sp, gr as int, 0) =~= Seq::<MainDataStep>::empty());
            assert(base + channel_steps(cfg0, tb, sp, gr as int, 0) =~= base);
        }
        let mut ch: usize = 0;
        while ch < channels
            invariant
                ch <= channels,
                gr < granules,
                granules == cfg0.mpeg.granules_per_frame,
                channels == cfg0.wave.channels,
                granules <= 2,
                channels <= 2,
                same_frame_state(*config, cfg0),
                tb == tables@,
                all == main_data_steps(cfg0, tb, sp),
            sp == l3_enc_view(cfg0),
                steps_ready(all),
                base == granule_steps(cfg0, tb, sp, gr as int),
                granule_steps(cfg0, tb, sp, gr + 1).is_prefix_of(all),
                granule_steps(cfg0, tb, sp, gr + 1) == base + channel_steps(cfg0, tb, sp, gr as int, channels as int),
                steps_all_valid(base + channel_steps(cfg0, tb, sp, gr as int, ch as int)),
                config.bs.wf(),
                config.bs.stream() == s0 + steps_written(base + channel_steps(cfg0, tb, sp, gr as int, ch as int)),
                s0 == old(config).bs.stream(),
                cfg0 == *old(config),
                s0.len() + steps_written(all).len() + 64 <= stream_limit(),
            decreases channels - ch,
        {
            let ghost done = base + channel_steps(cfg0, tb, sp, gr as int, ch as int);
            let ghost c = main_data_step(cfg0, tb, sp, gr as int, ch as int);
            proof {
                lemma_channel_steps_prefix(cfg0, tb, sp, gr as int, ch + 1, channels as int);
                assert(channel_steps(cfg0, tb, sp, gr as int, ch + 1) == channel_steps(cfg0, tb, sp, gr as int, ch as int).push(c));
                assert(done.push(c) =~= base + channel_steps(cfg0, tb, sp, gr as int, ch + 1));
                assert(done.push(c).is_prefix_of(all)) by {
                    let a = base + channel_steps(cfg0, tb, sp, gr as int, ch + 1);
                    let b = granule_steps(cfg0, tb, sp, gr + 1);
                    assert forall|i: int| 0 <= i < a.len() implies a[i] == all[i] by {
                        assert(a[i] == b[i]);
                    }
                }
                lemma_step_split(all, done, c);
            }
            assert(l3_enc_view(*config) == sp);
            assert(main_data_step(*config, tb, l3_enc_view(*config), gr as int, ch as int) == c);
            let r = encode_granule_channel(config, tables, gr, ch);
            match r {
                Ok(()) => {},
                Err(e) => {
                    return Err(e);
                },
            }
            proof {
                lemma_steps_push(done, c);
            }
            ch = ch + 1;
        }
        gr = gr + 1;
    }
    proof {
        assert(granule_steps(cfg0, tb, sp, granules as int) =~= all);
        lemma_steps_append(all, Seq::<MainDataStep>::empty());
        assert(all + Seq::<MainDataStep>::empty() =~= all);
    }
    Ok(())
}


/// A granule's quantized spectrum with the signs of the spectral values
/// restored: a positive value whose spectral line is negative is negated.
pub open spec fn corrected_granule(enc: Seq<i32>, freq: Seq<i32>) -> Seq<i32> {
    Seq::new(
        576,
        |i: int|
            if freq[i] < 0 && enc[i] > 0 {
                -enc[i] as i32
            } else {
                enc[i]
            },
    )
}

/// The quantized spectra after sign restoration of every granule and
/// channel of the frame; the others are unchanged.
pub open spec fn sign_corrected(c: ShineGlobalConfig) -> Seq<Seq<Seq<i32>>> {
    Seq::new(
        2,
        |ch: int|
            Seq::new(
                2,
                |gr: int|
                    if ch < c.wave.channels && gr < c.mpeg.granules_per_frame {
                        corrected_granule(c.l3_enc@[ch]@[gr]@, c.mdct_freq@[ch]@[gr]@)
                    } else {
                        c.l3_enc@[ch]@[gr]@
                    },
            ),
    )
}

/// The steps of a granule's channels read only the frame layout, side
/// information and scale factors.
proof fn lemma_channel_steps_frame(
    c1: ShineGlobalConfig,
    c2: ShineGlobalConfig,
    tables: Seq<HuffCodeTab>,
    sp: Seq<Seq<Seq<i32>>>,
    gr: int,
    nch: int,
)
    requires
        c1.wave == c2.wave,
        c1.mpeg == c2.mpeg,
        c1.side_info == c2.side_info,
        c1.scalefactor == c2.scalefactor,
    ensures
        channel_steps(c1, tables, sp, gr, nch) == channel_steps(c2, tables, sp, gr, nch),
    decreases nch,
{
    if nch > 0 {
        lemma_channel_steps_frame(c1, c2, tables, sp, gr, nch - 1);
        assert(main_data_step(c1, tables, sp, gr, nch - 1) == main_data_step(c2, tables, sp, gr, nch - 1));
    }
}

/// The main data steps read only the frame layout, side information and scale factors.
proof fn lemma_main_data_steps_frame(
    c1: ShineGlobalConfig,
    c2: ShineGlobalConfig,
    tables: Seq<HuffCodeTab>,
    sp: Seq<Seq<Seq<i32>>>,
    ngr: int,
)
    requires
        c1.wave == c2.wave,
        c1.mpeg == c2.mpeg,
        c1.side_info == c2.side_info,
        c1.scalefactor == c2.scalefactor,
    ensures
        granule_steps(c1, tables, sp, ngr) == granule_steps(c2, tables, sp, ngr),
    decreases ngr,
{
    if ngr > 0 {
        lemma_main_data_steps_frame(c1, c2, tables, sp, ngr - 1);
        lemma_channel_steps_frame(c1, c2, tables, sp, ngr - 1, c1.wave.channels as int);
    }
}

/// Restores the signs of the quantized spectra of every granule and channel.
fn restore_signs(config: &mut ShineGlobalConfig)
    requires
        0 <= old(config).wave.channels <= 2,
        0 <= old(config).mpeg.granules_per_frame <= 2,
    ensures
        l3_enc_view(*final(config)) == sign_corrected(*old(config)),
        final(config).wave == old(config).wave,
        final(config).mpeg == old(config).mpeg,
        final(config).side_info == old(config).side_info,
        final(config).scalefactor == old(config).scalefactor,
        final(config).mdct_freq == old(config).mdct_freq,
        final(config).l3_sb_sample == old(config).l3_sb_sample,
        final(config).l3loop == old(config).l3loop,
        final(config).mean_bits == old(config).mean_bits,
        final(config).resv_size == old(config).resv_size,
        final(config).resv_max == old(config).resv_max,
        final(config).bs == old(config).bs,
{
    let channels = config.wave.channels as usize;
    let granules = config.mpeg.granules_per_frame as usize;
    let ghost target = sign_corrected(*config);
    let mut ch: usize = 0;
    while ch < channels
        invariant
            ch <= channels,
            channels == old(config).wave.channels,
            granules == old(config).mpeg.granules_per_frame,
            channels <= 2,
            granules <= 2,
            target == sign_corrected(*old(config)),
            config.wave == old(config).wave,
            config.mpeg == old(config).mpeg,
            config.side_info == old(config).side_info,
            config.scalefactor == old(config).scalefactor,
            config.mdct_freq == old(config).mdct_freq,
            config.l3_sb_sample == old(config).l3_sb_sample,
            config.l3loop == old(config).l3loop,
            config.mean_bits == old(config).mean_bits,
            config.resv_size == old(config).resv_size,
            config.resv_max == old(config).resv_max,
            config.bs == old(config).bs,
            forall|c: int, g: int|
                0 <= c < 2 && 0 <= g < 2 ==> #[trigger] config.l3_enc@[c]@[g]@ == if c < ch {
                    target[c][g]
                } else {
                    old(config).l3_enc@[c]@[g]@
                },
        decreases channels - ch,
    {
        let mut gr: usize = 0;
        while gr < granules
            invariant
                gr <= granules,
                ch < channels,
                channels == old(config).wave.channels,
                granules == old(config).mpeg.granules_per_frame,
                channels <= 2,
                granules <= 2,
                target == sign_corrected(*old(config)),
                config.wave == old(config).wave,
                config.mpeg == old(config).mpeg,
                config.side_info == old(config).side_info,
                config.scalefactor == old(config).scalefactor,
                config.mdct_freq == old(config).mdct_freq,
                config.l3_sb_sample == old(config).l3_sb_sample,
                config.l3loop == old(config).l3loop,
                config.mean_bits == old(config).mean_bits,
                config.resv_size == old(config).resv_size,
                config.resv_max == old(config).resv_max,
                config.bs == old(config).bs,
                forall|c: int, g: int|
                    0 <= c < 2 && 0 <= g < 2 ==> #[trigger] config.l3_enc@[c]@[g]@ == if c < ch || (c
                        == ch && g < gr) {
                        target[c][g]
                    } else {
                        old(config).l3_enc@[c]@[g]@
                    },
            decreases granules - gr,
        {
            let mut pi = config.l3_enc[ch][gr];
            let pr = &config.mdct_freq[ch][gr];
            let ghost orig = pi@;
            let mut i: usize = 0;
            while i < 576
                invariant
                    i <= 576,
                    orig == old(config).l3_enc@[ch as int]@[gr as int]@,
                    pr@ == old(config).mdct_freq@[ch as int]@[gr as int]@,
                    forall|j: int|
                        0 <= j < 576 ==> #[trigger] pi@[j] == if j < i {
                            corrected_granule(orig, pr@)[j]
                        } else {
                            orig[j]
                        },
                decreases 576 - i,
            {
                let pi_val = pi[i];
                if pr[i] < 0 && pi_val > 0 {
                    pi[i] = pi_val * -1;
                }
                i = i + 1;
            }
            assert(pi@ =~= target[ch as int][gr as int]);
            let mut row = config.l3_enc[ch];
            row[gr] = pi;
            config.l3_enc[ch] = row;
            gr = gr + 1;
        }
        ch = ch + 1;
    }
    assert(l3_enc_view(*config) =~= target) by {
        assert forall|c: int| 0 <= c < 2 implies l3_enc_view(*config)[c] =~= target[c] by {
            assert forall|g: int| 0 <= g < 2 implies l3_enc_view(*config)[c][g] == target[c][g] by {
                assert(config.l3_enc@[c]@[g]@ == target[c][g]);
            }
        }
    }
}

/// Formats a coded frame into the bitstream: restores the signs of the
/// quantized spectra, then writes the header and side information and, if
/// every field of it was accepted, the main data.
pub fn format_bitstream(config: &mut ShineGlobalConfig, tables: &[HuffCodeTab]) -> (r: Result<(), EncodingError>)
    requires
        0 <= old(config).wave.channels <= 2,
        0 <= old(config).mpeg.granules_per_frame <= 2,
        puts_all_valid(side_info_fields(*old(config))) ==> steps_ready(
            main_data_steps(*old(config), tables@, sign_corrected(*old(config))),
        ),
        has_room(
            old(config).bs,
            (puts_written(side_info_fields(*old(config))).len() + steps_written(
                main_data_steps(*old(config), tables@, sign_corrected(*old(config))),
            ).len()) as int + 64,
        ),
    ensures
        l3_enc_view(*final(config)) == sign_corrected(*old(config)),
        final(config).bs.wf(),
        final(config).bs.stream() == old(config).bs.stream() + puts_written(
            side_info_fields(*old(config)),
        ) + if puts_all_valid(side_info_fields(*old(config))) {
            steps_written(main_data_steps(*old(config), tables@, sign_corrected(*old(config))))
        } else {
            Seq::empty()
        },
        r == if puts_all_valid(side_info_fields(*old(config))) {
            steps_result(main_data_steps(*old(config), tables@, sign_corrected(*old(config))))
        } else {
            puts_result(side_info_fields(*old(config)))
        },
        final(config).wave == old(config).wave,
        final(config).mpeg == old(config).mpeg,
        final(config).side_info == old(config).side_info,
        final(config).scalefactor == old(config).scalefactor,
        final(config).mdct_freq == old(config).mdct_freq,
        final(config).l3_sb_sample == old(config).l3_sb_sample,
        final(config).l3loop == old(config).l3loop,
        final(config).mean_bits == old(config).mean_bits,
        final(config).resv_size == old(config).resv_size,
        final(config).resv_max == old(config).resv_max,
{
    restore_signs(config);
    let ghost c1 = *config;
    assert(side_info_fields(c1) == side_info_fields(*old(config)));
    let r1 = encode_side_info(config);
    match r1 {
        Ok(()) => {},
        Err(e) => {
            assert(!puts_all_valid(side_info_fields(*old(config))));
            assert(config.bs.stream() =~= old(config).bs.stream() + puts_written(
                side_info_fields(*old(config)),
            ) + Seq::<bool>::empty());
            return Err(e);
        },
    }
    let ghost c2 = *config;
    proof {
        assert(side_info_fields(c1).take(side_info_fields(c1).len() as int) =~= side_info_fields(c1));
        lemma_main_data_steps_frame(
            c2,
            *old(config),
            tables@,
            sign_corrected(*old(config)),
            c2.mpeg.granules_per_frame as int,
        );
        assert(l3_enc_view(c2) == sign_corrected(*old(config)));
        c2.bs.lemma_stream_len();
    }
    encode_main_data(config, tables)
}

} // verus!
