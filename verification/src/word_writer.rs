//! A bit writer that stores its 32-bit cache only as whole words: bits are
//! gathered most significant first and each full cache word, or the last
//! partial one on flushing, is stored big-endian.

use vstd::prelude::*;
use crate::bits::{
    lemma_zero_shift_facts, bytes_bits, lemma_bytes_bits_append, lemma_bytes_bits_len, lemma_cache_fill, lemma_cache_insert,
    lemma_cache_rest, lemma_word_bytes_bits, lemma_word_prefix_zero_tail, value_bits, word_bytes,
    word_prefix, zeros,
};
use crate::error::{BitstreamFault, EncodingError};

verus! {

/// Writes bits, most significant first, into a growing byte buffer.
#[derive(Debug)]
pub struct BitstreamWriter {
    /// The byte buffer.
    pub data: Vec<u8>,
    /// The buffer's size.
    pub data_size: usize,
    /// Number of bytes of the buffer that have been written.
    pub data_position: usize,
    /// Bits not yet stored, from the most significant bit down.
    pub cache: u32,
    /// Number of bits still free in the cache.
    pub cache_bits: u32,
}

/// Whether one write of `n` bits of `val` is accepted.
pub open spec fn write_is_valid(val: u32, n: u32) -> bool {
    &&& n <= 32
    &&& n < 32 ==> val >> n == 0
}

/// The fault reported for a refused write.
pub open spec fn write_fault(val: u32, n: u32) -> BitstreamFault {
    if n > 32 {
        BitstreamFault::TooManyBits { n: n as i64 }
    } else {
        BitstreamFault::UpperBitsSet { val, n: n as i64 }
    }
}

/// Storing a cache word at the write position needs no growth of the
/// buffer, or its growth by half stays within what a `Vec` can hold.
pub open spec fn can_store_word(bs: BitstreamWriter) -> bool {
    bs.data_position + 4 < bs.data_size || bs.data_size + bs.data_size / 2 <= isize::MAX
}

impl Default for BitstreamWriter {
    /// A writer over a zeroed buffer of 8192 bytes.
    fn default() -> (w: Self)
        ensures
            w.data@ == Seq::new(8192, |i: int| 0u8),
            w.data_size == 8192,
            w.data_position == 0,
            w.cache == 0,
            w.cache_bits == 32,
            w.wf(),
            w.stream() == Seq::<bool>::empty(),
    {
        BitstreamWriter::new(8192)
    }
}

impl BitstreamWriter {
    /// The writer's bookkeeping is consistent: the buffer size is recorded,
    /// the buffer is large enough to grow by half, the cache holds between 0
    /// and 31 bits and its free bits are clear.
    pub open spec fn wf(&self) -> bool {
        &&& self.data@.len() == self.data_size
        &&& 8 <= self.data_size
        &&& self.data_position <= self.data_size
        &&& 1 <= self.cache_bits <= 32
        &&& self.cache << ((32 - self.cache_bits) as u32) == 0
    }

    /// Every bit written so far: the stored bytes, then the bits held in the cache.
    #[verifier::opaque]
    pub open spec fn stream(&self) -> Seq<bool> {
        bytes_bits(self.data@.subrange(0, self.data_position as int)) + word_prefix(
            self.cache,
            (32 - self.cache_bits) as nat,
        )
    }

    pub proof fn lemma_stream_len(&self)
        requires
            self.wf(),
        ensures
            self.stream().len() == 8 * self.data_position + 32 - self.cache_bits,
    {
        reveal(BitstreamWriter::stream);
        lemma_bytes_bits_len(self.data@.subrange(0, self.data_position as int));
    }

    /// Opens a writer over a zeroed buffer of `size` bytes.
    pub fn new(size: usize) -> (w: Self)
        ensures
            w.data@ == Seq::new(size as nat, |i: int| 0u8),
            w.data_size == size,
            w.data_position == 0,
            w.cache == 0,
            w.cache_bits == 32,
            size >= 8 ==> w.wf(),
            w.stream() == Seq::<bool>::empty(),
    {
        reveal(BitstreamWriter::stream);
        let data = vec![0u8; size];
        let w = BitstreamWriter { data, data_size: size, data_position: 0, cache: 0, cache_bits: 32 };
        assert(w.data@ =~= Seq::new(size as nat, |i: int| 0u8));
        proof { lemma_zero_shift_facts(); }
        assert(w.data@.subrange(0, 0) =~= Seq::<u8>::empty());
        assert(bytes_bits(Seq::<u8>::empty()) =~= Seq::<bool>::empty());
        assert(w.stream() =~= Seq::<bool>::empty());
        w
    }

    /// Makes the buffer half as large again, keeping its content.
    fn grow(&mut self)
        requires
            old(self).wf(),
            old(self).data_size + old(self).data_size / 2 <= isize::MAX,
        ensures
            final(self).data_size == old(self).data_size + old(self).data_size / 2,
            final(self).data@.subrange(0, old(self).data_size as int) == old(self).data@,
            final(self).data_position == old(self).data_position,
            final(self).cache == old(self).cache,
            final(self).cache_bits == old(self).cache_bits,
            final(self).wf(),
            final(self).stream() == old(self).stream(),
    {
        reveal(BitstreamWriter::stream);
        let new_size = self.data_size + (self.data_size / 2);
        self.data.resize(new_size, 0);
        self.data_size = new_size;
        assert(self.data@.subrange(0, old(self).data_position as int) =~= old(self).data@.subrange(
            0,
            old(self).data_position as int,
        )) by {
            assert forall|i: int| 0 <= i < old(self).data_position implies self.data@[i] == old(
                self,
            ).data@[i] by {
                assert(self.data@.subrange(0, old(self).data_size as int)[i] == self.data@[i]);
            }
        }
    }

    /// Stores the four bytes of `w` at the write position and moves past them.
    fn store_word(&mut self, w: u32)
        requires
            old(self).data@.len() == old(self).data_size,
            old(self).data_position + 4 <= old(self).data_size,
        ensures
            final(self).data@.len() == old(self).data@.len(),
            final(self).data@.subrange(0, old(self).data_position + 4) == old(self).data@.subrange(
                0,
                old(self).data_position as int,
            ) + word_bytes(w),
            final(self).data_size == old(self).data_size,
            final(self).data_position == old(self).data_position + 4,
            final(self).cache == old(self).cache,
            final(self).cache_bits == old(self).cache_bits,
    {
        let p = self.data_position;
        self.data[p] = (w >> 24u32) as u8;
        self.data[p + 1] = (w >> 16u32) as u8;
        self.data[p + 2] = (w >> 8u32) as u8;
        self.data[p + 3] = w as u8;
        self.data_position = self.data_position + 4;
        assert(self.data@.subrange(0, p + 4) =~= old(self).data@.subrange(0, p as int) + word_bytes(w));
    }

    /// Writes the `n` low bits of `val`, most significant first. A write of
    /// more than 32 bits, or of a value with bits set above the `n` low
    /// ones, is refused and changes nothing; a write of no bits changes
    /// nothing either.
    pub fn put_bits(&mut self, val: u32, n: u32) -> (r: Result<(), EncodingError>)
        requires
            old(self).wf(),
            write_is_valid(val, n) && n > 0 && old(self).cache_bits <= n ==> can_store_word(*old(self)),
        ensures
            n == 0 ==> *final(self) == *old(self),
            final(self).data_size == if r is Ok && old(self).cache_bits <= n
                && old(self).data_position + 4 >= old(self).data_size {
                old(self).data_size + old(self).data_size / 2
            } else {
                old(self).data_size as int
            },
            final(self).data@.subrange(0, old(self).data_position as int) == old(self).data@.subrange(
                0,
                old(self).data_position as int,
            ),
            final(self).wf(),
            r is Ok <==> write_is_valid(val, n),
            r is Ok ==> final(self).stream() == old(self).stream() + value_bits(val, n as nat),
            r is Err ==> *final(self) == *old(self),
            r is Err ==> r == Err::<(), EncodingError>(EncodingError::BitstreamError(write_fault(val, n))),
            final(self).data_position == old(self).data_position + if r is Ok
                && old(self).cache_bits <= n {
                4int
            } else {
                0int
            },
            final(self).cache_bits == if r is Ok {
                if old(self).cache_bits > n {
                    old(self).cache_bits - n
                } else {
                    32 - (n - old(self).cache_bits)
                }
            } else {
                old(self).cache_bits as int
            },
    {
        reveal(BitstreamWriter::stream);
        if n > 32 {
            return Err(EncodingError::BitstreamError(BitstreamFault::TooManyBits { n: n as i64 }));
        }
        if n < 32 && (val >> n) != 0 {
            return Err(
                EncodingError::BitstreamError(BitstreamFault::UpperBitsSet { val, n: n as i64 }),
            );
        }
        if n == 0 {
            assert(value_bits(val, 0) =~= Seq::<bool>::empty());
            assert(old(self).stream() + value_bits(val, 0) =~= old(self).stream());
            return Ok(());
        }
        let ghost old_w = *self;
        if self.cache_bits > n {
            let cb = self.cache_bits;
            self.cache_bits = self.cache_bits - n;
            proof {
                lemma_cache_insert(old_w.cache, cb, val, n);
            }
            self.cache = self.cache | (val << self.cache_bits);
            assert(self.stream() =~= old_w.stream() + value_bits(val, n as nat));
        } else {
            if self.data_position + 4 >= self.data_size {
                self.grow();
            }
            let ghost mid = *self;
            let remaining_n = n - self.cache_bits;
            let cb = self.cache_bits;
            proof {
                lemma_cache_fill(mid.cache, cb, val, remaining_n);
            }
            let word = self.cache | (val >> remaining_n);
            self.cache = word;
            self.store_word(word);
            proof {
                let p0 = old_w.data_position as int;
                assert(mid.data@.subrange(0, p0) =~= mid.data@.subrange(0, mid.data_size as int).subrange(0, p0));
                assert(mid.data@.subrange(0, p0) =~= old_w.data@.subrange(0, p0));
                assert(self.data@.subrange(0, p0) =~= self.data@.subrange(0, p0 + 4).subrange(0, p0));
                lemma_word_bytes_bits(word);
                lemma_bytes_bits_append(mid.data@.subrange(0, mid.data_position as int), word_bytes(word));
            }
            self.cache_bits = 32 - remaining_n;
            if remaining_n != 0 {
                self.cache = val << self.cache_bits;
                proof {
                    lemma_cache_rest(val, cb, remaining_n);
                }
                assert(value_bits(val, n as nat) =~= value_bits(val, n as nat).take(cb as int)
                    + value_bits(val, n as nat).skip(cb as int));
            } else {
                self.cache = 0;
                assert(word_prefix(0, 0) =~= Seq::<bool>::empty());
                assert(value_bits(val, n as nat).take(cb as int) =~= value_bits(val, n as nat));
                proof { lemma_zero_shift_facts(); }
            }
            assert(self.stream() =~= old_w.stream() + value_bits(val, n as nat));
        }
        Ok(())
    }

    /// Number of bits written so far, as an `i32` (truncated if larger).
    pub fn get_bits_count(&self) -> (count: i32)
        requires
            self.cache_bits <= 32,
            8 * self.data_position + 32 <= usize::MAX,
        ensures
            count == ((8 * self.data_position + 32 - self.cache_bits) as int) as i32,
            self.wf() ==> count == (self.stream().len() as int) as i32,
    {
        proof {
            if self.wf() {
                self.lemma_stream_len();
            }
        }
        #[verifier::truncate] ((self.data_position * 8 + (32 - self.cache_bits) as usize) as i32)
    }

    /// The bytes stored so far.
    pub fn get_data(&self) -> (out: &[u8])
        requires
            self.data_position <= self.data@.len(),
        ensures
            out@ == self.data@.subrange(0, self.data_position as int),
    {
        vstd::slice::slice_subrange(self.data.as_slice(), 0, self.data_position)
    }

    /// Stores the cache as a whole word when it holds bits, the bits followed
    /// by zero bits, and empties the cache. With an empty cache nothing
    /// changes.
    pub fn flush(&mut self) -> (r: Result<(), EncodingError>)
        requires
            old(self).wf(),
            old(self).cache_bits < 32 ==> can_store_word(*old(self)),
        ensures
            old(self).cache_bits == 32 ==> *final(self) == *old(self),
            final(self).data_position == old(self).data_position + if old(self).cache_bits < 32 {
                4int
            } else {
                0int
            },
            final(self).data_size == if old(self).cache_bits < 32 && old(self).data_position + 4
                >= old(self).data_size {
                old(self).data_size + old(self).data_size / 2
            } else {
                old(self).data_size as int
            },
            final(self).data@.subrange(0, old(self).data_position as int) == old(self).data@.subrange(
                0,
                old(self).data_position as int,
            ),
            r is Ok,
            final(self).wf(),
            final(self).cache_bits == 32,
            final(self).cache == 0,
            final(self).stream() == old(self).stream() + zeros(
                if old(self).cache_bits < 32 {
                    old(self).cache_bits as nat
                } else {
                    0
                },
            ),
            final(self).stream() == bytes_bits(
                final(self).data@.subrange(0, final(self).data_position as int),
            ),
    {
        reveal(BitstreamWriter::stream);
        if self.cache_bits < 32 {
            if self.data_position + 4 >= self.data_size {
                self.grow();
            }
            let ghost mid = *self;
            let c = self.cache;
            self.store_word(c);
            self.cache = 0;
            self.cache_bits = 32;
            proof {
                let p0 = old(self).data_position as int;
                assert(mid.data@.subrange(0, p0) =~= mid.data@.subrange(0, mid.data_size as int).subrange(0, p0));
                assert(mid.data@.subrange(0, p0) =~= old(self).data@.subrange(0, p0));
                assert(self.data@.subrange(0, p0) =~= self.data@.subrange(0, p0 + 4).subrange(0, p0));
                lemma_word_bytes_bits(c);
                lemma_bytes_bits_append(mid.data@.subrange(0, mid.data_position as int), word_bytes(c));
                lemma_word_prefix_zero_tail(c, mid.cache_bits, 32);
                assert(word_prefix(0, 0) =~= Seq::<bool>::empty());
                lemma_zero_shift_facts();
                assert(self.stream() =~= bytes_bits(self.data@.subrange(0, self.data_position as int)));
                assert(self.stream() =~= mid.stream() + zeros(mid.cache_bits as nat));
            }
        } else {
            let c = self.cache;
            proof { lemma_zero_shift_facts(); }
                assert(c == 0);
            assert(zeros(0) =~= Seq::<bool>::empty());
            assert(word_prefix(c, 0) =~= Seq::<bool>::empty());
            assert(self.stream() =~= old(self).stream() + zeros(0));
        }
        Ok(())
    }
}

} // verus!
