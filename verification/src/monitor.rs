//! Counts that the encoding pipeline monitor takes of each stage's values:
//! how many values there are, how many are not zero, and the largest and
//! smallest of them.

use vstd::prelude::*;

verus! {

/// The counts of a stage's values; the extremes are 0 when there is none.
#[derive(Debug, Clone, Copy, PartialEq, Eq, Structural)]
pub struct SampleCounts {
    pub total: usize,
    pub nonzero: usize,
    pub max_value: i32,
    pub min_value: i32,
}

/// Number of non-zero values.
pub open spec fn nonzero_count(s: Seq<int>) -> int
    decreases s.len(),
{
    if s.len() == 0 {
        0
    } else {
        nonzero_count(s.drop_last()) + if s.last() != 0 {
            1int
        } else {
            0int
        }
    }
}

/// The largest value, or 0 when there is none.
pub open spec fn max_or_zero(s: Seq<int>) -> int
    decreases s.len(),
{
    if s.len() == 0 {
        0
    } else if s.len() == 1 {
        s[0]
    } else {
        let m = max_or_zero(s.drop_last());
        if s.last() > m {
            s.last()
        } else {
            m
        }
    }
}

/// The smallest value, or 0 when there is none.
pub open spec fn min_or_zero(s: Seq<int>) -> int
    decreases s.len(),
{
    if s.len() == 0 {
        0
    } else if s.len() == 1 {
        s[0]
    } else {
        let m = min_or_zero(s.drop_last());
        if s.last() < m {
            s.last()
        } else {
            m
        }
    }
}

/// The counts a sequence of values gives.
pub open spec fn counts_of(s: Seq<int>) -> SampleCounts {
    SampleCounts {
        total: s.len() as usize,
        nonzero: nonzero_count(s) as usize,
        max_value: max_or_zero(s) as i32,
        min_value: min_or_zero(s) as i32,
    }
}

/// Values widened to integers.
pub open spec fn widen_i32(s: Seq<i32>) -> Seq<int> {
    Seq::new(s.len(), |i: int| s[i] as int)
}

/// Samples widened to integers.
pub open spec fn widen_i16(s: Seq<i16>) -> Seq<int> {
    Seq::new(s.len(), |i: int| s[i] as int)
}

/// Bytes widened to integers.
pub open spec fn widen_u8(s: Seq<u8>) -> Seq<int> {
    Seq::new(s.len(), |i: int| s[i] as int)
}

proof fn lemma_counts_bounds(s: Seq<int>, lo: int, hi: int)
    requires
        lo <= 0 <= hi,
        forall|i: int| 0 <= i < s.len() ==> lo <= #[trigger] s[i] <= hi,
    ensures
        lo <= max_or_zero(s) <= hi,
        lo <= min_or_zero(s) <= hi,
        0 <= nonzero_count(s) <= s.len(),
    decreases s.len(),
{
    if s.len() > 0 {
        let t = s.drop_last();
        assert forall|i: int| 0 <= i < t.len() implies lo <= #[trigger] t[i] <= hi by {
            assert(t[i] == s[i]);
        }
        lemma_counts_bounds(t, lo, hi);
    }
}

/// Folds value `v`, the `i`-th, into the counts of the values before it.
fn fold_value(c: SampleCounts, v: i32, i: usize) -> (r: SampleCounts)
    requires
        c.total == i,
        c.nonzero <= i,
        i < usize::MAX,
    ensures
        r.total == i + 1,
        r.nonzero == c.nonzero + if v != 0 { 1int } else { 0int },
        r.max_value == if i == 0 || v > c.max_value { v } else { c.max_value },
        r.min_value == if i == 0 || v < c.min_value { v } else { c.min_value },
{
    SampleCounts {
        total: i + 1,
        nonzero: if v != 0 { c.nonzero + 1 } else { c.nonzero },
        max_value: if i == 0 || v > c.max_value { v } else { c.max_value },
        min_value: if i == 0 || v < c.min_value { v } else { c.min_value },
    }
}

/// The counts of 32-bit values.
pub fn count_values(values: &[i32]) -> (r: SampleCounts)
    ensures
        r == counts_of(widen_i32(values@)),
{
    let ghost all = widen_i32(values@);
    let mut c = SampleCounts { total: 0, nonzero: 0, max_value: 0, min_value: 0 };
    let mut i: usize = 0;
    assert(all.take(0) =~= Seq::<int>::empty());
    while i < values.len()
        invariant
            i <= values@.len(),
            all == widen_i32(values@),
            c.total == i,
            c.nonzero == nonzero_count(all.take(i as int)),
            c.nonzero <= i,
            c.max_value == max_or_zero(all.take(i as int)),
            c.min_value == min_or_zero(all.take(i as int)),
        decreases values@.len() - i,
    {
        let v = values[i];
        proof {
            let t = all.take(i + 1);
            assert(t.drop_last() =~= all.take(i as int));
            assert(t.last() == v);
            if i == 0 {
                assert(t =~= seq![v as int]);
            }
        }
        c = fold_value(c, v, i);
        i = i + 1;
    }
    proof {
        assert(all.take(i as int) =~= all);
        lemma_counts_bounds(all, i32::MIN as int, i32::MAX as int);
    }
    c
}

/// The counts of 16-bit samples.
pub fn count_samples(samples: &[i16]) -> (r: SampleCounts)
    ensures
        r == counts_of(widen_i16(samples@)),
{
    let ghost all = widen_i16(samples@);
    let mut c = SampleCounts { total: 0, nonzero: 0, max_value: 0, min_value: 0 };
    let mut i: usize = 0;
    while i < samples.len()
        invariant
            i <= samples@.len(),
            all == widen_i16(samples@),
            c.total == i,
            c.nonzero == nonzero_count(all.take(i as int)),
            c.nonzero <= i,
            c.max_value == max_or_zero(all.take(i as int)),
            c.min_value == min_or_zero(all.take(i as int)),
        decreases samples@.len() - i,
    {
        let v = samples[i] as i32;
        proof {
            let t = all.take(i + 1);
            assert(t.drop_last() =~= all.take(i as int));
            assert(t.last() == v);
            if i == 0 {
                assert(t =~= seq![v as int]);
            }
        }
        c = fold_value(c, v, i);
        i = i + 1;
    }
    proof {
        assert(all.take(i as int) =~= all);
        lemma_counts_bounds(all, i32::MIN as int, i32::MAX as int);
    }
    c
}

/// The counts of bytes.
pub fn count_bytes(bytes: &[u8]) -> (r: SampleCounts)
    ensures
        r == counts_of(widen_u8(bytes@)),
{
    let ghost all = widen_u8(bytes@);
    let mut c = SampleCounts { total: 0, nonzero: 0, max_value: 0, min_value: 0 };
    let mut i: usize = 0;
    while i < bytes.len()
        invariant
            i <= bytes@.len(),
            all == widen_u8(bytes@),
            c.total == i,
            c.nonzero == nonzero_count(all.take(i as int)),
            c.nonzero <= i,
            c.max_value == max_or_zero(all.take(i as int)),
            c.min_value == min_or_zero(all.take(i as int)),
        decreases bytes@.len() - i,
    {
        let v = bytes[i] as i32;
        proof {
            let t = all.take(i + 1);
            assert(t.drop_last() =~= all.take(i as int));
            assert(t.last() == v);
            if i == 0 {
                assert(t =~= seq![v as int]);
            }
        }
        c = fold_value(c, v, i);
        i = i + 1;
    }
    proof {
        assert(all.take(i as int) =~= all);
        lemma_counts_bounds(all, i32::MIN as int, i32::MAX as int);
    }
    c
}

/// The byte range of a frame's main data: from `start`, `len` bytes but
/// not past the frame's end; none if it starts past the end.
pub fn main_data_region(frame_len: usize, start: usize, len: usize) -> (r: Option<(usize, usize)>)
    requires
        start + len <= usize::MAX,
    ensures
        start >= frame_len ==> r is None,
        start < frame_len ==> r == Some(
            (start, if start + len < frame_len { (start + len) as usize } else { frame_len }),
        ),
{
    if start < frame_len {
        let end = if start + len < frame_len { start + len } else { frame_len };
        Some((start, end))
    } else {
        None
    }
}

/// Whether a granule's big values count is above the largest allowed.
pub fn big_values_exceed(big_values: u32, big_values_max: u32) -> (r: bool)
    ensures
        r == (big_values > big_values_max),
{
    big_values > big_values_max
}

/// Whether Huffman coding produced no bits although some coefficients were
/// not zero.
pub fn no_bits_for_nonzero(bits_generated: usize, nonzero_coeffs: usize) -> (r: bool)
    ensures
        r == (bits_generated == 0 && nonzero_coeffs > 0),
{
    bits_generated == 0 && nonzero_coeffs > 0
}

} // verus!
