//! Properties that relate several operations of the library.

use vstd::prelude::*;
use crate::bits::{byte_bits, bytes_bits, value_bits, word_prefix, lemma_bytes_bits_len, lemma_zero_shift_facts};
use crate::bitstream::{
    granule_channels_fields, granule_info_fields, granules_fields, scfsi_fields, side_info_fields,
    side_start_fields, header_fields, lemma_puts_bits_append, lemma_puts_valid_prefix_bound, put_is_valid,
    puts_all_valid, puts_bits, rem3, BitstreamWriter, write_step, lemma_whole_words_stored, puts_result,
    puts_valid_prefix, puts_written,
    lemma_prefix_kept,
};
use crate::mp3_frame::{be_u32, FrameHeader, ValidationError};
use crate::types::MpegFrameInfo;
use crate::huffman::HuffCodeTab;
use crate::bitstream::{pair_bits, quad_bits};
use crate::mp3_validator::id3_skip;
use crate::mp3_analysis::{candidates_before, HeaderCandidate, HeaderSummary};
use crate::error::EncodingError;
use crate::mp3_analysis::{analysis_of, granule_of, Findings, GranuleSummary};
use crate::mp3_frame::{extracted_bits, header_error, header_of, lemma_bit_of_byte, plausible_header};
use vstd::arithmetic::power2::{lemma2_to64, lemma_pow2_unfold, pow2};
use crate::reservoir::{
    max_reservoir_bits, div_trunc,
    drained_stuffing, frame_end_overflow, frame_end_ready, frame_end_reservoir, frame_end_start,
    frame_end_stuffing, granule_slots, part2_3_lengths, spread_stuffing, stuffed_lengths,
};
use crate::types::ShineGlobalConfig;
use crate::wav::{
    chunk_samples, initial_scan, is_data, is_fmt, le_u16, le_u32, next_chunk, parse_lenient,
    parse_strict, scan_lenient, scan_strict, ScanState,
};
use crate::config::{
    bitrate_table, bitrates_for_sample_rate, is_supported_bitrate, is_supported_sample_rate,
    mode_suits_channels, version_of_rate, Config,
};

verus! {

/// The value of a bit sequence read most significant bit first.
pub open spec fn bits_value(s: Seq<bool>) -> int
    decreases s.len(),
{
    if s.len() == 0 {
        0
    } else {
        2 * bits_value(s.drop_last()) + if s.last() {
            1int
        } else {
            0int
        }
    }
}

proof fn lemma_byte_bit(b: u8, i: int)
    requires
        0 <= i < 8,
    ensures
        byte_bits(b)[i] == ((b as int / pow2((7 - i) as nat) as int) % 2 == 1),
{
    let s = (7 - i) as u32;
    let su = (7 - i) as u8;
    assert(((b as u32) >> s) & 1u32 == 1u32 <==> (b >> su) & 1u8 == 1u8) by (bit_vector)
        requires
            s < 8,
            su == s,
    ;
    lemma_bit_of_byte(b, su);
}

/// Bit `k` of the bits of a byte sequence is bit `7 - k % 8` of byte `k / 8`.
pub proof fn lemma_bytes_bits_index(data: Seq<u8>, k: int)
    requires
        0 <= k < 8 * data.len(),
    ensures
        bytes_bits(data)[k] == ((data[k / 8] as int / pow2((7 - k % 8) as nat) as int) % 2 == 1),
    decreases data.len(),
{
    let init = data.drop_last();
    lemma_bytes_bits_len(init);
    if k < 8 * init.len() {
        lemma_bytes_bits_index(init, k);
        assert(bytes_bits(data)[k] == bytes_bits(init)[k]);
        assert(init[k / 8] == data[k / 8]);
    } else {
        let i = k - 8 * init.len();
        assert(k / 8 == init.len() && k % 8 == i) by (nonlinear_arith)
            requires
                i == k - 8 * init.len(),
                0 <= i < 8,
        ;
        assert(bytes_bits(data)[k] == byte_bits(data.last())[i]);
        lemma_byte_bit(data.last(), i);
    }
}

proof fn lemma_extracted_prefix(data: Seq<u8>, off: int, i: int)
    requires
        0 <= off,
        0 <= i,
        off + i <= 8 * data.len(),
    ensures
        extracted_bits(data, off, i) == bits_value(bytes_bits(data).subrange(off, off + i)) % 65536,
    decreases i,
{
    lemma_bytes_bits_len(data);
    if i > 0 {
        lemma_extracted_prefix(data, off, i - 1);
        let s = bytes_bits(data).subrange(off, off + i);
        assert(s.drop_last() =~= bytes_bits(data).subrange(off, off + i - 1));
        let k = off + i - 1;
        lemma_bytes_bits_index(data, k);
        assert(k / 8 < data.len()) by (nonlinear_arith)
            requires
                0 <= k < 8 * data.len(),
        ;
        let v = bits_value(s.drop_last());
        let b: int = if s.last() { 1 } else { 0 };
        assert((2 * (v % 65536) + b) % 65536 == (2 * v + b) % 65536) by (nonlinear_arith)
            requires
                v >= 0 || v < 0,
        ;
    }
}

proof fn lemma_shift_step(v: u32, s: u32)
    requires
        s < 16,
    ensures
        (v >> (s + 1)) * 2 + ((v >> s) & 1u32) == v >> s,
{
    assert((v >> (s + 1)) * 2 + ((v >> s) & 1u32) == v >> s) by (bit_vector)
        requires
            s < 16,
    ;
}

proof fn lemma_value_bits_prefix_value(val: u32, n: nat, i: nat)
    requires
        n <= 16,
        i <= n,
        val >> (n as u32) == 0,
    ensures
        bits_value(value_bits(val, n).take(i as int)) == val >> ((n - i) as u32),
    decreases i,
{
    if i == 0 {
        assert(value_bits(val, n).take(0) =~= Seq::<bool>::empty());
    } else {
        lemma_value_bits_prefix_value(val, n, (i - 1) as nat);
        let t = value_bits(val, n).take(i as int);
        assert(t.drop_last() =~= value_bits(val, n).take(i - 1));
        let s = (n - i) as u32;
        lemma_shift_step(val, s);
        assert((s + 1) as u32 == (n - (i - 1)) as u32);
        assert(t.last() == ((val >> s) & 1u32 == 1u32));
        assert((val >> s) & 1u32 <= 1) by (bit_vector);
    }
}

/// What a write appends is read back: when the bits of `data` from bit
/// `off` on are the `n` low bits of `val` as `put_bits` appends them to the
/// stream (at most 16 bits, `val` having no bit set above them), reading
/// `n` bits at `off` with `extract_bits` gives `val`.
pub proof fn law_extract_reads_back_written_bits(data: Seq<u8>, off: nat, val: u32, n: nat)
    requires
        n <= 16,
        val >> (n as u32) == 0,
        off + n <= 8 * data.len(),
        bytes_bits(data).subrange(off as int, (off + n) as int) == value_bits(val, n),
    ensures
        extracted_bits(data, off as int, n as int) == val,
{
    lemma_extracted_prefix(data, off as int, n as int);
    lemma_value_bits_prefix_value(val, n, n);
    assert(value_bits(val, n).take(n as int) =~= value_bits(val, n));
    lemma_zero_shift_facts();
    let nn = n as u32;
    assert(val < 65536) by (bit_vector)
        requires
            nn <= 16,
            val >> nn == 0,
    ;
}

/// At the end of a frame the reservoir holds a whole number of bytes, is
/// not negative and is within its maximum; together with the frame's
/// stuffing bits it accounts for every bit it held.
pub proof fn law_frame_end_reservoir(c: ShineGlobalConfig)
    requires
        frame_end_ready(c),
    ensures
        0 <= frame_end_reservoir(c) <= c.resv_max,
        frame_end_reservoir(c) % 8 == 0,
        frame_end_stuffing(c) >= 0,
        frame_end_reservoir(c) + frame_end_stuffing(c) == frame_end_start(c),
{
    let r = frame_end_start(c) - frame_end_overflow(c);
    assert(0 <= r <= c.resv_max);
    assert(0 <= r % 8 < 8);
    assert((r - r % 8) % 8 == 0) by (nonlinear_arith)
        requires
            r >= 0,
    ;
}

/// The sum of the four granule lengths.
pub open spec fn total_length(p: Seq<int>) -> int {
    p[0] + p[1] + p[2] + p[3]
}

proof fn lemma_granule_slots_range(ngr: int, nch: int)
    requires
        0 <= ngr <= 2,
        0 <= nch <= 2,
    ensures
        forall|i: int| 0 <= i < granule_slots(ngr, nch).len() ==> 0 <= #[trigger] granule_slots(
            ngr,
            nch,
        )[i] < 4,
    decreases ngr,
{
    if ngr > 0 {
        lemma_granule_slots_range(ngr - 1, nch);
        let prev = granule_slots(ngr - 1, nch);
        let cur = granule_slots(ngr, nch);
        assert forall|i: int| 0 <= i < cur.len() implies 0 <= #[trigger] cur[i] < 4 by {
            if i >= prev.len() {
                assert(cur[i] == 2 * (ngr - 1) + (i - prev.len()));
            } else {
                assert(cur[i] == prev[i]);
            }
        }
    }
}

proof fn lemma_spread_stuffing(p: Seq<int>, slots: Seq<int>, s: int)
    requires
        p.len() == 4,
        s >= 0,
        forall|k: int| 0 <= k < 4 ==> #[trigger] p[k] <= 4095,
        forall|i: int| 0 <= i < slots.len() ==> 0 <= #[trigger] slots[i] < 4,
    ensures
        spread_stuffing(p, slots, s).0.len() == 4,
        total_length(spread_stuffing(p, slots, s).0) + spread_stuffing(p, slots, s).1
            == total_length(p) + s,
        0 <= spread_stuffing(p, slots, s).1 <= s,
        forall|k: int|
            0 <= k < 4 ==> p[k] <= #[trigger] spread_stuffing(p, slots, s).0[k] <= 4095,
    decreases slots.len(),
{
    if slots.len() > 0 && s != 0 {
        let k = slots[0];
        let extra = 4095 - p[k];
        let add = if extra < s { extra } else { s };
        let q = p.update(k, p[k] + add);
        assert(total_length(q) == total_length(p) + add);
        assert forall|i: int| 0 <= i < slots.drop_first().len() implies 0 <= #[trigger] slots.drop_first()[i]
            < 4 by {
            assert(slots.drop_first()[i] == slots[i + 1]);
        }
        lemma_spread_stuffing(q, slots.drop_first(), s - add);
        assert forall|j: int| 0 <= j < 4 implies p[j] <= #[trigger] spread_stuffing(p, slots, s).0[j]
            by {
            assert(p[j] <= q[j]);
        }
    }
}

/// The stuffing bits of a frame are all placed: added to the granules'
/// lengths, none of which is taken past 4095 bits, or left for ancillary
/// data.
pub proof fn law_stuffing_placed(c: ShineGlobalConfig)
    requires
        frame_end_ready(c),
    ensures
        ({
            let s = frame_end_stuffing(c);
            let p = part2_3_lengths(c.side_info);
            let left = if s == 0 || p[0] + s < 4095 {
                0
            } else {
                drained_stuffing(c)
            };
            &&& total_length(stuffed_lengths(c)) + left == total_length(p) + s
            &&& 0 <= left <= s
            &&& forall|k: int|
                0 <= k < 4 ==> p[k] <= #[trigger] stuffed_lengths(c)[k]
            &&& forall|k: int|
                0 <= k < 4 && p[k] <= 4095 ==> #[trigger] stuffed_lengths(c)[k] <= 4095
        }),
{
    law_frame_end_reservoir(c);
    let s = frame_end_stuffing(c);
    let p = part2_3_lengths(c.side_info);
    if s == 0 {
    } else if p[0] + s < 4095 {
        assert(total_length(p.update(0, p[0] + s)) == total_length(p) + s);
    } else {
        let ngr = c.mpeg.granules_per_frame as int;
        let nch = c.wave.channels as int;
        lemma_granule_slots_range(ngr, nch);
        lemma_spread_stuffing(p, granule_slots(ngr, nch), s);
    }
}

/// Two scan states agree on what a read gives: format and samples.
pub open spec fn same_audio(a: ScanState, b: ScanState) -> bool {
    a.sample_rate == b.sample_rate && a.channels == b.channels && a.samples == b.samples
}

proof fn lemma_scans_agree(b: Seq<u8>, pos: int, st: ScanState, lt: ScanState)
    requires
        same_audio(st, lt),
        scan_strict(b, pos, st) is Ok,
    ensures
        scan_lenient(b, pos, lt) is Ok,
        same_audio(scan_strict(b, pos, st)->Ok_0, scan_lenient(b, pos, lt)->Ok_0),
    decreases b.len() - pos,
{
    if 12 <= pos && pos < b.len() - 8 {
        let size = le_u32(b, pos + 4);
        let start = pos + 8;
        let end = start + size;
        let next = next_chunk(pos, size);
        if is_fmt(b, pos) {
            let st2 = ScanState {
                sample_rate: le_u32(b, start + 4) as u32,
                channels: le_u16(b, start + 2) as u16,
                fmt_found: true,
                ..st
            };
            let lt2 = ScanState {
                sample_rate: le_u32(b, start + 4) as u32,
                channels: le_u16(b, start + 2) as u16,
                ..lt
            };
            if next < b.len() {
                lemma_scans_agree(b, next, st2, lt2);
            }
        } else if is_data(b, pos) {
            let st2 = ScanState {
                samples: st.samples + chunk_samples(b, start, end),
                data_found: true,
                ..st
            };
            let lt2 = ScanState { samples: lt.samples + chunk_samples(b, start, end), ..lt };
            if next < b.len() {
                lemma_scans_agree(b, next, st2, lt2);
            }
        } else {
            if next < b.len() {
                lemma_scans_agree(b, next, st, lt);
            }
        }
    }
}

/// A file the strict WAV reader accepts is read the same by the lenient one.
pub proof fn law_strict_wav_read_agrees_with_lenient(b: Seq<u8>)
    requires
        parse_strict(b) is Ok,
    ensures
        parse_lenient(b) == parse_strict(b),
{
    lemma_scans_agree(b, 12, initial_scan(), initial_scan());
}

/// A configuration that passes validation has a bitrate whose first index
/// in its version's header table is a valid bitrate index, 1 to 14.
pub proof fn law_valid_config_bitrate_index(c: Config)
    requires
        is_supported_sample_rate(c.wave.sample_rate),
        is_supported_bitrate(c.mpeg.bitrate),
        mode_suits_channels(c.wave.channels, c.mpeg.mode),
        bitrates_for_sample_rate(c.wave.sample_rate).contains(c.mpeg.bitrate),
    ensures
        bitrate_table(version_of_rate(c.wave.sample_rate)).contains(c.mpeg.bitrate),
        forall|idx: int|
            0 <= idx < 16 && #[trigger] bitrate_table(version_of_rate(c.wave.sample_rate))[idx]
                == c.mpeg.bitrate && (forall|j: int|
                0 <= j < idx ==> bitrate_table(version_of_rate(c.wave.sample_rate))[j]
                    != c.mpeg.bitrate) ==> 1 <= idx <= 14,
{
    let rate = c.wave.sample_rate;
    let table = bitrate_table(version_of_rate(rate));
    let list = bitrates_for_sample_rate(rate);
    let k = choose|k: int| 0 <= k < list.len() && list[k] == c.mpeg.bitrate;
    if rate == 44100 || rate == 48000 || rate == 32000 || rate == 22050 || rate == 24000 || rate
        == 16000 {
        assert(list =~= table.subrange(1, 15));
    } else {
        assert(list =~= table.subrange(1, 9));
    }
    assert(table[k + 1] == c.mpeg.bitrate);
    assert forall|idx: int|
        0 <= idx < 16 && #[trigger] table[idx] == c.mpeg.bitrate && (forall|j: int|
            0 <= j < idx ==> table[j] != c.mpeg.bitrate) implies 1 <= idx <= 14 by {
        assert(table[0] == 0);
        assert(table[15] == 0);
        if idx > k + 1 {
            assert(table[k + 1] != c.mpeg.bitrate);
        }
    }
}

/// Every accepted write adds exactly its `n` bits to the bit count.
pub proof fn law_write_adds_its_bits(before: BitstreamWriter, after: BitstreamWriter, val: u32, n: nat)
    requires
        after.stream() == before.stream() + value_bits(val, n),
    ensures
        after.stream().len() == before.stream().len() + n,
{
}

/// Once the cache is empty, as after `flush` or `byte_align`, the stream is
/// exactly the bits of the stored bytes, a whole number of bytes.
pub proof fn law_flushed_stream_is_stored_bytes(w: BitstreamWriter)
    requires
        w.wf(),
        w.cache_bits == 32,
    ensures
        w.stream() == bytes_bits(w.data@.subrange(0, w.data_position as int)),
        w.stream().len() % 8 == 0,
{
    reveal(BitstreamWriter::stream);
    w.lemma_stream_len();
    assert(word_prefix(w.cache, 0) =~= Seq::<bool>::empty());
    assert(w.stream() =~= bytes_bits(w.data@.subrange(0, w.data_position as int)));
}

/// Each field of a list of accepted writes is read back by `extract_bits`
/// at its offset, the widths of the writes before it, in the stream the
/// list wrote (for fields of at most 16 bits): a frame's header and side
/// information fields are found where the formatter put them.
pub proof fn law_written_fields_read_back(data: Seq<u8>, off: nat, p: Seq<(u32, i32)>, i: int)
    requires
        puts_all_valid(p),
        0 <= i < p.len(),
        p[i].1 <= 16,
        off + puts_bits(p).len() <= 8 * data.len(),
        bytes_bits(data).subrange(off as int, (off + puts_bits(p).len()) as int) == puts_bits(p),
    ensures
        extracted_bits(data, (off + puts_bits(p.take(i)).len()) as int, p[i].1 as int) == p[i].0,
{
    lemma_puts_valid_prefix_bound(p);
    assert(put_is_valid(p[i].0, p[i].1));
    let head = p.take(i);
    let tail = p.skip(i);
    assert(head + tail =~= p);
    lemma_puts_bits_append(head, tail);
    assert(tail.drop_first() =~= p.skip(i + 1));
    assert(tail[0] == p[i]);
    let w = p[i].1 as nat;
    let v = p[i].0;
    let o = off + puts_bits(head).len();
    let field = value_bits(v, w);
    assert(puts_bits(tail) == field + puts_bits(p.skip(i + 1)));
    lemma_bytes_bits_len(data);
    let hl = puts_bits(head).len();
    assert(puts_bits(p) == puts_bits(head) + (field + puts_bits(p.skip(i + 1))));
    assert(bytes_bits(data).subrange(o as int, (o + w) as int) =~= field) by {
        assert forall|k: int| 0 <= k < w implies bytes_bits(data).subrange(o as int, (o + w) as int)[k]
            == field[k] by {
            assert(puts_bits(p)[hl + k] == field[k]);
            assert(bytes_bits(data).subrange(off as int, (off + puts_bits(p).len()) as int)[puts_bits(head).len()
                + k] == puts_bits(p)[puts_bits(head).len() + k]);
        }
    }
    let nn = w as u32;
    assert(v >> nn == 0) by {
        if w == 32 {
            assert(false);
        }
    }
    law_extract_reads_back_written_bits(data, o as nat, v, w);
}

/// A header word passes the header checks exactly when the frame size
/// search takes it for the start of a frame: every channel mode of a
/// header word is in range.
pub proof fn law_header_checks_match_frame_search(w: u32, position: usize)
    ensures
        header_error(header_of(w), position) is None <==> plausible_header(w),
{
    assert((w >> 6u32) & 0x3u32 <= 3 && (w >> 12u32) & 0xFu32 <= 15 && (w >> 10u32) & 0x3u32 <= 3
        && (w >> 19u32) & 0x1u32 <= 1 && (w >> 17u32) & 0x3u32 <= 3 && (w >> 20u32) & 0xFFFu32
        <= 0xFFF) by (bit_vector);
}

proof fn lemma_bits_value_append(s: Seq<bool>, t: Seq<bool>)
    ensures
        bits_value(s + t) == bits_value(s) * pow2(t.len()) + bits_value(t),
    decreases t.len(),
{
    if t.len() == 0 {
        assert(s + t =~= s);
        lemma2_to64();
    } else {
        let t2 = t.drop_last();
        lemma_bits_value_append(s, t2);
        assert((s + t).drop_last() =~= s + t2);
        assert((s + t).last() == t.last());
        lemma_pow2_unfold(t.len());
        let x = bits_value(s);
        let y = bits_value(t2);
        let q = pow2(t2.len()) as int;
        let b: int = if t.last() { 1 } else { 0 };
        assert(2 * (x * q + y) + b == x * (2 * q) + (2 * y + b)) by (nonlinear_arith);
    }
}

proof fn lemma_value_bits_value(v: u32, n: nat)
    requires
        n <= 16,
        v >> (n as u32) == 0,
    ensures
        bits_value(value_bits(v, n)) == v,
{
    lemma_value_bits_prefix_value(v, n, n);
    assert(value_bits(v, n).take(n as int) =~= value_bits(v, n));
    lemma_zero_shift_facts();
}

/// The value of the first `n` writes of a list, most significant first.
pub open spec fn puts_prefix_value(p: Seq<(u32, i32)>, n: int) -> int
    decreases n,
{
    if n <= 0 {
        0
    } else {
        puts_prefix_value(p, n - 1) * pow2(p[n - 1].1 as nat) + p[n - 1].0
    }
}

proof fn lemma_puts_prefix_value(p: Seq<(u32, i32)>, n: int)
    requires
        0 <= n <= p.len(),
        forall|i: int| 0 <= i < n ==> 0 <= #[trigger] p[i].1 <= 16 && p[i].0 >> (p[i].1 as u32) == 0,
    ensures
        bits_value(puts_bits(p.take(n))) == puts_prefix_value(p, n),
    decreases n,
{
    if n == 0 {
        assert(p.take(0) =~= Seq::<(u32, i32)>::empty());
    } else {
        lemma_puts_prefix_value(p, n - 1);
        let last = seq![p[n - 1]];
        assert(p.take(n) =~= p.take(n - 1) + last);
        lemma_puts_bits_append(p.take(n - 1), last);
        assert(last.drop_first() =~= Seq::<(u32, i32)>::empty());
        assert(puts_bits(last.drop_first()) =~= Seq::<bool>::empty());
        assert(puts_bits(last) =~= value_bits(p[n - 1].0, p[n - 1].1 as nat));
        lemma_bits_value_append(puts_bits(p.take(n - 1)), puts_bits(last));
        lemma_value_bits_value(p[n - 1].0, p[n - 1].1 as nat);
    }
}

/// The four bytes at `i` read as a big-endian word are the value of their
/// 32 bits.
proof fn lemma_be_u32_bits(data: Seq<u8>, i: int)
    requires
        0 <= i,
        i + 4 <= data.len(),
    ensures
        bits_value(bytes_bits(data).subrange(8 * i, 8 * i + 32)) == be_u32(data, i),
{
    lemma_bytes_bits_len(data);
    let whole = bytes_bits(data).subrange(8 * i, 8 * i + 32);
    let b0 = byte_bits(data[i]);
    let b1 = byte_bits(data[i + 1]);
    let b2 = byte_bits(data[i + 2]);
    let b3 = byte_bits(data[i + 3]);
    assert(whole =~= b0 + b1 + b2 + b3) by {
        assert forall|k: int| 0 <= k < 32 implies whole[k] == (b0 + b1 + b2 + b3)[k] by {
            let j = k / 8;
            let r = k % 8;
            assert((8 * i + k) / 8 == i + j && (8 * i + k) % 8 == r) by (nonlinear_arith)
                requires
                    j == k / 8,
                    r == k % 8,
                    0 <= k,
            ;
            lemma_bytes_bits_index(data, 8 * i + k);
            lemma_byte_bit(data[i + j], r);
        }
    }
    lemma2_to64();
    lemma_zero_shift_facts();
    assert((data[i] as u32) >> 8u32 == 0);
    assert((data[i + 1] as u32) >> 8u32 == 0);
    assert((data[i + 2] as u32) >> 8u32 == 0);
    assert((data[i + 3] as u32) >> 8u32 == 0);
    lemma_value_bits_value(data[i] as u32, 8);
    lemma_value_bits_value(data[i + 1] as u32, 8);
    lemma_value_bits_value(data[i + 2] as u32, 8);
    lemma_value_bits_value(data[i + 3] as u32, 8);
    lemma_bits_value_append(b0, b1);
    lemma_bits_value_append(b0 + b1, b2);
    lemma_bits_value_append(b0 + b1 + b2, b3);
}

/// The header fields a frame header written from `m` carries: the sync
/// word is eleven one bits and the high version bit, then the low version
/// bit, the layer, the protection bit (set without CRC), the bitrate and
/// sample rate indices, and the remaining flags and fields of `m`.
pub open spec fn written_header(m: MpegFrameInfo) -> FrameHeader {
    FrameHeader {
        sync_word: (0xFFE + (m.version as u32) / 2) as u16,
        mpeg_version: ((m.version as u32) % 2) as u8,
        layer: (m.layer as u32) as u8,
        protection_bit: m.crc == 0,
        bitrate_index: (m.bitrate_index as u32) as u8,
        sample_rate_index: (rem3(m.samplerate_index) as u32) as u8,
        padding_bit: m.padding as u32 != 0,
        private_bit: m.ext as u32 != 0,
        channel_mode: (m.mode as u32) as u8,
        mode_extension: (m.mode_ext as u32) as u8,
        copyright: m.copyright as u32 != 0,
        original: m.original as u32 != 0,
        emphasis: (m.emph as u32) as u8,
    }
}

proof fn lemma_header_word_fields(
    w: u32,
    v: u32,
    l: u32,
    pb: u32,
    b: u32,
    s: u32,
    pad: u32,
    ext: u32,
    mo: u32,
    me: u32,
    c: u32,
    o: u32,
    e: u32,
)
    by (bit_vector)
    requires
        v < 4 && l < 4 && pb < 2 && b < 16 && s < 4 && pad < 2 && ext < 2 && mo < 4 && me < 4 && c
            < 2 && o < 2 && e < 4,
        w == ((((((((((((0x7FFu32 * 4 + v) * 4 + l) * 2 + pb) * 16 + b) * 4 + s) * 2 + pad) * 2
            + ext) * 4 + mo) * 4 + me) * 2 + c) * 2 + o) * 4 + e),
    ensures
        (w >> 20u32) & 0xFFFu32 == 0xFFE + v / 2,
        (w >> 19u32) & 0x1u32 == v % 2,
        (w >> 17u32) & 0x3u32 == l,
        (w >> 16u32) & 0x1u32 == pb,
        (w >> 12u32) & 0xFu32 == b,
        (w >> 10u32) & 0x3u32 == s,
        (w >> 9u32) & 0x1u32 == pad,
        (w >> 8u32) & 0x1u32 == ext,
        (w >> 6u32) & 0x3u32 == mo,
        (w >> 4u32) & 0x3u32 == me,
        (w >> 3u32) & 0x1u32 == c,
        (w >> 2u32) & 0x1u32 == o,
        w & 0x3u32 == e,
{
}

/// A frame header written by the formatter is read back by the header
/// parser: the word of the four bytes holding the header's 32 bits has
/// the fields written; one of MPEG-1 Layer III with a bitrate index of 1
/// to 14 and a sample rate index of 0 to 2 passes the header checks.
pub proof fn law_written_header_read_back(data: Seq<u8>, i: nat, m: MpegFrameInfo, position: usize)
    requires
        puts_all_valid(header_fields(m)),
        i + 4 <= data.len(),
        bytes_bits(data).subrange(8 * i as int, 8 * i as int + 32) == puts_bits(header_fields(m)),
    ensures
        header_of(be_u32(data, i as int) as u32) == written_header(m),
        m.version == 3 && m.layer == 1 && 1 <= m.bitrate_index <= 14 && 0 <= m.samplerate_index
            <= 2 ==> header_error(header_of(be_u32(data, i as int) as u32), position) is None,
{
    let f = header_fields(m);
    lemma_puts_valid_prefix_bound(f);
    assert forall|k: int| 0 <= k < 13 implies 0 <= #[trigger] f[k].1 <= 16 && f[k].0 >> (
    f[k].1 as u32) == 0 by {
        assert(put_is_valid(f[k].0, f[k].1));
    }
    lemma_puts_prefix_value(f, 13);
    assert(f.take(13) =~= f);
    lemma2_to64();
    reveal_with_fuel(puts_prefix_value, 14);
    lemma_be_u32_bits(data, i as int);
    let w = be_u32(data, i as int);
    let v = m.version as u32;
    let l = m.layer as u32;
    let pb: u32 = if m.crc == 0 { 1 } else { 0 };
    let b = m.bitrate_index as u32;
    let s = rem3(m.samplerate_index) as u32;
    let pad = m.padding as u32;
    let ext = m.ext as u32;
    let mo = m.mode as u32;
    let me = m.mode_ext as u32;
    let c = m.copyright as u32;
    let o = m.original as u32;
    let e = m.emph as u32;
    assert(f[1].0 == v && f[2].0 == l && f[3].0 == pb && f[4].0 == b && f[5].0 == s);
    assert(v >> 2u32 == 0 && l >> 2u32 == 0 && pb >> 1u32 == 0 && b >> 4u32 == 0 && s >> 2u32 == 0);
    assert(pad >> 1u32 == 0 && ext >> 1u32 == 0 && mo >> 2u32 == 0 && me >> 2u32 == 0);
    assert(c >> 1u32 == 0 && o >> 1u32 == 0 && e >> 2u32 == 0);
    assert(v < 4 && l < 4 && pb < 2 && b < 16 && s < 4 && pad < 2 && ext < 2 && mo < 4 && me < 4
        && c < 2 && o < 2 && e < 4) by (bit_vector)
        requires
            v >> 2u32 == 0 && l >> 2u32 == 0 && pb >> 1u32 == 0 && b >> 4u32 == 0 && s >> 2u32 == 0,
            pad >> 1u32 == 0 && ext >> 1u32 == 0 && mo >> 2u32 == 0 && me >> 2u32 == 0,
            c >> 1u32 == 0 && o >> 1u32 == 0 && e >> 2u32 == 0,
    ;
    assert(w == ((((((((((((0x7FF * 4 + v) * 4 + l) * 2 + pb) * 16 + b) * 4 + s) * 2 + pad) * 2
        + ext) * 4 + mo) * 4 + me) * 2 + c) * 2 + o) * 4 + e));
    let wu = w as u32;
    lemma_header_word_fields(wu, v, l, pb, b, s, pad, ext, mo, me, c, o, e);
}

/// Total width of the first `n` writes of a list.
pub open spec fn puts_width(p: Seq<(u32, i32)>, n: int) -> int
    decreases n,
{
    if n <= 0 {
        0
    } else {
        puts_width(p, n - 1) + p[n - 1].1
    }
}

proof fn lemma_puts_len(p: Seq<(u32, i32)>, n: int)
    requires
        0 <= n <= p.len(),
        forall|i: int| 0 <= i < n ==> 0 <= #[trigger] p[i].1,
    ensures
        puts_bits(p.take(n)).len() == puts_width(p, n),
    decreases n,
{
    if n == 0 {
        assert(p.take(0) =~= Seq::<(u32, i32)>::empty());
    } else {
        lemma_puts_len(p, n - 1);
        let last = seq![p[n - 1]];
        assert(p.take(n) =~= p.take(n - 1) + last);
        lemma_puts_bits_append(p.take(n - 1), last);
        assert(last.drop_first() =~= Seq::<(u32, i32)>::empty());
        assert(puts_bits(last.drop_first()) =~= Seq::<bool>::empty());
    }
}

/// The bits of the bytes `a..b` are the bits `8a..8b` of the whole.
proof fn lemma_bytes_bits_subrange(data: Seq<u8>, a: int, b: int)
    requires
        0 <= a <= b <= data.len(),
    ensures
        bytes_bits(data.subrange(a, b)) == bytes_bits(data).subrange(8 * a, 8 * b),
{
    let sub = data.subrange(a, b);
    lemma_bytes_bits_len(data);
    lemma_bytes_bits_len(sub);
    assert forall|k: int| 0 <= k < 8 * (b - a) implies bytes_bits(sub)[k] == bytes_bits(data).subrange(
        8 * a,
        8 * b,
    )[k] by {
        lemma_bytes_bits_index(sub, k);
        lemma_bytes_bits_index(data, 8 * a + k);
        assert((8 * a + k) / 8 == a + k / 8 && (8 * a + k) % 8 == k % 8) by (nonlinear_arith)
            requires
                0 <= k,
        ;
        assert(k / 8 < b - a) by (nonlinear_arith)
            requires
                0 <= k < 8 * (b - a),
        ;
    }
    assert(bytes_bits(sub) =~= bytes_bits(data).subrange(8 * a, 8 * b));
}

/// The granule fields a mono MPEG-1 frame's side information carries.
pub open spec fn written_granule(config: ShineGlobalConfig, gr: int) -> GranuleSummary {
    let tt = config.side_info.gr@[gr].ch@[0].tt;
    GranuleSummary {
        part2_3_length: tt.part2_3_length as u16,
        big_values: tt.big_values as u16,
        global_gain: tt.global_gain as u16,
    }
}

/// The analysis of a mono MPEG-1 frame reads back the part 2 and 3
/// length, big values count and global gain of both granules that the
/// formatter wrote in its side information.
pub proof fn law_analysis_reads_back_mono_granules(frame: Seq<u8>, config: ShineGlobalConfig)
    requires
        config.mpeg.version == 3,
        config.mpeg.mode == 3,
        config.wave.channels == 1,
        config.mpeg.granules_per_frame == 2,
        puts_all_valid(side_info_fields(config)),
        frame.len() >= 32,
        bytes_bits(frame).subrange(0, 168) == puts_bits(side_info_fields(config)),
    ensures
        analysis_of(frame) matches Findings::Analyzed(_, g) && g.len() == 2 && g[0]
            == written_granule(config, 0) && g[1] == written_granule(config, 1),
{
    let m = config.mpeg;
    let si = config.side_info;
    let f = side_info_fields(config);
    let hdr = header_fields(m);
    let start = side_start_fields(m.version, 1, si.private_bits);
    let scfsi = scfsi_fields(si, 1);
    let grs = granules_fields(si, 2, 1, 3);
    let rest = start + scfsi + grs;
    assert(f =~= hdr + rest);
    let g0 = si.gr@[0].ch@[0].tt;
    let g1 = si.gr@[1].ch@[0].tt;
    assert(scfsi_fields(si, 0) =~= Seq::<(u32, i32)>::empty());
    assert(granules_fields(si, 0, 1, 3) =~= Seq::<(u32, i32)>::empty());
    assert(granule_channels_fields(si.gr@[0], 0, 3) =~= Seq::<(u32, i32)>::empty());
    assert(granule_channels_fields(si.gr@[1], 0, 3) =~= Seq::<(u32, i32)>::empty());
    assert(granule_channels_fields(si.gr@[0], 1, 3) =~= granule_info_fields(g0, 3));
    assert(granule_channels_fields(si.gr@[1], 1, 3) =~= granule_info_fields(g1, 3));
    assert(granules_fields(si, 1, 1, 3) =~= granule_info_fields(g0, 3));
    assert(grs =~= granule_info_fields(g0, 3) + granule_info_fields(g1, 3));
    assert(scfsi.len() == 4);
    assert(start.len() == 2);
    assert(rest.len() == 32);
    // the whole list is accepted, hence each part
    lemma_puts_valid_prefix_bound(f);
    assert forall|k: int| 0 <= k < 32 implies 0 <= #[trigger] rest[k].1 <= 16 && rest[k].0 >> (
    rest[k].1 as u32) == 0 by {
        assert(f[13 + k] == rest[k]);
        assert(put_is_valid(f[13 + k].0, f[13 + k].1));
    }
    assert forall|k: int| 0 <= k < 13 implies put_is_valid(#[trigger] hdr[k].0, hdr[k].1) by {
        assert(f[k] == hdr[k]);
    }
    // the header
    lemma_puts_len(hdr, 13);
    assert(hdr.take(13) =~= hdr);
    reveal_with_fuel(puts_width, 33);
    assert(puts_bits(hdr).len() == 32);
    lemma_puts_bits_append(hdr, rest);
    lemma_bytes_bits_len(frame);
    assert(puts_all_valid(hdr)) by {
        lemma_header_fields_valid(hdr);
    }
    assert(bytes_bits(frame).subrange(0, 32) =~= puts_bits(hdr)) by {
        assert forall|k: int| 0 <= k < 32 implies bytes_bits(frame).subrange(0, 32)[k] == puts_bits(
            hdr,
        )[k] by {
            assert(bytes_bits(frame).subrange(0, 168)[k] == puts_bits(f)[k]);
        }
    }
    law_written_header_read_back(frame, 0, m, 0);
    let w = be_u32(frame, 0) as u32;
    assert(header_of(w).sync_word == 0xFFF);
    assert(header_of(w).channel_mode == 3);
    assert(w >> 21u32 == 0x7FF && (w >> 6u32) & 0x3u32 == 3) by (bit_vector)
        requires
            ((w >> 20u32) & 0xFFFu32) as u16 == 0xFFFu16,
            ((w >> 6u32) & 0x3u32) as u8 == 3u8,
    ;
    // the side information
    lemma_puts_len(rest, 32);
    assert(rest.take(32) =~= rest);
    assert(puts_bits(rest).len() == 136);
    let side = frame.subrange(4, 21);
    lemma_bytes_bits_subrange(frame, 4, 21);
    lemma_bytes_bits_len(side);
    assert(bytes_bits(side) =~= puts_bits(rest)) by {
        assert forall|k: int| 0 <= k < 136 implies bytes_bits(side)[k] == puts_bits(rest)[k] by {
            assert(bytes_bits(frame).subrange(0, 168)[32 + k] == puts_bits(f)[32 + k]);
        }
    }
    assert(bytes_bits(side).subrange(0, 136) =~= puts_bits(rest));
    assert(puts_all_valid(rest)) by {
        lemma_all_valid_suffix(f, 13);
        assert(f.skip(13) =~= rest);
    }
    lemma_puts_len(rest, 6);
    lemma_puts_len(rest, 7);
    lemma_puts_len(rest, 8);
    lemma_puts_len(rest, 19);
    lemma_puts_len(rest, 20);
    lemma_puts_len(rest, 21);
    law_written_fields_read_back(side, 0, rest, 6);
    law_written_fields_read_back(side, 0, rest, 7);
    law_written_fields_read_back(side, 0, rest, 8);
    law_written_fields_read_back(side, 0, rest, 19);
    law_written_fields_read_back(side, 0, rest, 20);
    law_written_fields_read_back(side, 0, rest, 21);
    assert(granule_of(side, 0) == written_granule(config, 0));
    assert(granule_of(side, 1) == written_granule(config, 1));
}

proof fn lemma_header_fields_valid(hdr: Seq<(u32, i32)>)
    requires
        hdr.len() == 13,
        forall|k: int| 0 <= k < 13 ==> put_is_valid(#[trigger] hdr[k].0, hdr[k].1),
    ensures
        puts_all_valid(hdr),
{
    lemma_all_valid_from(hdr, 0);
    assert(hdr.skip(0) =~= hdr);
}

proof fn lemma_all_valid_from(p: Seq<(u32, i32)>, i: int)
    requires
        0 <= i <= p.len(),
        forall|k: int| i <= k < p.len() ==> put_is_valid(#[trigger] p[k].0, p[k].1),
    ensures
        puts_all_valid(p.skip(i)),
    decreases p.len() - i,
{
    if i < p.len() {
        lemma_all_valid_from(p, i + 1);
        assert(p.skip(i).drop_first() =~= p.skip(i + 1));
        assert(p.skip(i)[0] == p[i]);
    } else {
        assert(p.skip(i) =~= Seq::<(u32, i32)>::empty());
    }
}

proof fn lemma_all_valid_suffix(p: Seq<(u32, i32)>, i: int)
    requires
        0 <= i <= p.len(),
        puts_all_valid(p),
    ensures
        puts_all_valid(p.skip(i)),
{
    lemma_puts_valid_prefix_bound(p);
    lemma_all_valid_from(p, i);
}

/// The total width of a list of writes.
pub open spec fn widths(ws: Seq<(u32, i32)>) -> int
    decreases ws.len(),
{
    if ws.len() == 0 {
        0
    } else {
        ws[0].1 + widths(ws.drop_first())
    }
}

/// `w[i + 1]` is the writer `w[i]` after the accepted write `ws[i]`.
pub open spec fn write_chain(w: Seq<BitstreamWriter>, ws: Seq<(u32, i32)>) -> bool {
    &&& w.len() == ws.len() + 1
    &&& forall|i: int| 0 <= i < ws.len() ==> write_step(#[trigger] w[i], w[i + 1], ws[i].0, ws[i].1)
}

proof fn lemma_chain_tail(w: Seq<BitstreamWriter>, ws: Seq<(u32, i32)>)
    requires
        write_chain(w, ws),
        ws.len() > 0,
    ensures
        write_chain(w.drop_first(), ws.drop_first()),
{
    assert forall|i: int| 0 <= i < ws.drop_first().len() implies write_step(
        #[trigger] w.drop_first()[i],
        w.drop_first()[i + 1],
        ws.drop_first()[i].0,
        ws.drop_first()[i].1,
    ) by {
        assert(write_step(w[i + 1], w[i + 2], ws[i + 1].0, ws[i + 1].1));
    }
}

/// After a sequence of accepted writes, the stream has grown by exactly the
/// bits written: its bit count is the old one plus the sum of the widths.
pub proof fn law_bit_count_adds_widths(w: Seq<BitstreamWriter>, ws: Seq<(u32, i32)>)
    requires
        write_chain(w, ws),
    ensures
        w.last().stream() == w[0].stream() + puts_bits(ws),
        w.last().stream().len() == w[0].stream().len() + widths(ws),
    decreases ws.len(),
{
    if ws.len() == 0 {
        assert(puts_bits(ws) =~= Seq::<bool>::empty());
        assert(w[0].stream() + puts_bits(ws) =~= w[0].stream());
    } else {
        assert(write_step(w[0], w[1], ws[0].0, ws[0].1));
        lemma_chain_tail(w, ws);
        law_bit_count_adds_widths(w.drop_first(), ws.drop_first());
        assert(w.drop_first().last() == w.last());
        assert(puts_bits(ws) == value_bits(ws[0].0, ws[0].1 as nat) + puts_bits(ws.drop_first()));
        assert(w.last().stream() =~= w[0].stream() + puts_bits(ws));
    }
}

proof fn lemma_chain_positions(w: Seq<BitstreamWriter>, ws: Seq<(u32, i32)>)
    requires
        write_chain(w, ws),
        w[0].wf(),
    ensures
        w.last().wf(),
        w.last().data@.subrange(0, w[0].data_position as int) == w[0].data@.subrange(
            0,
            w[0].data_position as int,
        ),
        w[0].data_position <= w.last().data_position,
        (w.last().data_position - w[0].data_position) % 4 == 0,
    decreases ws.len(),
{
    if ws.len() > 0 {
        assert(write_step(w[0], w[1], ws[0].0, ws[0].1));
        lemma_chain_tail(w, ws);
        lemma_chain_positions(w.drop_first(), ws.drop_first());
        assert(w.drop_first().last() == w.last());
        assert(w.drop_first()[0] == w[1]);
        lemma_prefix_kept(
            w[1].data@,
            w.last().data@,
            w[0].data@,
            w[0].data_position as int,
            w[1].data_position as int,
        );
    }
}

/// Writes store only whole cache words and never touch stored bytes:
/// after a sequence of accepted writes the bytes stored before are
/// unchanged, a whole number of 32-bit words has been added, exactly as
/// many as the written bits filled, and the cache holds the rest.
pub proof fn law_only_whole_words_stored(w: Seq<BitstreamWriter>, ws: Seq<(u32, i32)>)
    requires
        write_chain(w, ws),
        w[0].wf(),
    ensures
        w.last().data@.subrange(0, w[0].data_position as int) == w[0].data@.subrange(
            0,
            w[0].data_position as int,
        ),
        w[0].data_position <= w.last().data_position,
        (w.last().data_position - w[0].data_position) % 4 == 0,
        w.last().data_position == w[0].data_position + 4 * ((32 - w[0].cache_bits + widths(ws)) / 32),
        w.last().cache_bits == 32 - (32 - w[0].cache_bits + widths(ws)) % 32,
{
    law_bit_count_adds_widths(w, ws);
    lemma_chain_positions(w, ws);
    lemma_whole_words_stored(w[0], w.last());
}

/// The bit allowance of a granule never falls as its scaled perceptual
/// entropy grows, for a reservoir that is not negative.
pub proof fn law_max_bits_monotone_in_entropy(pe1: i32, pe2: i32, c: ShineGlobalConfig)
    requires
        pe1 <= pe2,
        c.resv_size >= 0,
    ensures
        max_reservoir_bits(pe1, c) <= max_reservoir_bits(pe2, c),
{
    let frac = div_trunc(c.resv_size * 6, 10);
    assert(frac >= 0) by (nonlinear_arith)
        requires
            frac == div_trunc(c.resv_size * 6, 10),
            c.resv_size >= 0,
    {
    }
}

proof fn lemma_valid_writes(p: Seq<(u32, i32)>)
    requires
        forall|i: int| 0 <= i < p.len() ==> put_is_valid(#[trigger] p[i].0, p[i].1),
    ensures
        puts_valid_prefix(p) == p.len(),
        puts_bits(p).len() == widths(p),
    decreases p.len(),
{
    if p.len() > 0 {
        assert(put_is_valid(p[0].0, p[0].1));
        assert forall|i: int| 0 <= i < p.drop_first().len() implies put_is_valid(
            #[trigger] p.drop_first()[i].0,
            p.drop_first()[i].1,
        ) by {
            assert(put_is_valid(p[i + 1].0, p[i + 1].1));
        }
        lemma_valid_writes(p.drop_first());
    }
}

/// A list of writes that are each accepted is accepted as a whole: writing
/// it succeeds and puts all of its bits in the stream, as many as the sum
/// of the widths.
pub proof fn law_valid_writes_all_accepted(p: Seq<(u32, i32)>)
    requires
        forall|i: int| 0 <= i < p.len() ==> put_is_valid(#[trigger] p[i].0, p[i].1),
    ensures
        puts_all_valid(p),
        puts_result(p) == Ok::<(), EncodingError>(()),
        puts_written(p) == puts_bits(p),
        puts_written(p).len() == widths(p),
{
    lemma_valid_writes(p);
    assert(p.take(p.len() as int) =~= p);
}

/// From a writer with an empty cache, a sequence of accepted writes stores
/// exactly the whole 32-bit words of the bits written, after the bytes
/// stored before; the rest of the bits wait in the cache.
pub proof fn law_stored_bytes_are_whole_words(w: Seq<BitstreamWriter>, ws: Seq<(u32, i32)>)
    requires
        write_chain(w, ws),
        w[0].wf(),
        w[0].cache_bits == 32,
    ensures
        w.last().data_position == w[0].data_position + 4 * (widths(ws) / 32),
        bytes_bits(w.last().data@.subrange(0, w.last().data_position as int)) == bytes_bits(
            w[0].data@.subrange(0, w[0].data_position as int),
        ) + puts_bits(ws).take(32 * (widths(ws) / 32)),
{
    law_bit_count_adds_widths(w, ws);
    law_only_whole_words_stored(w, ws);
    lemma_chain_positions(w, ws);
    reveal(BitstreamWriter::stream);
    let a = w[0];
    let b = w.last();
    let sa = bytes_bits(a.data@.subrange(0, a.data_position as int));
    let sb = bytes_bits(b.data@.subrange(0, b.data_position as int));
    lemma_bytes_bits_len(a.data@.subrange(0, a.data_position as int));
    lemma_bytes_bits_len(b.data@.subrange(0, b.data_position as int));
    assert(word_prefix(a.cache, 0) =~= Seq::<bool>::empty());
    assert(a.stream() =~= sa);
    let q = widths(ws) / 32;
    assert(b.stream() == sb + word_prefix(b.cache, (32 - b.cache_bits) as nat));
    assert(sb =~= b.stream().take(sb.len() as int));
    assert(sb.len() == sa.len() + 32 * q);
    assert(b.stream() == sa + puts_bits(ws));
    assert((sa + puts_bits(ws)).take(sa.len() + 32 * q) =~= sa + puts_bits(ws).take(32 * q));
}

/// The magnitude of a value, as a pair's code word index uses it.
pub open spec fn magnitude(x: i32) -> int {
    if x < 0 {
        -x
    } else {
        x as int
    }
}

/// A pair coded with a table without escapes is decoded by reading the
/// table's code word for the magnitudes `(|x|, |y|)`, then the sign bit of
/// `x` (set for a negative value) if `x` is not zero, then that of `y` if
/// `y` is not zero; nothing else follows.
pub proof fn law_pair_decodes_with_x_sign_first(h: HuffCodeTab, table_select: int, x: i32, y: i32)
    requires
        h.hb is Some,
        h.hlen is Some,
        0 <= table_select <= 15,
        x != i32::MIN,
        y != i32::MIN,
    ensures
        ({
            let bits = pair_bits(h, table_select, x, y);
            let idx = magnitude(x) * h.ylen + magnitude(y);
            let len = h.hlen.unwrap()@[idx] as int;
            let sx: int = if x != 0 { 1 } else { 0 };
            let sy: int = if y != 0 { 1 } else { 0 };
            &&& bits.len() == len + sx + sy
            &&& bits.take(len) == value_bits(h.hb.unwrap()@[idx] as u32, len as nat)
            &&& x != 0 ==> bits[len] == (x < 0)
            &&& y != 0 ==> bits[len + sx] == (y < 0)
        }),
{
    let bits = pair_bits(h, table_select, x, y);
    let idx = magnitude(x) * h.ylen + magnitude(y);
    let len = h.hlen.unwrap()@[idx] as int;
    let code = value_bits(h.hb.unwrap()@[idx] as u32, len as nat);
    assert(code.len() == len);
    assert(bits.take(len) =~= code);
}

/// A pair coded with an escape table is decoded by reading the code word
/// for the magnitudes capped at 15, then for `x` its excess over 15 in
/// `linbits` bits (when its magnitude is 15 or more) and its sign bit (when
/// it is not zero), then the same for `y`.
pub proof fn law_escape_pair_decodes_x_then_y(h: HuffCodeTab, table_select: int, x: i32, y: i32)
    requires
        h.hb is Some,
        h.hlen is Some,
        table_select > 15,
        x != i32::MIN,
        y != i32::MIN,
    ensures
        ({
            let bits = pair_bits(h, table_select, x, y);
            let cx = if magnitude(x) > 14 { 15 } else { magnitude(x) };
            let cy = if magnitude(y) > 14 { 15 } else { magnitude(y) };
            let idx = cx * h.ylen + cy;
            let len = h.hlen.unwrap()@[idx] as int;
            let lb = h.linbits as int;
            let ex: int = if magnitude(x) > 14 { lb } else { 0 };
            let ey: int = if magnitude(y) > 14 { lb } else { 0 };
            let sx: int = if x != 0 { 1 } else { 0 };
            let sy: int = if y != 0 { 1 } else { 0 };
            &&& bits.len() == len + ex + sx + ey + sy
            &&& bits.take(len) == value_bits(h.hb.unwrap()@[idx] as u32, len as nat)
            &&& magnitude(x) > 14 ==> bits.subrange(len, len + lb) == value_bits(
                (magnitude(x) - 15) as u32,
                lb as nat,
            )
            &&& x != 0 ==> bits[len + ex] == (x < 0)
            &&& magnitude(y) > 14 ==> bits.subrange(len + ex + sx, len + ex + sx + lb)
                == value_bits((magnitude(y) - 15) as u32, lb as nat)
            &&& y != 0 ==> bits[len + ex + sx + ey] == (y < 0)
        }),
{
    let bits = pair_bits(h, table_select, x, y);
    let cx = if magnitude(x) > 14 { 15 } else { magnitude(x) };
    let cy = if magnitude(y) > 14 { 15 } else { magnitude(y) };
    let idx = cx * h.ylen + cy;
    let len = h.hlen.unwrap()@[idx] as int;
    let lb = h.linbits as int;
    let code = value_bits(h.hb.unwrap()@[idx] as u32, len as nat);
    let ex: int = if magnitude(x) > 14 { lb } else { 0 };
    let sx: int = if x != 0 { 1 } else { 0 };
    assert(code.len() == len);
    assert(bits.take(len) =~= code);
    if magnitude(x) > 14 {
        let vx = value_bits((magnitude(x) - 15) as u32, lb as nat);
        assert(bits.subrange(len, len + lb) =~= vx);
    }
    if magnitude(y) > 14 {
        let vy = value_bits((magnitude(y) - 15) as u32, lb as nat);
        assert(bits.subrange(len + ex + sx, len + ex + sx + lb) =~= vy);
    }
}

/// The bit allowance of a granule releases the reservoir's content above
/// 80% of its maximum: with a reservoir that is not negative and an
/// entropy that asks for at most 100 bits over the channel's mean, the
/// allowance is the mean plus whatever the reservoir holds beyond 80% of
/// its maximum, never more than 4095 bits.
pub proof fn law_max_bits_release_reservoir_excess(scaled_pe: i32, c: ShineGlobalConfig)
    requires
        c.wave.channels > 0,
        c.mean_bits >= 0,
        c.resv_size >= 0,
        c.resv_max > 0,
        c.resv_max * 8 <= i32::MAX,
        scaled_pe - c.mean_bits / c.wave.channels <= 100,
    ensures
        ({
            let mean = c.mean_bits / c.wave.channels;
            let excess = c.resv_size - (c.resv_max * 8) / 10;
            let allowance = if excess > 0 { mean + excess } else { mean };
            max_reservoir_bits(scaled_pe, c) == if allowance > 4095 { 4095 } else { allowance }
        }),
{
    let rm = c.resv_max;
    assert((rm << 3u32) == rm * 8) by (bit_vector)
        requires
            0 < rm,
            rm * 8 <= 0x7fff_ffff,
    ;
    let mean = c.mean_bits / c.wave.channels;
    assert(div_trunc(c.mean_bits as int, c.wave.channels as int) == mean);
    assert(div_trunc((rm * 8) as int, 10) == (rm * 8) / 10);
}

/// Beyond 80% of its maximum, every further bit in the reservoir raises a
/// granule's bit allowance by one bit, up to 4095.
pub proof fn law_max_bits_follow_reservoir_fill(scaled_pe: i32, c: ShineGlobalConfig)
    requires
        c.wave.channels > 0,
        c.mean_bits >= 0,
        c.resv_size >= 0,
        c.resv_size < i32::MAX,
        c.resv_max > 0,
        c.resv_max * 8 <= i32::MAX,
        scaled_pe - c.mean_bits / c.wave.channels <= 100,
        c.resv_size >= (c.resv_max * 8) / 10,
    ensures
        ({
            let d = ShineGlobalConfig { resv_size: (c.resv_size + 1) as i32, ..c };
            max_reservoir_bits(scaled_pe, d) == if max_reservoir_bits(scaled_pe, c) >= 4095 {
                4095
            } else {
                max_reservoir_bits(scaled_pe, c) + 1
            }
        }),
{
    let d = ShineGlobalConfig { resv_size: (c.resv_size + 1) as i32, ..c };
    law_max_bits_release_reservoir_excess(scaled_pe, c);
    law_max_bits_release_reservoir_excess(scaled_pe, d);
}

/// The size of an ID3v2 tag is a syncsafe integer: a tag whose bytes 6 to 9
/// carry the seven-bit digits of a size `n` below 2^28, most significant
/// first, is skipped by moving to `10 + n`, just past the tag.
pub proof fn law_id3_tag_skipped_by_syncsafe_size(b: Seq<u8>, n: int)
    requires
        b.len() >= 10,
        b[0] == 73 && b[1] == 68 && b[2] == 51,
        0 <= n < 268435456,
        b[6] == n / 2097152,
        b[7] == (n / 16384) % 128,
        b[8] == (n / 128) % 128,
        b[9] == n % 128,
    ensures
        id3_skip(b) == 10 + n,
{
    let q8 = n / 128;
    let q7 = n / 16384;
    let q6 = n / 2097152;
    vstd::arithmetic::div_mod::lemma_div_denominator(n, 128, 128);
    vstd::arithmetic::div_mod::lemma_div_denominator(n, 16384, 128);
    assert(q8 / 128 == q7);
    assert(q7 / 128 == q6);
    vstd::arithmetic::div_mod::lemma_fundamental_div_mod(n, 128);
    vstd::arithmetic::div_mod::lemma_fundamental_div_mod(q8, 128);
    vstd::arithmetic::div_mod::lemma_fundamental_div_mod(q7, 128);
    vstd::arithmetic::div_mod::lemma_fundamental_div_mod(n, 2097152);
    vstd::arithmetic::div_mod::lemma_mod_pos_bound(n, 128);
    vstd::arithmetic::div_mod::lemma_mod_pos_bound(q8, 128);
    vstd::arithmetic::div_mod::lemma_mod_pos_bound(q7, 128);
    vstd::arithmetic::div_mod::lemma_mod_pos_bound(n, 2097152);
    assert(0 <= q6 < 128);
    vstd::arithmetic::div_mod::lemma_small_mod(q6 as nat, 128);
    vstd::arithmetic::div_mod::lemma_small_mod((q7 % 128) as nat, 128);
    vstd::arithmetic::div_mod::lemma_small_mod((q8 % 128) as nat, 128);
    vstd::arithmetic::div_mod::lemma_small_mod((n % 128) as nat, 128);
    assert(b[6] % 128 == q6);
    assert(b[7] % 128 == q7 % 128);
    assert(b[8] % 128 == q8 % 128);
    assert(b[9] % 128 == n % 128);
    assert(n == q6 * 2097152 + (q7 % 128) * 16384 + (q8 % 128) * 128 + n % 128);
}

/// The header fields of the big-endian word of four bytes, read from the
/// bytes themselves.
proof fn lemma_header_word_bytes(w: u32, b0: u32, b1: u32, b2: u32, b3: u32)
    by (bit_vector)
    requires
        b0 < 256 && b1 < 256 && b2 < 256 && b3 < 256,
        w == b0 * 16777216 + b1 * 65536 + b2 * 256 + b3,
    ensures
        w >> 21u32 == b0 * 8 + b1 / 32,
        (w >> 20u32) & 0xFFFu32 == b0 * 16 + b1 / 16,
        (w >> 19u32) & 0x3u32 == (b1 / 8) % 4,
        (w >> 19u32) & 0x1u32 == (b1 / 8) % 2,
        (w >> 17u32) & 0x3u32 == (b1 / 2) % 4,
        (w >> 12u32) & 0xFu32 == b2 / 16,
        (w >> 10u32) & 0x3u32 == (b2 / 4) % 4,
        (w >> 9u32) & 0x1u32 == (b2 / 2) % 2,
        (w >> 6u32) & 0x3u32 == b3 / 64,
        (w >> 16u32) & 0x1u32 == b1 % 2,
        (w >> 8u32) & 0x1u32 == b2 % 2,
        (w >> 4u32) & 0x3u32 == (b3 / 16) % 4,
        (w >> 3u32) & 0x1u32 == (b3 / 8) % 2,
        (w >> 2u32) & 0x1u32 == (b3 / 4) % 2,
        w & 0x3u32 == b3 % 4,
{
}

/// The header parser reads each field of a frame header from its four
/// bytes: twelve sync bits from the first byte and the high half of the
/// second, then in the second byte the version bit (bit 3), the layer
/// (bits 2 and 1) and the protection bit (bit 0); in the third byte the
/// bitrate index (high half), the sample rate index (bits 3 and 2), the
/// padding bit (bit 1) and the private bit (bit 0); in the fourth byte the
/// channel mode (bits 7 and 6), the mode extension (bits 5 and 4), the
/// copyright, original and emphasis bits.
pub proof fn law_header_fields_from_bytes(b: Seq<u8>, i: int)
    requires
        0 <= i,
        i + 4 <= b.len(),
    ensures
        ({
            let h = header_of(be_u32(b, i) as u32);
            &&& h.sync_word == b[i] * 16 + b[i + 1] / 16
            &&& h.mpeg_version == (b[i + 1] / 8) % 2
            &&& h.layer == (b[i + 1] / 2) % 4
            &&& h.protection_bit == (b[i + 1] % 2 == 1)
            &&& h.bitrate_index == b[i + 2] / 16
            &&& h.sample_rate_index == (b[i + 2] / 4) % 4
            &&& h.padding_bit == ((b[i + 2] / 2) % 2 == 1)
            &&& h.private_bit == (b[i + 2] % 2 == 1)
            &&& h.channel_mode == b[i + 3] / 64
            &&& h.mode_extension == (b[i + 3] / 16) % 4
            &&& h.copyright == ((b[i + 3] / 8) % 2 == 1)
            &&& h.original == ((b[i + 3] / 4) % 2 == 1)
            &&& h.emphasis == b[i + 3] % 4
        }),
{
    let w = be_u32(b, i) as u32;
    lemma_header_word_bytes(w, b[i] as u32, b[i + 1] as u32, b[i + 2] as u32, b[i + 3] as u32);
}

/// The header an analysed frame reports is read from its first four
/// bytes: the version from bits 4 and 3 of the second byte, the layer from
/// its bits 2 and 1, the bitrate index from the high half of the third
/// byte, the sample rate index from its bits 3 and 2, the padding from its
/// bit 1, and the mode from the top two bits of the fourth byte.
pub proof fn law_analysed_header_fields_from_bytes(f: Seq<u8>)
    ensures
        match analysis_of(f) {
            Findings::Analyzed(h, _) => header_summary_from_bytes(h, f),
            Findings::SideInfoTooShort(h) => header_summary_from_bytes(h, f),
            Findings::InvalidSync(s) => f.len() >= 32 && s == f[0] * 8 + f[1] / 32 && s != 0x7FF,
            Findings::TooSmall => f.len() < 32,
        },
{
    if f.len() >= 32 {
        let w = be_u32(f, 0) as u32;
        lemma_header_word_bytes(w, f[0] as u32, f[1] as u32, f[2] as u32, f[3] as u32);
        if w >> 21u32 == 0x7FF {
            assert(f[0] == 255);
        }
    }
}

/// `h` holds the header fields of the first four bytes of `f`.
pub open spec fn header_summary_from_bytes(h: HeaderSummary, f: Seq<u8>) -> bool {
    &&& f.len() >= 32
    &&& f[0] == 255 && f[1] / 32 == 7
    &&& h.mpeg_version == (f[1] / 8) % 4
    &&& h.layer == (f[1] / 2) % 4
    &&& h.bitrate_index == f[2] / 16
    &&& h.sample_rate_index == (f[2] / 4) % 4
    &&& h.padding == (f[2] / 2) % 2
    &&& h.mode == f[3] / 64
}

/// Every header candidate found in a range is at an offset of the scanned
/// part, starts with twelve sync bits of at least `0xFFE`, and carries the
/// fields of the four bytes there: the version from bit 3 of the second
/// byte, the layer from its bits 2 and 1, the full four-bit bitrate index
/// from the high half of the third byte, the sample rate index from its
/// bits 3 and 2, and the channel mode from the top two bits of the fourth.
pub proof fn law_header_candidates_from_bytes(b: Seq<u8>, start: int, n: int)
    requires
        0 <= start,
        0 <= n,
        n + 4 <= b.len(),
        start + b.len() <= u64::MAX,
    ensures
        forall|j: int| 0 <= j < candidates_before(b, start, n).len() ==> candidate_from_bytes(
            #[trigger] candidates_before(b, start, n)[j],
            b,
            start,
            n,
        ),
    decreases n,
{
    if n > 0 {
        law_header_candidates_from_bytes(b, start, n - 1);
        let prev = candidates_before(b, start, n - 1);
        let i = n - 1;
        let w = be_u32(b, i) as u32;
        lemma_header_word_bytes(w, b[i] as u32, b[i + 1] as u32, b[i + 2] as u32, b[i + 3] as u32);
        assert forall|j: int| 0 <= j < candidates_before(b, start, n).len() implies candidate_from_bytes(
            #[trigger] candidates_before(b, start, n)[j],
            b,
            start,
            n,
        ) by {
            if j < prev.len() {
                assert(candidates_before(b, start, n)[j] == prev[j]);
                assert(candidate_from_bytes(prev[j], b, start, n - 1));
            }
        }
    }
}

/// `c` holds the header fields of the four bytes at its offset, one of the
/// first `n` of `b`, which starts at `start` in the file.
pub open spec fn candidate_from_bytes(c: HeaderCandidate, b: Seq<u8>, start: int, n: int) -> bool {
    let i = c.position - start;
    &&& 0 <= i < n
    &&& c.sync_word == b[i] * 16 + b[i + 1] / 16
    &&& c.sync_word >= 0xFFE
    &&& c.mpeg_version == (b[i + 1] / 8) % 2
    &&& c.layer == (b[i + 1] / 2) % 4
    &&& c.bitrate_index == b[i + 2] / 16
    &&& c.sample_rate_index == (b[i + 2] / 4) % 4
    &&& c.channel_mode == b[i + 3] / 64
}

/// A count1 quadruple `(v, w, x, y)` of values -1, 0 or 1 is decoded by
/// reading the table's code word at index `|v| + 2|w| + 4|x| + 8|y|`, then
/// the sign bits of the non-zero values among `v`, `w`, `x` and `y`, in
/// that order.
pub proof fn law_quad_decodes_signs_in_order(h: HuffCodeTab, v: i32, w: i32, x: i32, y: i32)
    requires
        h.hb is Some,
        h.hlen is Some,
        -1 <= v <= 1 && -1 <= w <= 1 && -1 <= x <= 1 && -1 <= y <= 1,
    ensures
        ({
            let bits = quad_bits(h, v, w, x, y);
            let idx = magnitude(v) + 2 * magnitude(w) + 4 * magnitude(x) + 8 * magnitude(y);
            let len = h.hlen.unwrap()@[idx] as int;
            let sv: int = if v != 0 { 1 } else { 0 };
            let sw: int = if w != 0 { 1 } else { 0 };
            let sx: int = if x != 0 { 1 } else { 0 };
            let sy: int = if y != 0 { 1 } else { 0 };
            &&& bits.len() == len + sv + sw + sx + sy
            &&& bits.take(len) == value_bits(h.hb.unwrap()@[idx] as u32, len as nat)
            &&& v != 0 ==> bits[len] == (v < 0)
            &&& w != 0 ==> bits[len + sv] == (w < 0)
            &&& x != 0 ==> bits[len + sv + sw] == (x < 0)
            &&& y != 0 ==> bits[len + sv + sw + sx] == (y < 0)
        }),
{
    let bits = quad_bits(h, v, w, x, y);
    let idx = magnitude(v) + 2 * magnitude(w) + 4 * magnitude(x) + 8 * magnitude(y);
    let len = h.hlen.unwrap()@[idx] as int;
    let code = value_bits(h.hb.unwrap()@[idx] as u32, len as nat);
    assert(code.len() == len);
    assert(bits.take(len) =~= code);
}

/// A granule's bit allowance in full: without a reservoir, the channel's
/// mean, at most 4095; with one, the mean plus the larger of the bits the
/// entropy draws from the reservoir (when it asks for more than 100 bits
/// over the mean: that excess, but at most 60% of the reservoir) and the
/// reservoir's content above 80% of its maximum, at most 4095.
pub proof fn law_max_bits_in_full(scaled_pe: i32, c: ShineGlobalConfig)
    requires
        c.wave.channels > 0,
        c.mean_bits >= 0,
        c.resv_size >= 0,
        c.resv_size * 6 <= i32::MAX,
        c.resv_max >= 0,
        c.resv_max * 8 <= i32::MAX,
    ensures
        ({
            let mean = c.mean_bits / c.wave.channels;
            let more = scaled_pe - mean;
            let drawn = if more > 100 {
                if (c.resv_size * 6) / 10 < more { (c.resv_size * 6) / 10 } else { more }
            } else {
                0
            };
            let excess = c.resv_size - (c.resv_max * 8) / 10;
            let allowance = if c.resv_max == 0 {
                mean
            } else if excess > drawn {
                mean + excess
            } else {
                mean + drawn
            };
            max_reservoir_bits(scaled_pe, c) == if allowance > 4095 { 4095 } else { allowance }
        }),
{
    let rm = c.resv_max;
    assert((rm << 3u32) == rm * 8) by (bit_vector)
        requires
            0 <= rm,
            rm * 8 <= 0x7fff_ffff,
    ;
    let mean = c.mean_bits / c.wave.channels;
    assert(div_trunc(c.mean_bits as int, c.wave.channels as int) == mean);
    assert(div_trunc((rm * 8) as int, 10) == (rm * 8) / 10);
    assert(div_trunc((c.resv_size * 6) as int, 10) == (c.resv_size * 6) / 10);
    assert((c.resv_size * 6) / 10 >= 0) by (nonlinear_arith)
        requires
            c.resv_size >= 0,
    ;
}

} // verus!
