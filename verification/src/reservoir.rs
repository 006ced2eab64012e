//! The Layer III bit reservoir: bits a granule leaves unused are saved for
//! later granules; at the end of a frame the reservoir is kept within its
//! maximum and byte aligned, and the excess becomes stuffing bits.

use vstd::prelude::*;
use crate::types::{GrInfo, ShineGlobalConfig, ShineSideInfo};

verus! {

/// `a / b` as Rust computes it: the quotient rounded toward zero.
pub open spec fn div_trunc(a: int, b: int) -> int {
    let q = (if a < 0 { -a } else { a }) / (if b < 0 { -b } else { b });
    if (a < 0) == (b < 0) {
        q
    } else {
        -q
    }
}

/// `a / b` rounded toward zero, as Rust's integer division gives it.
fn divide(a: i32, b: i32) -> (q: i32)
    requires
        b != 0,
        !(a == i32::MIN && b == -1),
    ensures
        q == div_trunc(a as int, b as int),
{
    let ua: i64 = if a < 0 { -(a as i64) } else { a as i64 };
    let ub: i64 = if b < 0 { -(b as i64) } else { b as i64 };
    let q = ua / ub;
    assert(q <= ua) by (nonlinear_arith)
        requires
            q == ua / ub,
            ua >= 0,
            ub >= 1,
    ;
    assert((a < 0) == (b < 0) ==> q <= 2147483647) by {
        if ua == 2147483648 && (a < 0) == (b < 0) {
            assert(ub >= 2);
            assert(q <= ua / 2) by (nonlinear_arith)
                requires
                    q == ua / ub,
                    ua >= 0,
                    ub >= 2,
            ;
        }
    }
    if (a < 0) == (b < 0) {
        q as i32
    } else {
        (-q) as i32
    }
}

/// The bits each channel of a granule is allotted on average.
pub open spec fn mean_bits_per_channel(config: ShineGlobalConfig) -> int {
    div_trunc(config.mean_bits as int, config.wave.channels as int)
}

/// Largest number of bits granule coding may take, given a measure of the
/// granule's perceptual entropy already scaled to bits (`scaled_pe`): the
/// channel's mean allowance, plus bits drawn from the reservoir when the
/// entropy calls for more than 100 extra bits (at most 60% of the
/// reservoir), plus the reservoir content above 80% of its maximum; never
/// more than 4095.
pub open spec fn max_reservoir_bits(scaled_pe: i32, config: ShineGlobalConfig) -> int {
    let mean = mean_bits_per_channel(config);
    let base = if mean > 4095 { 4095 } else { mean };
    if config.resv_max == 0 {
        base
    } else {
        let more = scaled_pe - mean;
        let frac = div_trunc(config.resv_size * 6, 10);
        let add = if more > 100 {
            if frac < more { frac } else { more }
        } else {
            0
        };
        let over = config.resv_size - div_trunc(((config.resv_max as i32) << 3u32) as int, 10) - add;
        let add2 = if over > 0 { add + over } else { add };
        if base + add2 > 4095 { 4095 } else { base + add2 }
    }
}

/// The arithmetic of `max_reservoir_bits` stays within `i32`.
pub open spec fn max_reservoir_bits_in_range(scaled_pe: i32, config: ShineGlobalConfig) -> bool {
    let mean = mean_bits_per_channel(config);
    let base = if mean > 4095 { 4095 } else { mean };
    let frac = div_trunc(config.resv_size * 6, 10);
    let more = scaled_pe - mean;
    let add = if more > 100 {
        if frac < more { frac } else { more }
    } else {
        0
    };
    let over = config.resv_size - div_trunc(((config.resv_max as i32) << 3u32) as int, 10) - add;
    let add2 = if over > 0 { add + over } else { add };
    &&& config.resv_max != 0 ==> {
        &&& i32::MIN <= more <= i32::MAX
        &&& more > 100 ==> i32::MIN <= config.resv_size * 6 <= i32::MAX
        &&& i32::MIN <= config.resv_size - div_trunc(((config.resv_max as i32) << 3u32) as int, 10) <= i32::MAX
        &&& i32::MIN <= over <= i32::MAX
        &&& i32::MIN <= add2 <= i32::MAX
        &&& i32::MIN <= base + add2 <= i32::MAX
    }
}

/// Largest number of bits granule coding may take; `scaled_pe` is the
/// granule's perceptual entropy multiplied by 3.1 and truncated to an integer.
pub fn shine_max_reservoir_bits_scaled(scaled_pe: i32, config: &ShineGlobalConfig) -> (max_bits: i32)
    requires
        config.wave.channels != 0,
        !(config.mean_bits == i32::MIN && config.wave.channels == -1),
        max_reservoir_bits_in_range(scaled_pe, *config),
    ensures
        max_bits == max_reservoir_bits(scaled_pe, *config),
        max_bits <= 4095,
{
    let more_bits: i32;
    let mut max_bits: i32;
    let mut add_bits: i32;
    let over_bits: i32;
    let mut mean_bits = config.mean_bits;
    mean_bits = divide(mean_bits, config.wave.channels);
    max_bits = mean_bits;
    if max_bits > 4095 {
        max_bits = 4095;
    }
    if config.resv_max == 0 {
        return max_bits;
    }
    more_bits = scaled_pe - mean_bits;
    add_bits = 0;
    if more_bits > 100 {
        let frac = (config.resv_size * 6) / 10;
        if frac < more_bits {
            add_bits = frac;
        } else {
            add_bits = more_bits;
        }
    }
    over_bits = config.resv_size - ((config.resv_max << 3u32) / 10) - add_bits;
    if over_bits > 0 {
        add_bits = add_bits + over_bits;
    }
    max_bits = max_bits + add_bits;
    if max_bits > 4095 {
        max_bits = 4095;
    }
    max_bits
}

/// Why a granule's bit limit cannot be computed within `i32`.
#[derive(Debug, Clone, Copy, PartialEq, Eq)]
pub enum LimitFault {
    /// The configuration has no channels to divide the mean allowance by.
    DivisionByZero,
    /// Dividing the mean allowance by the channel count leaves `i32`.
    DivisionOverflow,
    /// A step of the limit's arithmetic leaves `i32`.
    ArithmeticOverflow,
}

/// The fault, if any, that stops the granule bit limit from being computed.
pub open spec fn limit_fault(scaled_pe: i32, config: ShineGlobalConfig) -> Option<LimitFault> {
    if config.wave.channels == 0 {
        Some(LimitFault::DivisionByZero)
    } else if config.mean_bits == i32::MIN && config.wave.channels == -1 {
        Some(LimitFault::DivisionOverflow)
    } else if !max_reservoir_bits_in_range(scaled_pe, config) {
        Some(LimitFault::ArithmeticOverflow)
    } else {
        None
    }
}

/// The granule bit limit, or the fault that keeps it from being computed
/// within `i32`: a configuration without channels, a mean allowance that
/// cannot be divided, or a step that leaves `i32`.
pub fn shine_max_reservoir_bits_checked(scaled_pe: i32, config: &ShineGlobalConfig) -> (r: Result<i32, LimitFault>)
    ensures
        r == match limit_fault(scaled_pe, *config) {
            Some(f) => Err::<i32, LimitFault>(f),
            None => Ok(max_reservoir_bits(scaled_pe, *config) as i32),
        },
{
    if config.wave.channels == 0 {
        return Err(LimitFault::DivisionByZero);
    }
    if config.mean_bits == i32::MIN && config.wave.channels == -1 {
        return Err(LimitFault::DivisionOverflow);
    }
    if config.resv_max != 0 {
        let mean = divide(config.mean_bits, config.wave.channels);
        let base: i64 = if mean > 4095 { 4095 } else { mean as i64 };
        let more: i64 = scaled_pe as i64 - mean as i64;
        if more < i32::MIN as i64 || more > i32::MAX as i64 {
            return Err(LimitFault::ArithmeticOverflow);
        }
        let mut add: i64 = 0;
        if more > 100 {
            let rs6: i64 = config.resv_size as i64 * 6;
            if rs6 < i32::MIN as i64 || rs6 > i32::MAX as i64 {
                return Err(LimitFault::ArithmeticOverflow);
            }
            let frac = divide(rs6 as i32, 10) as i64;
            add = if frac < more { frac } else { more };
        }
        let limit = divide(config.resv_max << 3u32, 10) as i64;
        let t1: i64 = config.resv_size as i64 - limit;
        if t1 < i32::MIN as i64 || t1 > i32::MAX as i64 {
            return Err(LimitFault::ArithmeticOverflow);
        }
        let over: i64 = t1 - add;
        if over < i32::MIN as i64 || over > i32::MAX as i64 {
            return Err(LimitFault::ArithmeticOverflow);
        }
        let add2: i64 = if over > 0 { add + over } else { add };
        if add2 < i32::MIN as i64 || add2 > i32::MAX as i64 {
            return Err(LimitFault::ArithmeticOverflow);
        }
        if base + add2 < i32::MIN as i64 || base + add2 > i32::MAX as i64 {
            return Err(LimitFault::ArithmeticOverflow);
        }
    }
    Ok(shine_max_reservoir_bits_scaled(scaled_pe, config))
}

/// Charges the reservoir for a coded granule: it gains the channel's mean
/// allowance and loses the bits the granule takes.
pub fn shine_resv_adjust(gi: &GrInfo, config: &mut ShineGlobalConfig)
    requires
        old(config).wave.channels != 0,
        !(old(config).mean_bits == i32::MIN && old(config).wave.channels == -1),
        i32::MIN <= old(config).resv_size + mean_bits_per_channel(*old(config)) - (gi.part2_3_length as i32)
            <= i32::MAX,
        i32::MIN <= mean_bits_per_channel(*old(config)) - (gi.part2_3_length as i32) <= i32::MAX,
    ensures
        final(config).resv_size == old(config).resv_size + mean_bits_per_channel(*old(config)) - (
        gi.part2_3_length as i32),
        final(config).wave == old(config).wave,
        final(config).mpeg == old(config).mpeg,
        final(config).side_info == old(config).side_info,
        final(config).mean_bits == old(config).mean_bits,
        final(config).resv_max == old(config).resv_max,
        final(config).bs == old(config).bs,
        final(config).l3_enc == old(config).l3_enc,
        final(config).scalefactor == old(config).scalefactor,
        final(config).mdct_freq == old(config).mdct_freq,
        final(config).l3_sb_sample == old(config).l3_sb_sample,
        final(config).l3loop == old(config).l3loop,
{
    config.resv_size = config.resv_size + (divide(config.mean_bits, config.wave.channels)
        - #[verifier::truncate] (gi.part2_3_length as i32));
}


/// The reservoir at the end of a frame, before it is limited: with two
/// channels an odd mean allowance leaves one bit that joins the reservoir.
pub open spec fn frame_end_start(c: ShineGlobalConfig) -> int {
    c.resv_size + if c.wave.channels == 2 && (c.mean_bits as int) % 2 != 0 {
        1int
    } else {
        0int
    }
}

/// The bits above the reservoir's maximum.
pub open spec fn frame_end_overflow(c: ShineGlobalConfig) -> int {
    if frame_end_start(c) - c.resv_max > 0 {
        frame_end_start(c) - c.resv_max
    } else {
        0
    }
}

/// The reservoir after a frame: within its maximum and a whole number of bytes.
pub open spec fn frame_end_reservoir(c: ShineGlobalConfig) -> int {
    let r = frame_end_start(c) - frame_end_overflow(c);
    r - r % 8
}

/// The stuffing bits of a frame: the reservoir's excess over its maximum and
/// its bits beyond a whole byte.
pub open spec fn frame_end_stuffing(c: ShineGlobalConfig) -> int {
    let r = frame_end_start(c) - frame_end_overflow(c);
    frame_end_overflow(c) + r % 8
}

/// The part 2 and 3 lengths of the granules, in the order granule 0 channel
/// 0, granule 0 channel 1, granule 1 channel 0, granule 1 channel 1.
pub open spec fn part2_3_lengths(si: ShineSideInfo) -> Seq<int> {
    seq![
        si.gr@[0].ch@[0].tt.part2_3_length as int,
        si.gr@[0].ch@[1].tt.part2_3_length as int,
        si.gr@[1].ch@[0].tt.part2_3_length as int,
        si.gr@[1].ch@[1].tt.part2_3_length as int,
    ]
}

/// The positions in `part2_3_lengths` of the first `ngr` granules, each for
/// `nch` channels, in coding order.
pub open spec fn granule_slots(ngr: int, nch: int) -> Seq<int>
    decreases ngr,
{
    if ngr <= 0 {
        Seq::empty()
    } else {
        granule_slots(ngr - 1, nch) + Seq::new(nch as nat, |ch: int| 2 * (ngr - 1) + ch)
    }
}

/// Spreads `s` stuffing bits over the granules at `slots`, in order, filling
/// each up to 4095 bits; returns the new lengths and the bits left over.
pub open spec fn spread_stuffing(p: Seq<int>, slots: Seq<int>, s: int) -> (Seq<int>, int)
    decreases slots.len(),
{
    if slots.len() == 0 || s == 0 {
        (p, s)
    } else {
        let k = slots[0];
        let extra = 4095 - p[k];
        let add = if extra < s { extra } else { s };
        spread_stuffing(p.update(k, p[k] + add), slots.drop_first(), s - add)
    }
}

/// The granule lengths after the frame's stuffing bits are placed: all in
/// the first granule if it stays under 4095 bits, else spread over the
/// granules in order.
pub open spec fn stuffed_lengths(c: ShineGlobalConfig) -> Seq<int> {
    let s = frame_end_stuffing(c);
    let p = part2_3_lengths(c.side_info);
    if s == 0 {
        p
    } else if p[0] + s < 4095 {
        p.update(0, p[0] + s)
    } else {
        spread_stuffing(p, granule_slots(c.mpeg.granules_per_frame as int, c.wave.channels as int), s).0
    }
}

/// The stuffing bits left for ancillary data, if they could not all be placed.
pub open spec fn drained_stuffing(c: ShineGlobalConfig) -> int {
    let s = frame_end_stuffing(c);
    let p = part2_3_lengths(c.side_info);
    if s == 0 || p[0] + s < 4095 {
        c.side_info.resv_drain as int
    } else {
        spread_stuffing(p, granule_slots(c.mpeg.granules_per_frame as int, c.wave.channels as int), s).1
    }
}

/// `b` is `a` with possibly other part 2 and 3 lengths.
pub open spec fn same_but_lengths(a: ShineSideInfo, b: ShineSideInfo) -> bool {
    &&& a.private_bits == b.private_bits
    &&& a.scfsi == b.scfsi
    &&& forall|gr: int, ch: int|
        0 <= gr < 2 && 0 <= ch < 2 ==> (#[trigger] a.gr@[gr].ch@[ch]).tt == GrInfo {
            part2_3_length: a.gr@[gr].ch@[ch].tt.part2_3_length,
            ..b.gr@[gr].ch@[ch].tt
        }
}

/// The state `frame_end` expects: a reservoir that is not negative once
/// the odd bit has joined it, a maximum that is not negative, a first
/// granule length that can take the stuffing bits without leaving `u32`,
/// and, when the stuffing bits must be spread over the granules, at most
/// two channels and granules and granule lengths within 12 bits.
pub open spec fn frame_end_ready(c: ShineGlobalConfig) -> bool {
    &&& 0 <= frame_end_start(c) <= i32::MAX
    &&& 0 <= c.resv_max
    &&& frame_end_stuffing(c) != 0 ==> part2_3_lengths(c.side_info)[0] + frame_end_stuffing(c)
        <= u32::MAX
    &&& frame_end_stuffing(c) != 0 && part2_3_lengths(c.side_info)[0] + frame_end_stuffing(c)
        >= 4095 ==> {
        &&& 0 <= c.wave.channels <= 2
        &&& 0 <= c.mpeg.granules_per_frame <= 2
        &&& forall|k: int| 0 <= k < 4 ==> #[trigger] part2_3_lengths(c.side_info)[k] <= 4095
    }
}


proof fn lemma_granule_slots_prefix(i: int, j: int, nch: int)
    requires
        0 <= i <= j,
        0 <= nch,
    ensures
        granule_slots(i, nch).is_prefix_of(granule_slots(j, nch)),
    decreases j - i,
{
    if i < j {
        lemma_granule_slots_prefix(i, j - 1, nch);
    }
}

/// Everything but the side information and the reservoir size is as in `b`.
pub open spec fn same_frame_outside_side_info(a: ShineGlobalConfig, b: ShineGlobalConfig) -> bool {
    &&& a.wave == b.wave
    &&& a.mpeg == b.mpeg
    &&& a.mean_bits == b.mean_bits
    &&& a.resv_max == b.resv_max
    &&& a.bs == b.bs
    &&& a.l3_enc == b.l3_enc
    &&& a.scalefactor == b.scalefactor
    &&& a.mdct_freq == b.mdct_freq
    &&& a.l3_sb_sample == b.l3_sb_sample
    &&& a.l3loop == b.l3loop
}

/// Adds `bits` to the part 2 and 3 length of granule `gr` of channel `ch`.
fn add_part2_3_length(si: &mut ShineSideInfo, gr: usize, ch: usize, bits: u32)
    requires
        gr < 2,
        ch < 2,
        old(si).gr@[gr as int].ch@[ch as int].tt.part2_3_length + bits <= u32::MAX,
    ensures
        part2_3_lengths(*final(si)) == part2_3_lengths(*old(si)).update(
            2 * gr + ch,
            part2_3_lengths(*old(si))[2 * gr + ch] + bits,
        ),
        same_but_lengths(*final(si), *old(si)),
        final(si).resv_drain == old(si).resv_drain,
{
    let mut g = si.gr[gr];
    let mut c = g.ch[ch];
    c.tt.part2_3_length = c.tt.part2_3_length + bits;
    g.ch[ch] = c;
    si.gr[gr] = g;
    assert(part2_3_lengths(*si) =~= part2_3_lengths(*old(si)).update(
        2 * gr + ch,
        part2_3_lengths(*old(si))[2 * gr + ch] + bits,
    ));
}

/// Ends the frame's reservoir accounting: keeps the reservoir within its
/// maximum and byte aligned, and places the excess as stuffing bits in the
/// granules (the first one if it can take them all, else each in turn up
/// to 4095 bits); what cannot be placed is left for ancillary data.
pub fn shine_resv_frame_end(config: &mut ShineGlobalConfig)
    requires
        frame_end_ready(*old(config)),
    ensures
        final(config).resv_size == frame_end_reservoir(*old(config)),
        part2_3_lengths(final(config).side_info) == stuffed_lengths(*old(config)),
        final(config).side_info.resv_drain == drained_stuffing(*old(config)),
        same_but_lengths(final(config).side_info, old(config).side_info),
        final(config).wave == old(config).wave,
        final(config).mpeg == old(config).mpeg,
        final(config).mean_bits == old(config).mean_bits,
        final(config).resv_max == old(config).resv_max,
        final(config).bs == old(config).bs,
        final(config).l3_enc == old(config).l3_enc,
        final(config).scalefactor == old(config).scalefactor,
        final(config).mdct_freq == old(config).mdct_freq,
        final(config).l3_sb_sample == old(config).l3_sb_sample,
        final(config).l3loop == old(config).l3loop,
{
    let ghost c0 = *config;
    let ancillary_pad: i32 = 0;
    let mut stuffing_bits: i32;
    let mut over_bits: i32;
    if config.wave.channels == 2 && (config.mean_bits & 1) != 0 {
        let mb = config.mean_bits;
        assert((mb & 1) != 0 <==> (mb as int) % 2 != 0) by (bit_vector);
        config.resv_size = config.resv_size + 1;
    } else {
        let mb = config.mean_bits;
        assert((mb & 1) != 0 <==> (mb as int) % 2 != 0) by (bit_vector);
    }
    assert(config.resv_size == frame_end_start(c0));
    over_bits = config.resv_size - config.resv_max;
    if over_bits < 0 {
        over_bits = 0;
    }
    config.resv_size = config.resv_size - over_bits;
    stuffing_bits = over_bits + ancillary_pad;
    over_bits = config.resv_size % 8;
    if over_bits != 0 {
        stuffing_bits = stuffing_bits + over_bits;
        config.resv_size = config.resv_size - over_bits;
    }
    assert(config.resv_size == frame_end_reservoir(c0));
    assert(stuffing_bits == frame_end_stuffing(c0));
    assert(stuffing_bits >= 0);
    if stuffing_bits != 0 {
        let p0 = config.side_info.gr[0].ch[0].tt.part2_3_length;
        assert(p0 as int == part2_3_lengths(c0.side_info)[0]);
        if p0 + (stuffing_bits as u32) < 4095 {
            add_part2_3_length(&mut config.side_info, 0, 0, stuffing_bits as u32);
        } else {
            let granules = config.mpeg.granules_per_frame;
            let channels = config.wave.channels;
            let ghost all = granule_slots(granules as int, channels as int);
            let ghost target = spread_stuffing(part2_3_lengths(c0.side_info), all, stuffing_bits as int);
            let ghost mut rest = all;
            let mut gr: i32 = 0;
            proof {
                assert(granule_slots(0, channels as int) =~= Seq::<int>::empty());
                assert(all.skip(0) =~= all);
            }
            while gr < granules
                invariant_except_break
                    0 <= gr <= granules,
                    granules == c0.mpeg.granules_per_frame,
                    channels == c0.wave.channels,
                    0 <= granules <= 2,
                    0 <= channels <= 2,
                    stuffing_bits >= 0,
                    all == granule_slots(granules as int, channels as int),
                    rest == all.skip(granule_slots(gr as int, channels as int).len() as int),
                    granule_slots(gr as int, channels as int).is_prefix_of(all),
                    spread_stuffing(part2_3_lengths(config.side_info), rest, stuffing_bits as int) == target,
                    forall|k: int| 0 <= k < 4 ==> #[trigger] part2_3_lengths(config.side_info)[k] <= 4095,
                    same_but_lengths(config.side_info, c0.side_info),
                    config.side_info.resv_drain == c0.side_info.resv_drain,
                    same_frame_outside_side_info(*config, c0),
                    config.resv_size == frame_end_reservoir(c0),
                ensures
                    spread_stuffing(part2_3_lengths(config.side_info), rest, stuffing_bits as int) == target,
                    rest.len() == 0 || stuffing_bits == 0,
                    same_but_lengths(config.side_info, c0.side_info),
                    config.side_info.resv_drain == c0.side_info.resv_drain,
                    same_frame_outside_side_info(*config, c0),
                    config.resv_size == frame_end_reservoir(c0),
                decreases granules - gr,
            {
                let ghost row = Seq::new(channels as nat, |c: int| 2 * gr + c);
                proof {
                    lemma_granule_slots_prefix(gr + 1, granules as int, channels as int);
                    let pre = granule_slots(gr as int, channels as int);
                    let pre1 = granule_slots(gr + 1, channels as int);
                    assert(pre1 == pre + row);
                    assert(rest =~= row + all.skip(pre1.len() as int)) by {
                        assert forall|i: int| 0 <= i < rest.len() implies rest[i] == (row + all.skip(pre1.len() as int))[i] by {
                            if i < row.len() {
                                assert(pre1 =~= all.subrange(0, pre1.len() as int));
                                assert(pre1[pre.len() + i] == row[i]);
                            }
                        }
                    }
                }
                let mut ch: i32 = 0;
                while ch < channels
                    invariant_except_break
                        0 <= ch <= channels,
                        0 <= gr < granules,
                        granules == c0.mpeg.granules_per_frame,
                        channels == c0.wave.channels,
                        0 <= granules <= 2,
                        0 <= channels <= 2,
                        stuffing_bits >= 0,
                        rest == row.skip(ch as int) + all.skip(granule_slots(gr + 1, channels as int).len() as int),
                        row == Seq::new(channels as nat, |c: int| 2 * gr + c),
                        spread_stuffing(part2_3_lengths(config.side_info), rest, stuffing_bits as int) == target,
                        forall|k: int| 0 <= k < 4 ==> #[trigger] part2_3_lengths(config.side_info)[k] <= 4095,
                        same_but_lengths(config.side_info, c0.side_info),
                        config.side_info.resv_drain == c0.side_info.resv_drain,
                        same_frame_outside_side_info(*config, c0),
                        config.resv_size == frame_end_reservoir(c0),
                    ensures
                        spread_stuffing(part2_3_lengths(config.side_info), rest, stuffing_bits as int) == target,
                        stuffing_bits == 0 || rest == all.skip(granule_slots(gr + 1, channels as int).len() as int),
                        forall|k: int| 0 <= k < 4 ==> #[trigger] part2_3_lengths(config.side_info)[k] <= 4095,
                        stuffing_bits >= 0,
                        same_but_lengths(config.side_info, c0.side_info),
                        config.side_info.resv_drain == c0.side_info.resv_drain,
                        same_frame_outside_side_info(*config, c0),
                        config.resv_size == frame_end_reservoir(c0),
                    decreases channels - ch,
                {
                    if stuffing_bits == 0 {
                        break;
                    }
                    let ghost before = part2_3_lengths(config.side_info);
                    assert(rest[0] == 2 * gr + ch);
                    let cur = config.side_info.gr[gr as usize].ch[ch as usize].tt.part2_3_length;
                    assert(cur as int == before[2 * gr + ch]);
                    let extra_bits = 4095 - cur as i32;
                    let bits_this_gr = if extra_bits < stuffing_bits {
                        extra_bits
                    } else {
                        stuffing_bits
                    };
                    add_part2_3_length(&mut config.side_info, gr as usize, ch as usize, bits_this_gr as u32);
                    stuffing_bits = stuffing_bits - bits_this_gr;
                    proof {
                        assert(rest.drop_first() =~= row.skip(ch + 1) + all.skip(granule_slots(gr + 1, channels as int).len() as int));
                        rest = rest.drop_first();
                    }
                    ch = ch + 1;
                }
                if stuffing_bits == 0 {
                    break;
                }
                proof {
                    assert(row.skip(channels as int) =~= Seq::<int>::empty());
                    assert(rest =~= all.skip(granule_slots(gr + 1, channels as int).len() as int));
                }
                gr = gr + 1;
            }
            proof {
                if stuffing_bits != 0 {
                    assert(rest.len() == 0);
                }
            }
            config.side_info.resv_drain = stuffing_bits;
        }
    }
}

} // verus!
