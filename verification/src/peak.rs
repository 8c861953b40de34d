//! Per-channel peak tracking: a streaming maximum of sample magnitude with
//! the absolute frame position of its first occurrence, updated as a side
//! effect of every float write.  Peak values are 64-bit float bit patterns;
//! comparisons go through the verified software float unit, so a peak always
//! reflects true sample magnitude, never byte-swapped data.

use vstd::prelude::*;

use crate::SF_PEAK_LOCATION;
use crate::ieee::f32_abs;
use crate::ieee::f32_lt;
use crate::ieee::f32_to_f64;
use crate::ieee::f64_lt;
use crate::ieee::spec_f32_abs;
use crate::ieee::spec_f32_lt;
use crate::ieee::spec_f32_to_f64;
use crate::ieee::spec_f64_lt;

verus! {

/// One channel's recorded peak: the signed value (64-bit float bits) and the
/// sample frame it first occurred in.
#[derive(Clone, Copy, PartialEq, Eq, Structural, Debug)]
pub struct PEAK_POS {
    /// Peak value as a 64-bit float bit pattern.
    pub value: u64,
    /// The sample frame of the peak.
    pub position: u64,
}

/// The peak table: chunk placement, header fields, and one [`PEAK_POS`] per
/// channel.
#[derive(Clone, Debug)]
pub struct PEAK_INFO {
    /// Whether the peak chunk goes at the start or the end of the file.
    pub peak_loc: SF_PEAK_LOCATION,
    /// Version of the peak chunk.
    pub version: u32,
    /// Seconds since the epoch at chunk creation.
    pub timestamp: u32,
    /// Edit counter of the containing file.
    pub edit_number: u32,
    /// The per-channel peak entries, one per channel, never resized.
    pub peaks: Vec<PEAK_POS>,
}

/// Scan one channel's samples from index `k` upward in steps of `channels`,
/// carrying the running maximum magnitude `fmax` and its index `pos`; the
/// result is the pair after the whole block has been scanned.  A new
/// magnitude wins only by exceeding the running maximum strictly, so the
/// position tracks the first occurrence.
pub open spec fn spec_chan_scan(buf: Seq<u32>, channels: int, k: int, fmax: u32, pos: int) -> (
    u32,
    int,
)
    recommends
        channels >= 1,
        k >= 0,
    decreases buf.len() + channels - k when channels >= 1 && k >= 0
{
    if k >= buf.len() {
        (fmax, pos)
    } else {
        let a = spec_f32_abs(buf[k]);
        if spec_f32_lt(fmax, a) {
            spec_chan_scan(buf, channels, k + channels, a, k)
        } else {
            spec_chan_scan(buf, channels, k + channels, fmax, pos)
        }
    }
}

/// The [`PEAK_POS`] a channel holds after one block has been scanned: the new
/// maximum magnitude and its absolute frame position if it beats the recorded
/// value strictly, the recorded pair otherwise.
pub open spec fn spec_peak_after(
    buf: Seq<u32>,
    channels: int,
    chan: int,
    write_current: u64,
    indx: u64,
    old_pos: PEAK_POS,
) -> PEAK_POS
    recommends
        channels >= 1,
        0 <= chan < channels,
        chan < buf.len(),
{
    let scan = spec_chan_scan(buf, channels, chan, buf[chan], 0);
    if spec_f64_lt(old_pos.value, spec_f32_to_f64(scan.0)) {
        PEAK_POS {
            value: spec_f32_to_f64(scan.0),
            position: (write_current + indx + scan.1 / channels) as u64,
        }
    } else {
        old_pos
    }
}

/// Update every channel's recorded peak from one channel-interleaved block of
/// float samples whose first frame is `indx` frames past `write_current`.
pub fn float32_peak_update(
    info: &mut PEAK_INFO,
    channels: usize,
    write_current: u64,
    buffer: &Vec<u32>,
    indx: u64,
)
    requires
        1 <= channels,
        channels <= buffer@.len(),
        buffer@.len() + channels <= usize::MAX,
        old(info).peaks@.len() == channels,
        write_current + indx + buffer@.len() <= u64::MAX,
    ensures
        final(info).peak_loc == old(info).peak_loc,
        final(info).version == old(info).version,
        final(info).timestamp == old(info).timestamp,
        final(info).edit_number == old(info).edit_number,
        final(info).peaks@.len() == channels,
        forall|c: int|
            0 <= c < channels ==> final(info).peaks@[c] == spec_peak_after(
                buffer@,
                channels as int,
                c,
                write_current,
                indx,
                old(info).peaks@[c],
            ),
{
    let count = buffer.len();
    let mut chan: usize = 0;
    while chan < channels
        invariant
            chan <= channels,
            1 <= channels <= count,
            count == buffer@.len(),
            count + channels <= usize::MAX,
            write_current + indx + count <= u64::MAX,
            info.peaks@.len() == channels,
            info.peak_loc == old(info).peak_loc,
            info.version == old(info).version,
            info.timestamp == old(info).timestamp,
            info.edit_number == old(info).edit_number,
            forall|c: int|
                0 <= c < chan ==> info.peaks@[c] == spec_peak_after(
                    buffer@,
                    channels as int,
                    c,
                    write_current,
                    indx,
                    old(info).peaks@[c],
                ),
            forall|c: int| chan <= c < channels ==> info.peaks@[c] == old(info).peaks@[c],
        decreases channels - chan,
    {
        let mut fmaxval: u32 = buffer[chan];
        let mut position: usize = 0;
        let mut k: usize = chan;
        while k < count
            invariant
                1 <= channels <= count,
                count == buffer@.len(),
                count + channels <= usize::MAX,
                chan < channels,
                position < count,
                spec_chan_scan(buffer@, channels as int, k as int, fmaxval, position as int)
                    == spec_chan_scan(
                    buffer@,
                    channels as int,
                    chan as int,
                    buffer@[chan as int],
                    0,
                ),
            decreases count + channels - k,
        {
            let a = f32_abs(buffer[k]);
            if f32_lt(fmaxval, a) {
                fmaxval = a;
                position = k;
            }
            k += channels;
        }
        let widened = f32_to_f64(fmaxval);
        let old_pos = info.peaks[chan];
        if f64_lt(old_pos.value, widened) {
            let new_pos = PEAK_POS {
                value: widened,
                position: write_current + indx + (position / channels) as u64,
            };
            info.peaks[chan] = new_pos;
        }
        chan += 1;
    }
}

} // verus!
