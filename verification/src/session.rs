//! The session: the shared mutable context that one open sound file spans.
//! It carries the conversion-engine state — channel count, endianness, the
//! scaling and clipping policy, the peak table, the cursors — and the pair of
//! codec bindings that `float32_init` selects once at stream-open time from
//! the cross product of file endianness and the host's float capability.

use vstd::prelude::*;

use crate::SFE_INTERNAL;
use crate::ieee::f32_div;
use crate::ieee::spec_f32_div;
use crate::kernels::F32_MAX_I16;
use crate::kernels::F32_MAX_I32;
use crate::kernels::F32_ONE;
use crate::kernels::F32_SCALE_WRITE_INT;
use crate::kernels::F32_SCALE_WRITE_SHORT;
use crate::peak::PEAK_INFO;

verus! {

/// Open mode of a session.
#[derive(Clone, Copy, PartialEq, Eq, Structural, Debug)]
pub enum SFM_OPEN_MODE {
    READ,
    WRITE,
    RDWR,
}

/// Endianness of the data in the file, as the container header fixed it.
#[derive(Clone, Copy, PartialEq, Eq, Structural, Debug)]
pub enum SF_ENDIAN {
    FILE,
    LITTLE,
    BIG,
    CPU,
}

/// The host's float capability, probed once per session: either the native
/// float representation is byte-for-byte IEEE-754 (in one of the two byte
/// orders), or the software replacement path must be used.
#[derive(Clone, Copy, PartialEq, Eq, Structural, Debug)]
pub enum FLOAT_CAPS {
    CAN_RW_LE,
    CAN_RW_BE,
    BROKEN_LE,
    BROKEN_BE,
}

/// Which family of conversion functions a session is bound to: the fast
/// native-IEEE family or the software-replacement family.
#[derive(Clone, Copy, PartialEq, Eq, Structural, Debug)]
pub enum FLOAT_CODEC {
    HOST,
    REPLACE,
}

/// One note in the session-scoped parse log.
#[derive(Clone, Copy, PartialEq, Eq, Structural, Debug)]
pub enum SF_LOG_NOTE {
    /// "Using IEEE replacement code for float."
    IEEE_REPLACEMENT,
    /// "float32_init : internal error : channels < 1"
    BAD_CHANNEL_COUNT,
}

/// The session-scoped parse log: diagnostic notes appended while a file is
/// opened and parsed, never read back by the engine itself.
#[derive(Clone, PartialEq, Eq, Debug)]
pub struct SF_PRIVATE_PARSELOG {
    /// The notes, oldest first.
    pub entries: Vec<SF_LOG_NOTE>,
}

/// The per-file session object.  All conversion functions thread through a
/// reference to it; it is owned by one caller and never shared.
pub struct SF_PRIVATE {
    /// Channel count; conversion is active only when it is at least 1.
    pub channels: usize,
    /// Open mode, fixed at open.
    pub mode: SFM_OPEN_MODE,
    /// Endianness of the sample data in the file.
    pub endian: SF_ENDIAN,
    /// Whether sample data needs a byte swap between file and host order;
    /// recomputed whenever `endian` changes.
    pub data_endswap: bool,
    /// Whether float-to-integer reads scale by `float_max`.
    pub float_int_mult: bool,
    /// Maximum magnitude used to derive the read-side scale factor, as a
    /// 32-bit float bit pattern.
    pub float_max: u32,
    /// Whether integer-to-float writes scale into the normalized domain.
    pub scale_int_float: bool,
    /// Whether out-of-range float-to-integer conversions saturate explicitly.
    pub add_clipping: bool,
    /// The peak table, present only when peak tracking is requested; one
    /// entry per channel, allocated once.
    pub peak_info: Option<PEAK_INFO>,
    /// Sample-frame offset of the read cursor.
    pub read_current: u64,
    /// Sample-frame offset of the write cursor.
    pub write_current: u64,
    /// Bytes per interleaved sample frame.
    pub blockwidth: usize,
    /// Bytes per single sample.
    pub bytewidth: usize,
    /// Overall length of the file in bytes.
    pub filelength: u64,
    /// Offset of the sample data from the start of the file.
    pub dataoffset: u64,
    /// Offset of the file trailer, or 0 when there is none.
    pub dataend: u64,
    /// Length of the sample data in bytes.
    pub datalength: u64,
    /// Number of sample frames.
    pub frames: u64,
    /// Force the software replacement path even on an IEEE host.
    pub ieee_replace: bool,
    /// The session-scoped parse log.
    pub parselog: SF_PRIVATE_PARSELOG,
    /// The read family bound at open, or `None` before a successful init.
    pub float_codec_read: Option<FLOAT_CODEC>,
    /// The write family bound at open, or `None` before a successful init.
    pub float_codec_write: Option<FLOAT_CODEC>,
}

impl SF_PRIVATE {
    /// A fresh session: no channels, no bindings, everything zeroed, as a
    /// container parser receives it before filling in the header fields.
    pub fn new() -> (r: SF_PRIVATE)
        ensures
            r.channels == 0,
            r.mode == SFM_OPEN_MODE::READ,
            r.endian == SF_ENDIAN::FILE,
            !r.data_endswap,
            !r.float_int_mult,
            r.float_max == 0,
            !r.scale_int_float,
            !r.add_clipping,
            r.peak_info is None,
            r.read_current == 0,
            r.write_current == 0,
            r.blockwidth == 0,
            r.bytewidth == 0,
            r.filelength == 0,
            r.dataoffset == 0,
            r.dataend == 0,
            r.datalength == 0,
            r.frames == 0,
            !r.ieee_replace,
            r.parselog.entries@.len() == 0,
            r.float_codec_read is None,
            r.float_codec_write is None,
    {
        SF_PRIVATE {
            channels: 0,
            mode: SFM_OPEN_MODE::READ,
            endian: SF_ENDIAN::FILE,
            data_endswap: false,
            float_int_mult: false,
            float_max: 0,
            scale_int_float: false,
            add_clipping: false,
            peak_info: None,
            read_current: 0,
            write_current: 0,
            blockwidth: 0,
            bytewidth: 0,
            filelength: 0,
            dataoffset: 0,
            dataend: 0,
            datalength: 0,
            frames: 0,
            ieee_replace: false,
            parselog: SF_PRIVATE_PARSELOG { entries: Vec::new() },
            float_codec_read: None,
            float_codec_write: None,
        }
    }

    /// The scale for float-to-16-bit reads: 1.0 unless scaling is enabled,
    /// then `32767 / float_max`.
    pub open spec fn spec_read_scale_short(&self) -> u32 {
        if self.float_int_mult {
            spec_f32_div(F32_MAX_I16, self.float_max)
        } else {
            F32_ONE
        }
    }

    /// The scale for float-to-32-bit reads: 1.0 unless scaling is enabled,
    /// then `2147483647 / float_max` (with the bound first rounded to float).
    pub open spec fn spec_read_scale_int(&self) -> u32 {
        if self.float_int_mult {
            spec_f32_div(F32_MAX_I32, self.float_max)
        } else {
            F32_ONE
        }
    }

    /// The scale for 16-bit-to-float writes: 1.0 unless scaling is enabled,
    /// then `1 / 32768`.
    pub open spec fn spec_write_scale_short(&self) -> u32 {
        if self.scale_int_float {
            F32_SCALE_WRITE_SHORT
        } else {
            F32_ONE
        }
    }

    /// The scale for 32-bit-to-float writes: 1.0 unless scaling is enabled,
    /// then `1 / (8 * 0x10000000)`.
    pub open spec fn spec_write_scale_int(&self) -> u32 {
        if self.scale_int_float {
            F32_SCALE_WRITE_INT
        } else {
            F32_ONE
        }
    }

    /// Compute the scale for float-to-16-bit reads.
    pub fn read_scale_short(&self) -> (r: u32)
        ensures
            r == self.spec_read_scale_short(),
    {
        if self.float_int_mult {
            f32_div(F32_MAX_I16, self.float_max)
        } else {
            F32_ONE
        }
    }

    /// Compute the scale for float-to-32-bit reads.
    pub fn read_scale_int(&self) -> (r: u32)
        ensures
            r == self.spec_read_scale_int(),
    {
        if self.float_int_mult {
            f32_div(F32_MAX_I32, self.float_max)
        } else {
            F32_ONE
        }
    }

    /// Compute the scale for 16-bit-to-float writes.
    pub fn write_scale_short(&self) -> (r: u32)
        ensures
            r == self.spec_write_scale_short(),
    {
        if self.scale_int_float {
            F32_SCALE_WRITE_SHORT
        } else {
            F32_ONE
        }
    }

    /// Compute the scale for 32-bit-to-float writes.
    pub fn write_scale_int(&self) -> (r: u32)
        ensures
            r == self.spec_write_scale_int(),
    {
        if self.scale_int_float {
            F32_SCALE_WRITE_INT
        } else {
            F32_ONE
        }
    }
}

/// The capability the probe reports for given probe bytes and flags: the
/// native byte pattern of the test value decides between the two IEEE
/// layouts, and anything else falls back to the replacement path in the
/// host's general byte order.
pub open spec fn spec_float_caps(ieee_replace: bool, probe: Seq<u8>, host_little: bool) -> (
    FLOAT_CAPS
) {
    if !ieee_replace && probe[0] == 0x52 && probe[1] == 0x06 && probe[2] == 0x9e && probe[3]
        == 0x3f {
        FLOAT_CAPS::CAN_RW_LE
    } else if !ieee_replace && probe[3] == 0x52 && probe[2] == 0x06 && probe[1] == 0x9e && probe[0]
        == 0x3f {
        FLOAT_CAPS::CAN_RW_BE
    } else if host_little {
        FLOAT_CAPS::BROKEN_LE
    } else {
        FLOAT_CAPS::BROKEN_BE
    }
}

/// Classify the host's float capability from the native byte pattern of the
/// fixed test value 1.23456789 (a 32-bit float).  The classification is a
/// pure function of its inputs, so probing twice in one process gives the
/// same answer both times.  When the replacement path is selected, a
/// diagnostic note goes to the parse log.
pub fn float32_get_capability(psf: &mut SF_PRIVATE, probe: [u8; 4], host_little: bool) -> (r:
    FLOAT_CAPS)
    ensures
        r == spec_float_caps(old(psf).ieee_replace, probe@, host_little),
        final(psf).channels == old(psf).channels,
        final(psf).mode == old(psf).mode,
        final(psf).endian == old(psf).endian,
        final(psf).data_endswap == old(psf).data_endswap,
        final(psf).float_int_mult == old(psf).float_int_mult,
        final(psf).float_max == old(psf).float_max,
        final(psf).scale_int_float == old(psf).scale_int_float,
        final(psf).add_clipping == old(psf).add_clipping,
        final(psf).peak_info == old(psf).peak_info,
        final(psf).read_current == old(psf).read_current,
        final(psf).write_current == old(psf).write_current,
        final(psf).blockwidth == old(psf).blockwidth,
        final(psf).bytewidth == old(psf).bytewidth,
        final(psf).filelength == old(psf).filelength,
        final(psf).dataoffset == old(psf).dataoffset,
        final(psf).dataend == old(psf).dataend,
        final(psf).datalength == old(psf).datalength,
        final(psf).frames == old(psf).frames,
        final(psf).ieee_replace == old(psf).ieee_replace,
        final(psf).float_codec_read == old(psf).float_codec_read,
        final(psf).float_codec_write == old(psf).float_codec_write,
        (r == FLOAT_CAPS::CAN_RW_LE || r == FLOAT_CAPS::CAN_RW_BE) ==> final(psf).parselog == old(psf).parselog,
        (r == FLOAT_CAPS::BROKEN_LE || r == FLOAT_CAPS::BROKEN_BE) ==> final(psf).parselog.entries@ == old(psf).parselog.entries@.push(SF_LOG_NOTE::IEEE_REPLACEMENT),
{
    if !psf.ieee_replace {
        if probe[0] == 0x52 && probe[1] == 0x06 && probe[2] == 0x9e && probe[3] == 0x3f {
            return FLOAT_CAPS::CAN_RW_LE;
        }
        if probe[3] == 0x52 && probe[2] == 0x06 && probe[1] == 0x9e && probe[0] == 0x3f {
            return FLOAT_CAPS::CAN_RW_BE;
        }
    }
    psf.parselog.entries.push(SF_LOG_NOTE::IEEE_REPLACEMENT);
    if host_little {
        FLOAT_CAPS::BROKEN_LE
    } else {
        FLOAT_CAPS::BROKEN_BE
    }
}

/// Probing the float capability twice within one process yields the same
/// classification both times: the answer is a function of the probe bytes
/// and the session flags alone, with no hidden mutable state.
pub proof fn lemma_probe_deterministic(
    ieee_replace: bool,
    probe: Seq<u8>,
    host_little: bool,
    first: FLOAT_CAPS,
    second: FLOAT_CAPS,
)
    requires
        first == spec_float_caps(ieee_replace, probe, host_little),
        second == spec_float_caps(ieee_replace, probe, host_little),
    ensures
        first == second,
{
}

/// The one-time decision table from file endianness and float capability to
/// the bound function family and the data byte-swap flag.  Endianness values
/// the table does not list bind nothing.
pub open spec fn spec_float_binding(endian: SF_ENDIAN, caps: FLOAT_CAPS) -> Option<
    (FLOAT_CODEC, bool),
> {
    match (endian, caps) {
        (SF_ENDIAN::BIG, FLOAT_CAPS::CAN_RW_BE) => Some((FLOAT_CODEC::HOST, false)),
        (SF_ENDIAN::LITTLE, FLOAT_CAPS::CAN_RW_LE) => Some((FLOAT_CODEC::HOST, false)),
        (SF_ENDIAN::BIG, FLOAT_CAPS::CAN_RW_LE) => Some((FLOAT_CODEC::HOST, true)),
        (SF_ENDIAN::LITTLE, FLOAT_CAPS::CAN_RW_BE) => Some((FLOAT_CODEC::HOST, true)),
        (SF_ENDIAN::BIG, FLOAT_CAPS::BROKEN_LE) => Some((FLOAT_CODEC::REPLACE, true)),
        (SF_ENDIAN::LITTLE, FLOAT_CAPS::BROKEN_LE) => Some((FLOAT_CODEC::REPLACE, false)),
        (SF_ENDIAN::BIG, FLOAT_CAPS::BROKEN_BE) => Some((FLOAT_CODEC::REPLACE, false)),
        (SF_ENDIAN::LITTLE, FLOAT_CAPS::BROKEN_BE) => Some((FLOAT_CODEC::REPLACE, true)),
        _ => None,
    }
}

/// Look the binding up in the decision table.
fn float_binding(endian: SF_ENDIAN, caps: FLOAT_CAPS) -> (r: Option<(FLOAT_CODEC, bool)>)
    ensures
        r == spec_float_binding(endian, caps),
{
    match (endian, caps) {
        (SF_ENDIAN::BIG, FLOAT_CAPS::CAN_RW_BE) => Some((FLOAT_CODEC::HOST, false)),
        (SF_ENDIAN::LITTLE, FLOAT_CAPS::CAN_RW_LE) => Some((FLOAT_CODEC::HOST, false)),
        (SF_ENDIAN::BIG, FLOAT_CAPS::CAN_RW_LE) => Some((FLOAT_CODEC::HOST, true)),
        (SF_ENDIAN::LITTLE, FLOAT_CAPS::CAN_RW_BE) => Some((FLOAT_CODEC::HOST, true)),
        (SF_ENDIAN::BIG, FLOAT_CAPS::BROKEN_LE) => Some((FLOAT_CODEC::REPLACE, true)),
        (SF_ENDIAN::LITTLE, FLOAT_CAPS::BROKEN_LE) => Some((FLOAT_CODEC::REPLACE, false)),
        (SF_ENDIAN::BIG, FLOAT_CAPS::BROKEN_BE) => Some((FLOAT_CODEC::REPLACE, false)),
        (SF_ENDIAN::LITTLE, FLOAT_CAPS::BROKEN_BE) => Some((FLOAT_CODEC::REPLACE, true)),
        _ => None,
    }
}

/// The data length the init computes from the file geometry.
pub open spec fn spec_init_datalength(psf: SF_PRIVATE) -> u64 {
    if psf.filelength > psf.dataoffset {
        if psf.dataend > 0 {
            (psf.dataend - psf.dataoffset) as u64
        } else {
            (psf.filelength - psf.dataoffset) as u64
        }
    } else {
        0u64
    }
}

/// Initialize the float32 codec on a session: probe the float capability,
/// bind the read and write function families for the session's endianness,
/// compute block width, data length and frame count.  A channel count below
/// 1 is a precondition violation: the init fails with the internal error
/// code, binds nothing, and leaves the session for dead.
pub fn float32_init(psf: &mut SF_PRIVATE, probe: [u8; 4], host_little: bool) -> (r: i32)
    requires
        old(psf).channels <= 0x1fff_ffff,
        old(psf).dataend == 0 || old(psf).dataend >= old(psf).dataoffset,
    ensures
        old(psf).channels < 1 ==> r == SFE_INTERNAL && final(psf).float_codec_read == old(psf).float_codec_read && final(psf).float_codec_write == old(psf).float_codec_write && final(psf).blockwidth == old(psf).blockwidth && final(psf).frames == old(psf).frames && final(psf).parselog.entries@ == old(psf).parselog.entries@.push(SF_LOG_NOTE::BAD_CHANNEL_COUNT),
        old(psf).channels >= 1 ==> {
            let caps = spec_float_caps(old(psf).ieee_replace, probe@, host_little);
            let binding = spec_float_binding(old(psf).endian, caps);
            &&& r == 0
            &&& final(psf).blockwidth == 4 * old(psf).channels
            &&& final(psf).datalength == spec_init_datalength(*old(psf))
            &&& final(psf).frames == spec_init_datalength(*old(psf)) / ((4 * old(psf).channels) as u64)
            &&& (match binding {
                Some(b) => {
                    &&& final(psf).data_endswap == b.1
                    &&& ((old(psf).mode == SFM_OPEN_MODE::READ || old(psf).mode
                        == SFM_OPEN_MODE::RDWR) ==> final(psf).float_codec_read == Some(b.0))
                    &&& ((old(psf).mode == SFM_OPEN_MODE::WRITE || old(psf).mode
                        == SFM_OPEN_MODE::RDWR) ==> final(psf).float_codec_write == Some(b.0))
                    &&& (old(psf).mode == SFM_OPEN_MODE::READ ==> final(psf).float_codec_write
                        == old(psf).float_codec_write)
                    &&& (old(psf).mode == SFM_OPEN_MODE::WRITE ==> final(psf).float_codec_read
                        == old(psf).float_codec_read)
                },
                None => {
                    &&& final(psf).data_endswap == old(psf).data_endswap
                    &&& final(psf).float_codec_read == old(psf).float_codec_read
                    &&& final(psf).float_codec_write == old(psf).float_codec_write
                },
            })
        },
        final(psf).channels == old(psf).channels,
        final(psf).mode == old(psf).mode,
        final(psf).endian == old(psf).endian,
        final(psf).float_int_mult == old(psf).float_int_mult,
        final(psf).float_max == old(psf).float_max,
        final(psf).scale_int_float == old(psf).scale_int_float,
        final(psf).add_clipping == old(psf).add_clipping,
        final(psf).peak_info == old(psf).peak_info,
        final(psf).read_current == old(psf).read_current,
        final(psf).write_current == old(psf).write_current,
        final(psf).ieee_replace == old(psf).ieee_replace,
{
    if psf.channels < 1 {
        psf.parselog.entries.push(SF_LOG_NOTE::BAD_CHANNEL_COUNT);
        return SFE_INTERNAL;
    }
    let float_caps = float32_get_capability(psf, probe, host_little);

    psf.blockwidth = 4 * psf.channels;

    if psf.mode == SFM_OPEN_MODE::READ || psf.mode == SFM_OPEN_MODE::RDWR {
        match float_binding(psf.endian, float_caps) {
            Some(b) => {
                psf.data_endswap = b.1;
                psf.float_codec_read = Some(b.0);
            },
            None => {},
        }
    }
    if psf.mode == SFM_OPEN_MODE::WRITE || psf.mode == SFM_OPEN_MODE::RDWR {
        match float_binding(psf.endian, float_caps) {
            Some(b) => {
                psf.data_endswap = b.1;
                psf.float_codec_write = Some(b.0);
            },
            None => {},
        }
    }
    psf.datalength = if psf.filelength > psf.dataoffset {
        if psf.dataend > 0 {
            psf.dataend - psf.dataoffset
        } else {
            psf.filelength - psf.dataoffset
        }
    } else {
        0
    };
    psf.frames = if psf.blockwidth > 0 {
        psf.datalength / (psf.blockwidth as u64)
    } else {
        0
    };
    0
}

/// The largest single peak over all channels, if a peak table is present:
/// the cached maximum-magnitude signal value of the whole file, as a 64-bit
/// float bit pattern.
pub fn psf_get_signal_max(psf: &SF_PRIVATE) -> (r: Option<u64>)
    requires
        psf.peak_info is Some ==> psf.peak_info->Some_0.peaks@.len() == psf.channels,
        psf.channels >= 1,
    ensures
        psf.peak_info is None <==> r is None,
        r is Some ==> {
            let peaks = psf.peak_info->Some_0.peaks@;
            &&& (exists|k: int| 0 <= k < peaks.len() && r->Some_0 == peaks[k].value)
            &&& (forall|k: int|
                0 <= k < peaks.len() ==> !crate::ieee::spec_f64_lt(r->Some_0, peaks[k].value))
        },
{
    match &psf.peak_info {
        None => None,
        Some(info) => {
            let mut peak: u64 = info.peaks[0].value;
            let mut k: usize = 1;
            while k < psf.channels
                invariant
                    1 <= k <= psf.channels,
                    psf.peak_info is Some,
                    psf.peak_info->Some_0.peaks@.len() == psf.channels,
                    info == psf.peak_info->Some_0,
                    exists|j: int| 0 <= j < k && peak == info.peaks@[j].value,
                    forall|j: int|
                        0 <= j < k ==> !crate::ieee::spec_f64_lt(peak, info.peaks@[j].value),
                decreases psf.channels - k,
            {
                if crate::ieee::f64_lt(peak, info.peaks[k].value) {
                    peak = info.peaks[k].value;
                }
                k += 1;
            }
            Some(peak)
        },
    }
}

/// The per-channel peak values, if a peak table is present: one 64-bit float
/// bit pattern per channel.
pub fn psf_get_max_all_channels(psf: &SF_PRIVATE) -> (r: Option<Vec<u64>>)
    requires
        psf.peak_info is Some ==> psf.peak_info->Some_0.peaks@.len() == psf.channels,
    ensures
        psf.peak_info is None <==> r is None,
        r is Some ==> {
            let peaks = psf.peak_info->Some_0.peaks@;
            &&& r->Some_0@.len() == peaks.len()
            &&& (forall|k: int| 0 <= k < peaks.len() ==> r->Some_0@[k] == peaks[k].value)
        },
{
    match &psf.peak_info {
        None => None,
        Some(info) => {
            let mut out: Vec<u64> = Vec::new();
            let mut k: usize = 0;
            let n = info.peaks.len();
            while k < n
                invariant
                    k <= n,
                    psf.peak_info is Some,
                    info == psf.peak_info->Some_0,
                    n == info.peaks@.len(),
                    out@.len() == k,
                    forall|j: int| 0 <= j < k ==> out@[j] == info.peaks@[j].value,
                decreases n - k,
            {
                out.push(info.peaks[k].value);
                k += 1;
            }
            Some(out)
        },
    }
}

} // verus!
