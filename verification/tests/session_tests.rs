//! Session wiring: the capability probe, the decision table, init's
//! geometry computations and its zero-channel failure, scale selection, peak
//! tracking, and the peak readers.

use sndconv::SFE_INTERNAL;
use sndconv::SF_PEAK_LOCATION;
use sndconv::peak::float32_peak_update;
use sndconv::peak::PEAK_INFO;
use sndconv::peak::PEAK_POS;
use sndconv::session::float32_get_capability;
use sndconv::session::float32_init;
use sndconv::session::psf_get_max_all_channels;
use sndconv::session::psf_get_signal_max;
use sndconv::session::FLOAT_CAPS;
use sndconv::session::FLOAT_CODEC;
use sndconv::session::SFM_OPEN_MODE;
use sndconv::session::SF_ENDIAN;
use sndconv::session::SF_LOG_NOTE;
use sndconv::session::SF_PRIVATE;

fn probe_bytes() -> [u8; 4] {
    1.23456789f32.to_ne_bytes()
}

fn host_little() -> bool {
    u32::from_ne_bytes([1, 0, 0, 0]) == 1
}

/// Capability probe determinism: probing twice in one process classifies the
/// host the same way both times.
#[test]
fn probe_is_deterministic() {
    let mut psf = SF_PRIVATE::new();
    let first = float32_get_capability(&mut psf, probe_bytes(), host_little());
    let second = float32_get_capability(&mut psf, probe_bytes(), host_little());
    assert_eq!(first, second);
    if host_little() {
        assert_eq!(first, FLOAT_CAPS::CAN_RW_LE);
    } else {
        assert_eq!(first, FLOAT_CAPS::CAN_RW_BE);
    }
}

#[test]
fn probe_falls_back_when_replacement_forced() {
    let mut psf = SF_PRIVATE::new();
    psf.ieee_replace = true;
    let caps = float32_get_capability(&mut psf, probe_bytes(), host_little());
    if host_little() {
        assert_eq!(caps, FLOAT_CAPS::BROKEN_LE);
    } else {
        assert_eq!(caps, FLOAT_CAPS::BROKEN_BE);
    }
    assert_eq!(psf.parselog.entries, vec![SF_LOG_NOTE::IEEE_REPLACEMENT]);
}

#[test]
fn probe_detects_byte_orders() {
    let mut psf = SF_PRIVATE::new();
    let le = [0x52u8, 0x06, 0x9e, 0x3f];
    assert_eq!(float32_get_capability(&mut psf, le, true), FLOAT_CAPS::CAN_RW_LE);
    let be = [0x3fu8, 0x9e, 0x06, 0x52];
    assert_eq!(float32_get_capability(&mut psf, be, true), FLOAT_CAPS::CAN_RW_BE);
    let odd = [0u8, 0, 0, 0];
    assert_eq!(float32_get_capability(&mut psf, odd, true), FLOAT_CAPS::BROKEN_LE);
    assert_eq!(float32_get_capability(&mut psf, odd, false), FLOAT_CAPS::BROKEN_BE);
}

/// Zero-channel precondition: init fails with the internal error code and
/// binds no conversion functions.
#[test]
fn init_with_zero_channels_fails() {
    let mut psf = SF_PRIVATE::new();
    assert_eq!(psf.channels, 0);
    let r = float32_init(&mut psf, probe_bytes(), host_little());
    assert_eq!(r, SFE_INTERNAL);
    assert!(psf.float_codec_read.is_none());
    assert!(psf.float_codec_write.is_none());
    assert_eq!(psf.parselog.entries, vec![SF_LOG_NOTE::BAD_CHANNEL_COUNT]);
}

#[test]
fn init_binds_and_computes_geometry() {
    let mut psf = SF_PRIVATE::new();
    psf.channels = 2;
    psf.mode = SFM_OPEN_MODE::RDWR;
    psf.endian = if host_little() { SF_ENDIAN::LITTLE } else { SF_ENDIAN::BIG };
    psf.filelength = 1024;
    psf.dataoffset = 64;
    let r = float32_init(&mut psf, probe_bytes(), host_little());
    assert_eq!(r, 0);
    assert_eq!(psf.blockwidth, 8);
    assert_eq!(psf.datalength, 960);
    assert_eq!(psf.frames, 120);
    assert_eq!(psf.float_codec_read, Some(FLOAT_CODEC::HOST));
    assert_eq!(psf.float_codec_write, Some(FLOAT_CODEC::HOST));
    assert!(!psf.data_endswap);
}

#[test]
fn init_selects_swap_for_other_endianness() {
    let mut psf = SF_PRIVATE::new();
    psf.channels = 1;
    psf.mode = SFM_OPEN_MODE::READ;
    psf.endian = if host_little() { SF_ENDIAN::BIG } else { SF_ENDIAN::LITTLE };
    let r = float32_init(&mut psf, probe_bytes(), host_little());
    assert_eq!(r, 0);
    assert_eq!(psf.float_codec_read, Some(FLOAT_CODEC::HOST));
    assert!(psf.float_codec_write.is_none());
    assert!(psf.data_endswap);
}

#[test]
fn init_replacement_path_binds_replace_family() {
    let mut psf = SF_PRIVATE::new();
    psf.channels = 1;
    psf.mode = SFM_OPEN_MODE::WRITE;
    psf.ieee_replace = true;
    psf.endian = if host_little() { SF_ENDIAN::LITTLE } else { SF_ENDIAN::BIG };
    let r = float32_init(&mut psf, probe_bytes(), host_little());
    assert_eq!(r, 0);
    assert_eq!(psf.float_codec_write, Some(FLOAT_CODEC::REPLACE));
    assert!(!psf.data_endswap);
}

#[test]
fn init_uses_dataend_when_set() {
    let mut psf = SF_PRIVATE::new();
    psf.channels = 1;
    psf.mode = SFM_OPEN_MODE::READ;
    psf.endian = SF_ENDIAN::LITTLE;
    psf.filelength = 500;
    psf.dataoffset = 100;
    psf.dataend = 300;
    let r = float32_init(&mut psf, probe_bytes(), host_little());
    assert_eq!(r, 0);
    assert_eq!(psf.datalength, 200);
    assert_eq!(psf.frames, 50);
}

fn zeroed_peaks(channels: usize) -> PEAK_INFO {
    PEAK_INFO {
        peak_loc: SF_PEAK_LOCATION::SF_PEAK_START,
        version: 1,
        timestamp: 0,
        edit_number: 0,
        peaks: (0..channels).map(|_| PEAK_POS { value: 0, position: 0 }).collect(),
    }
}

/// Peak tracking correctness: on the 2-channel block [0.1, -0.9, 0.5, 0.2]
/// at frame 0, channel 0 records (0.5, frame 1) and channel 1 records
/// (0.9, frame 0): magnitude-based, first occurrence.
#[test]
fn peak_update_tracks_magnitude_and_position() {
    let mut info = zeroed_peaks(2);
    let block: Vec<u32> = [0.1f32, -0.9, 0.5, 0.2].iter().map(|x| x.to_bits()).collect();
    float32_peak_update(&mut info, 2, 0, &block, 0);
    assert_eq!(info.peaks[0].value, (0.5f32 as f64).to_bits());
    assert_eq!(info.peaks[0].position, 1);
    assert_eq!(info.peaks[1].value, (0.9f32 as f64).to_bits());
    assert_eq!(info.peaks[1].position, 0);
}

#[test]
fn peak_update_keeps_first_occurrence_of_equal_peak() {
    let mut info = zeroed_peaks(1);
    let block: Vec<u32> = [0.5f32, -0.5, 0.5].iter().map(|x| x.to_bits()).collect();
    float32_peak_update(&mut info, 1, 0, &block, 0);
    // 0.5 at frame 0 is never strictly exceeded, so the position stays 0
    assert_eq!(info.peaks[0].value, (0.5f32 as f64).to_bits());
    assert_eq!(info.peaks[0].position, 0);
}

#[test]
fn peak_update_only_raises() {
    let mut info = zeroed_peaks(1);
    info.peaks[0] = PEAK_POS { value: (2.0f64).to_bits(), position: 7 };
    let block: Vec<u32> = [1.0f32, -1.5].iter().map(|x| x.to_bits()).collect();
    float32_peak_update(&mut info, 1, 5, &block, 3);
    assert_eq!(info.peaks[0].value, (2.0f64).to_bits());
    assert_eq!(info.peaks[0].position, 7);
}

#[test]
fn peak_readers() {
    let mut psf = SF_PRIVATE::new();
    psf.channels = 2;
    assert!(psf_get_signal_max(&psf).is_none());
    assert!(psf_get_max_all_channels(&psf).is_none());
    let mut info = zeroed_peaks(2);
    info.peaks[0] = PEAK_POS { value: (0.25f64).to_bits(), position: 3 };
    info.peaks[1] = PEAK_POS { value: (0.75f64).to_bits(), position: 9 };
    psf.peak_info = Some(info);
    assert_eq!(psf_get_signal_max(&psf), Some((0.75f64).to_bits()));
    assert_eq!(
        psf_get_max_all_channels(&psf),
        Some(vec![(0.25f64).to_bits(), (0.75f64).to_bits()])
    );
}
