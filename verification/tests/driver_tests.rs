//! Buffered codec drivers over the in-memory I/O implementation: the
//! pass-through round trip, short-transfer propagation, byte-swapped paths,
//! scaled reads and writes, and peak tracking through the write path.

use sndconv::drivers::host_read_f;
use sndconv::drivers::host_read_f2d;
use sndconv::drivers::host_read_f2i;
use sndconv::drivers::host_read_f2s;
use sndconv::drivers::host_write_f;
use sndconv::drivers::host_write_s2f;
use sndconv::drivers::read_float;
use sndconv::drivers::read_short;
use sndconv::drivers::replace_read_f;
use sndconv::drivers::replace_write_f;
use sndconv::drivers::write_double;
use sndconv::drivers::write_float;
use sndconv::drivers::write_int;
use sndconv::drivers::write_short;
use sndconv::drivers::MemIo;
use sndconv::peak::PEAK_INFO;
use sndconv::peak::PEAK_POS;
use sndconv::session::FLOAT_CODEC;
use sndconv::session::SF_PRIVATE;
use sndconv::SF_PEAK_LOCATION;

fn bits_of(xs: &[f32]) -> Vec<u32> {
    xs.iter().map(|x| x.to_bits()).collect()
}

fn session() -> SF_PRIVATE {
    let mut psf = SF_PRIVATE::new();
    psf.channels = 2;
    psf.float_codec_read = Some(FLOAT_CODEC::HOST);
    psf.float_codec_write = Some(FLOAT_CODEC::HOST);
    psf
}

/// Round-trip identity without scaling: floats in [-1, 1] written then read
/// back through the native no-swap path come back bit-exact.
#[test]
fn passthrough_roundtrip_is_bit_exact() {
    let mut psf = session();
    let data = bits_of(&[0.0, -0.0, 1.0, -1.0, 0.125, -0.875, 0.333, -0.999999]);
    let mut io = MemIo::new();
    let wrote = write_float(&mut psf, &mut io, &data, data.len());
    assert_eq!(wrote, data.len());
    assert_eq!(io.sink, data);

    let mut back_io = MemIo::reader(io.sink, usize::MAX);
    let mut out: Vec<u32> = vec![0; data.len()];
    let got = read_float(&psf, &mut back_io, &mut out, data.len());
    assert_eq!(got, data.len());
    assert_eq!(out, data);
}

#[test]
fn swapped_roundtrip_is_bit_exact() {
    let mut psf = session();
    psf.data_endswap = true;
    let data = bits_of(&[0.5, -0.25, 1.0]);
    let mut io = MemIo::new();
    let wrote = host_write_f(&mut psf, &mut io, &data, data.len());
    assert_eq!(wrote, 3);
    assert_eq!(io.sink[0], 0.5f32.to_bits().swap_bytes());

    let mut back_io = MemIo::reader(io.sink, usize::MAX);
    let mut out: Vec<u32> = vec![0; 3];
    let got = host_read_f(&psf, &mut back_io, &mut out, 3);
    assert_eq!(got, 3);
    assert_eq!(out, data);
}

#[test]
fn replace_family_roundtrip_matches_host_family() {
    let mut psf = session();
    psf.float_codec_read = Some(FLOAT_CODEC::REPLACE);
    psf.float_codec_write = Some(FLOAT_CODEC::REPLACE);
    let data = bits_of(&[0.75, -0.125]);
    let mut io = MemIo::new();
    let wrote = replace_write_f(&mut psf, &mut io, &data, data.len());
    assert_eq!(wrote, 2);
    assert_eq!(io.sink, data);
    let mut back_io = MemIo::reader(io.sink, usize::MAX);
    let mut out: Vec<u32> = vec![0; 2];
    let got = replace_read_f(&psf, &mut back_io, &mut out, 2);
    assert_eq!(got, 2);
    assert_eq!(out, data);
}

/// Short-transfer propagation: when the primitive hands back fewer elements
/// than asked, the driver's total is the sum of the chunks actually read and
/// the loop stops there.
#[test]
fn short_read_propagates() {
    let psf = session();
    let data = bits_of(&[0.5; 8]);
    let mut io = MemIo::reader(data, 3);
    let mut out: Vec<i16> = vec![77; 8];
    let total = host_read_f2s(&psf, &mut io, &mut out, 8);
    assert_eq!(total, 3);
    assert_eq!(io.pos, 3);
    assert_eq!(&out[0..3], &[1, 1, 1][..]);
    assert_eq!(&out[3..], &[77; 5][..]);
}

#[test]
fn short_read_at_end_of_stream() {
    let psf = session();
    let data = bits_of(&[1.0, -1.0]);
    let mut io = MemIo::reader(data, usize::MAX);
    let mut out: Vec<u32> = vec![0; 5];
    let total = host_read_f(&psf, &mut io, &mut out, 5);
    assert_eq!(total, 2);
    assert_eq!(out[0], 1.0f32.to_bits());
    assert_eq!(out[1], (-1.0f32).to_bits());
    assert_eq!(out[2], 0);
}

#[test]
fn read_short_scaled_and_clipped() {
    let mut psf = session();
    psf.float_int_mult = true;
    psf.float_max = 1.0f32.to_bits();
    psf.add_clipping = true;
    let data = bits_of(&[1.0, -1.0, 2.0, -2.0, 0.5]);
    let mut io = MemIo::reader(data, usize::MAX);
    let mut out: Vec<i16> = vec![0; 5];
    let total = read_short(&psf, &mut io, &mut out, 5);
    assert_eq!(total, 5);
    assert_eq!(out, vec![32767, -32767, 32767, -32768, (0.5f32 * 32767.0).round() as i16]);
}

#[test]
fn read_int_and_double() {
    let mut psf = session();
    psf.float_int_mult = true;
    psf.float_max = 1.0f32.to_bits();
    let data = bits_of(&[0.5, -0.25]);
    let mut io = MemIo::reader(data.clone(), usize::MAX);
    let mut out: Vec<i32> = vec![0; 2];
    let total = host_read_f2i(&psf, &mut io, &mut out, 2);
    assert_eq!(total, 2);
    let scale = 2147483648.0f32 / 1.0;
    assert_eq!(out[0], (0.5f32 * scale).round() as i32);
    assert_eq!(out[1], (-0.25f32 * scale).round() as i32);

    let mut io2 = MemIo::reader(data, usize::MAX);
    let mut outd: Vec<u64> = vec![0; 2];
    let total2 = host_read_f2d(&psf, &mut io2, &mut outd, 2);
    assert_eq!(total2, 2);
    assert_eq!(outd[0], (0.5f64).to_bits());
    assert_eq!(outd[1], (-0.25f64).to_bits());
}

#[test]
fn write_short_scales_into_normalized_floats() {
    let mut psf = session();
    psf.scale_int_float = true;
    let samples: Vec<i16> = vec![0, 16384, -32768, 32767];
    let mut io = MemIo::new();
    let total = write_short(&mut psf, &mut io, &samples, 4);
    assert_eq!(total, 4);
    let expect: Vec<u32> = samples
        .iter()
        .map(|&v| ((v as f32) * (1.0 / 32768.0)).to_bits())
        .collect();
    assert_eq!(io.sink, expect);
}

#[test]
fn write_int_scales_into_normalized_floats() {
    let mut psf = session();
    psf.scale_int_float = true;
    let samples: Vec<i32> = vec![0, i32::MAX, i32::MIN, 1 << 20];
    let mut io = MemIo::new();
    let total = write_int(&mut psf, &mut io, &samples, 4);
    assert_eq!(total, 4);
    let scale = 1.0f32 / (8.0 * 0x1000_0000u32 as f32);
    let expect: Vec<u32> = samples.iter().map(|&v| ((v as f32) * scale).to_bits()).collect();
    assert_eq!(io.sink, expect);
}

#[test]
fn write_double_narrows() {
    let mut psf = session();
    let samples: Vec<u64> = [0.1f64, -0.9, 1.0e-50].iter().map(|d| d.to_bits()).collect();
    let mut io = MemIo::new();
    let total = write_double(&mut psf, &mut io, &samples, 3);
    assert_eq!(total, 3);
    let expect: Vec<u32> = samples
        .iter()
        .map(|&d| (f64::from_bits(d) as f32).to_bits())
        .collect();
    assert_eq!(io.sink, expect);
}

fn zeroed_peaks(channels: usize) -> PEAK_INFO {
    PEAK_INFO {
        peak_loc: SF_PEAK_LOCATION::SF_PEAK_START,
        version: 1,
        timestamp: 0,
        edit_number: 0,
        peaks: (0..channels).map(|_| PEAK_POS { value: 0, position: 0 }).collect(),
    }
}

#[test]
fn write_path_updates_peaks_before_swap() {
    let mut psf = session();
    psf.data_endswap = true;
    psf.peak_info = Some(zeroed_peaks(2));
    let data = bits_of(&[0.1, -0.9, 0.5, 0.2]);
    let mut io = MemIo::new();
    let total = write_float(&mut psf, &mut io, &data, 4);
    assert_eq!(total, 4);
    // peaks reflect true magnitudes, not the byte-swapped words that landed
    let info = psf.peak_info.as_ref().unwrap();
    assert_eq!(info.peaks[0].value, (0.5f32 as f64).to_bits());
    assert_eq!(info.peaks[0].position, 1);
    assert_eq!(info.peaks[1].value, (0.9f32 as f64).to_bits());
    assert_eq!(info.peaks[1].position, 0);
    assert_eq!(io.sink[0], 0.1f32.to_bits().swap_bytes());
}

#[test]
fn scaled_write_path_updates_peaks() {
    let mut psf = session();
    psf.scale_int_float = true;
    psf.write_current = 100;
    psf.peak_info = Some(zeroed_peaks(2));
    let samples: Vec<i16> = vec![100, -16384, 8192, 200];
    let mut io = MemIo::new();
    let total = host_write_s2f(&mut psf, &mut io, &samples, 4);
    assert_eq!(total, 4);
    let info = psf.peak_info.as_ref().unwrap();
    assert_eq!(info.peaks[0].value, ((8192.0f32 / 32768.0) as f64).to_bits());
    assert_eq!(info.peaks[0].position, 101);
    assert_eq!(info.peaks[1].value, ((16384.0f32 / 32768.0) as f64).to_bits());
    assert_eq!(info.peaks[1].position, 100);
}

#[test]
fn short_write_propagates() {
    let mut psf = session();
    let data = bits_of(&[0.5; 8]);
    let mut io = MemIo::new();
    io.write_limit = 3;
    let total = write_float(&mut psf, &mut io, &data, 8);
    assert_eq!(total, 3);
    assert_eq!(io.sink.len(), 3);
    assert_eq!(io.sink, bits_of(&[0.5; 3]));
}

#[test]
fn short_write_still_tracks_peaks_of_attempted_block() {
    let mut psf = session();
    psf.peak_info = Some(zeroed_peaks(2));
    let data = bits_of(&[0.1, -0.9, 0.5, 0.2]);
    let mut io = MemIo::new();
    io.write_limit = 1;
    let total = write_float(&mut psf, &mut io, &data, 4);
    assert_eq!(total, 1);
    // the whole caller block was scanned before the short write
    let info = psf.peak_info.as_ref().unwrap();
    assert_eq!(info.peaks[0].value, (0.5f32 as f64).to_bits());
    assert_eq!(info.peaks[1].value, (0.9f32 as f64).to_bits());
}
