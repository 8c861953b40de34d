//! Conversion kernels against hardware references: scaling, rounding,
//! clipping saturation, the scaled round trip, and the PCM truncation
//! kernels.

use sndconv::kernels::bf2f_array;
use sndconv::kernels::d2f_array;
use sndconv::kernels::f2bf_array;
use sndconv::kernels::f2d_array;
use sndconv::kernels::f2i_array;
use sndconv::kernels::f2i_clip_array;
use sndconv::kernels::f2s_array;
use sndconv::kernels::f2s_clip_array;
use sndconv::kernels::i2f_array;
use sndconv::kernels::s2f_array;
use sndconv::kernels::F32_ONE;
use sndconv::pcm::bes2i_array;
use sndconv::pcm::bet2s_array;
use sndconv::pcm::bei2s_array;
use sndconv::pcm::lei2s_array;
use sndconv::pcm::les2i_array;
use sndconv::pcm::let2s_array;
use sndconv::pcm::sc2i_array;
use sndconv::pcm::sc2s_array;
use sndconv::pcm::uc2i_array;
use sndconv::pcm::uc2s_array;

fn bits_of(xs: &[f32]) -> Vec<u32> {
    xs.iter().map(|x| x.to_bits()).collect()
}

/// Clipping saturation: 2.0 at scale 32767 saturates to exactly 32767, and
/// -2.0 to exactly -32768, never a wrapped value.
#[test]
fn clip_saturates_at_bounds() {
    let src = bits_of(&[2.0, -2.0, 0.5, 1.0]);
    let scale = 32767.0f32.to_bits();
    let out = f2s_clip_array(&src, 0, 4, scale);
    assert_eq!(out[0], 32767);
    assert_eq!(out[1], -32768);
    assert_eq!(out[2], (0.5f32 * 32767.0).round() as i16);
    assert_eq!(out[3], 32767);
}

#[test]
fn clip_saturates_at_bounds_int() {
    let src = bits_of(&[2.0, -2.0, 0.25]);
    let scale = 2147483648.0f32.to_bits();
    let out = f2i_clip_array(&src, 0, 3, scale);
    assert_eq!(out[0], i32::MAX);
    assert_eq!(out[1], i32::MIN);
    assert_eq!(out[2], (0.25f32 * 2147483648.0).round() as i32);
}

/// Round trip with integer scaling: every 16-bit value, scaled to float with
/// 1/32768 and back with 32767 (float-max 1.0), lands within one LSB.
#[test]
fn scaled_roundtrip_within_one_lsb() {
    let all: Vec<i16> = (i16::MIN..=i16::MAX).collect();
    let wscale = (1.0f32 / 32768.0).to_bits();
    let floats = s2f_array(&all, 0, all.len(), wscale);
    let rscale = (32767.0f32 / 1.0).to_bits();
    let back = f2s_array(&floats, 0, floats.len(), rscale);
    for (i, &v) in all.iter().enumerate() {
        let d = (back[i] as i32) - (v as i32);
        assert!(d >= -1 && d <= 1, "v={} back={}", v, back[i]);
    }
}

#[test]
fn f2s_matches_hardware() {
    let xs: Vec<f32> = vec![0.0, 0.4999, 0.5, -0.5, 1.5, -1.5, 123.456, -9999.5, 40000.0, -40000.0];
    let src = bits_of(&xs);
    let out = f2s_array(&src, 0, src.len(), F32_ONE);
    for (i, &x) in xs.iter().enumerate() {
        assert_eq!(out[i], x.round() as i16, "x={}", x);
    }
}

#[test]
fn s2f_and_i2f_match_hardware() {
    let s: Vec<i16> = vec![0, 1, -1, 32767, -32768, 12345, -23456];
    let wscale = (1.0f32 / 32768.0).to_bits();
    let out = s2f_array(&s, 0, s.len(), wscale);
    for (i, &v) in s.iter().enumerate() {
        assert_eq!(out[i], ((v as f32) * (1.0 / 32768.0)).to_bits(), "v={}", v);
    }
    let ints: Vec<i32> = vec![0, 1, -1, i32::MAX, i32::MIN, 7_654_321];
    let wscale_i = (1.0f32 / (8.0 * 0x1000_0000u32 as f32)).to_bits();
    let out_i = i2f_array(&ints, 0, ints.len(), wscale_i);
    for (i, &v) in ints.iter().enumerate() {
        let hw = (v as f32) * (1.0 / (8.0 * 0x1000_0000u32 as f32));
        assert_eq!(out_i[i], hw.to_bits(), "v={}", v);
    }
}

#[test]
fn widen_narrow_arrays_match_hardware() {
    let xs: Vec<f32> = vec![0.0, -0.0, 1.0, -1.0, 0.1, 3.25e20, -4.5e-30];
    let src = bits_of(&xs);
    let wide = f2d_array(&src, 0, src.len());
    for (i, &x) in xs.iter().enumerate() {
        assert_eq!(wide[i], (x as f64).to_bits(), "x={}", x);
    }
    let ds: Vec<f64> = vec![0.0, 1.0, -1.0, 0.1, 1.0e300, -1.0e-300, 1.0e-40];
    let dsrc: Vec<u64> = ds.iter().map(|d| d.to_bits()).collect();
    let narrow = d2f_array(&dsrc, 0, dsrc.len());
    for (i, &d) in ds.iter().enumerate() {
        assert_eq!(narrow[i], (d as f32).to_bits(), "d={}", d);
    }
}

#[test]
fn representation_fixups_are_identity_on_ieee_hosts() {
    let mut buf = bits_of(&[1.0, -2.5, 0.0]);
    let orig = buf.clone();
    bf2f_array(&mut buf);
    assert_eq!(buf, orig);
    f2bf_array(&mut buf);
    assert_eq!(buf, orig);
}

#[test]
fn pcm_byte_kernels() {
    let sc: Vec<i8> = vec![0, 1, -1, 127, -128];
    let mut out16: Vec<i16> = vec![0; 5];
    sc2s_array(&sc, 5, &mut out16);
    assert_eq!(out16, vec![0, 256, -256, 32512, -32768]);

    let uc: Vec<u8> = vec![0, 128, 255, 1];
    let mut out16b: Vec<i16> = vec![0; 4];
    uc2s_array(&uc, 4, &mut out16b);
    assert_eq!(out16b, vec![-32768, 0, 32512, -32512]);

    let mut out32: Vec<i32> = vec![0; 5];
    sc2i_array(&sc, 5, &mut out32);
    assert_eq!(out32, vec![0, 1 << 24, -1 << 24, 127 << 24, -128 << 24]);

    let mut out32b: Vec<i32> = vec![0; 4];
    uc2i_array(&uc, 4, &mut out32b);
    assert_eq!(out32b, vec![-128 << 24, 0, 127 << 24, -127 << 24]);
}

#[test]
fn pcm_triplet_kernels_truncate() {
    // 0x123456 little-endian on disk: 56 34 12; the high two bytes are 0x1234.
    let le: Vec<u8> = vec![0x56, 0x34, 0x12, 0xff, 0xff, 0xff];
    let mut out: Vec<i16> = vec![0; 2];
    let2s_array(&le, 2, &mut out);
    assert_eq!(out, vec![0x1234, -1]);

    let be: Vec<u8> = vec![0x12, 0x34, 0x56, 0x80, 0x00, 0x01];
    let mut outb: Vec<i16> = vec![0; 2];
    bet2s_array(&be, 2, &mut outb);
    assert_eq!(outb, vec![0x1234, -32768]);
}

#[test]
fn pcm_word_kernels_take_high_bits() {
    let host_little = cfg_host_little();
    let words: Vec<i32> = vec![0x12345678u32 as i32, 0x80000000u32 as i32];
    let le_words: Vec<i32> = words
        .iter()
        .map(|w| i32::from_le_bytes(w.to_le_bytes()))
        .collect();
    let mut out: Vec<i16> = vec![0; 2];
    lei2s_array(&le_words, 2, &mut out, host_little);
    // on any host: the value stored little-endian is 0x12345678; high 16 bits 0x1234
    if host_little {
        assert_eq!(out, vec![0x1234, i16::MIN]);
    }

    let shorts: Vec<i16> = vec![0x1234, -2];
    let mut out32: Vec<i32> = vec![0; 2];
    les2i_array(&shorts, 2, &mut out32, host_little);
    if host_little {
        assert_eq!(out32, vec![0x12340000u32 as i32, 0xfffe0000u32 as i32]);
    }

    let mut outbe: Vec<i16> = vec![0; 2];
    bei2s_array(&le_words, 2, &mut outbe, host_little);
    if host_little {
        // byte-order corrected: 0x12345678 becomes 0x78563412; high 16 bits
        assert_eq!(outbe[0], 0x7856);
    }

    let mut out32b: Vec<i32> = vec![0; 2];
    bes2i_array(&shorts, 2, &mut out32b, host_little);
    if host_little {
        assert_eq!(out32b[0], 0x34120000u32 as i32);
    }
}

fn cfg_host_little() -> bool {
    u32::from_ne_bytes([1, 0, 0, 0]) == 1
}
