//! Byte-order primitives: swapping twice restores any buffer, copies leave
//! the source alone, and the packed accessors agree with manual byte math.

use sndconv::endian::endswap_double_array;
use sndconv::endian::endswap_double_copy;
use sndconv::endian::endswap_f32_int_copy;
use sndconv::endian::endswap_float_array;
use sndconv::endian::endswap_float_copy;
use sndconv::endian::endswap_int64_t_array;
use sndconv::endian::endswap_int64_t_copy;
use sndconv::endian::endswap_int_array;
use sndconv::endian::endswap_int_copy;
use sndconv::endian::endswap_int_f32_copy;
use sndconv::endian::endswap_short_array;
use sndconv::endian::endswap_short_copy;
use sndconv::endian::float32_be_read;
use sndconv::endian::float32_be_write;
use sndconv::endian::float32_le_read;
use sndconv::endian::float32_le_write;
use sndconv::endian::psf_get_be24;
use sndconv::endian::psf_get_le24;
use sndconv::endian::swap16;
use sndconv::endian::swap32;
use sndconv::endian::swap64;

#[test]
fn swap_singles() {
    assert_eq!(swap16(0x1234), 0x3412);
    assert_eq!(swap32(0x12345678), 0x78563412);
    assert_eq!(swap64(0x0102030405060708), 0x0807060504030201);
    assert_eq!(swap16(0x1234u16.swap_bytes()), 0x1234);
}

/// Byte-swap involution: swapping any buffer twice yields the original,
/// including the empty buffer.
#[test]
fn swap_twice_is_identity() {
    let orig: Vec<i32> = vec![0x12345678, -1, 0, i32::MIN, 0x0a0b0c0d];
    let mut buf = orig.clone();
    endswap_int_array(&mut buf);
    assert_ne!(buf, orig);
    endswap_int_array(&mut buf);
    assert_eq!(buf, orig);

    let mut empty: Vec<i32> = Vec::new();
    endswap_int_array(&mut empty);
    assert_eq!(empty, Vec::<i32>::new());

    let orig16: Vec<i16> = vec![0x1234, -2, 0x7fff];
    let mut b16 = orig16.clone();
    endswap_short_array(&mut b16);
    endswap_short_array(&mut b16);
    assert_eq!(b16, orig16);

    let orig64: Vec<i64> = vec![0x0102030405060708, -3];
    let mut b64 = orig64.clone();
    endswap_int64_t_array(&mut b64);
    endswap_int64_t_array(&mut b64);
    assert_eq!(b64, orig64);

    let origf: Vec<u32> = vec![1.5f32.to_bits(), (-2.25f32).to_bits()];
    let mut bf = origf.clone();
    endswap_float_array(&mut bf);
    endswap_float_array(&mut bf);
    assert_eq!(bf, origf);

    let origd: Vec<u64> = vec![1.5f64.to_bits(), (-2.25f64).to_bits()];
    let mut bd = origd.clone();
    endswap_double_array(&mut bd);
    endswap_double_array(&mut bd);
    assert_eq!(bd, origd);
}

#[test]
fn swap_copies_match_in_place() {
    let src16: Vec<i16> = vec![0x1234, -2];
    let mut dst16: Vec<i16> = vec![0; 2];
    endswap_short_copy(&mut dst16, &src16);
    assert_eq!(dst16, vec![0x3412, (-2i16).swap_bytes()]);
    assert_eq!(src16, vec![0x1234, -2]);

    let src32: Vec<i32> = vec![0x12345678];
    let mut dst32: Vec<i32> = vec![0];
    endswap_int_copy(&mut dst32, &src32);
    assert_eq!(dst32, vec![0x78563412]);

    let src64: Vec<i64> = vec![0x0102030405060708];
    let mut dst64: Vec<i64> = vec![0];
    endswap_int64_t_copy(&mut dst64, &src64);
    assert_eq!(dst64, vec![0x0807060504030201]);

    let srcf: Vec<u32> = vec![1.0f32.to_bits()];
    let mut dstf: Vec<u32> = vec![0];
    endswap_float_copy(&mut dstf, &srcf);
    assert_eq!(dstf, vec![1.0f32.to_bits().swap_bytes()]);

    let srcd: Vec<u64> = vec![1.0f64.to_bits()];
    let mut dstd: Vec<u64> = vec![0];
    endswap_double_copy(&mut dstd, &srcd);
    assert_eq!(dstd, vec![1.0f64.to_bits().swap_bytes()]);

    let ints: Vec<i32> = vec![0x3f800000];
    let mut floats: Vec<u32> = vec![0];
    endswap_f32_int_copy(&mut floats, &ints);
    assert_eq!(floats, vec![0x3f800000u32.swap_bytes()]);

    let fsrc: Vec<u32> = vec![1.0f32.to_bits()];
    let mut iout: Vec<i32> = vec![0];
    endswap_int_f32_copy(&mut iout, &fsrc);
    assert_eq!(iout, vec![1.0f32.to_bits().swap_bytes() as i32]);
}

#[test]
fn packed_24_bit_accessors() {
    let bytes: Vec<u8> = vec![0x12, 0x34, 0x56, 0xff];
    assert_eq!(psf_get_be24(&bytes, 0), 0x12345600);
    assert_eq!(psf_get_le24(&bytes, 0), 0x56341200);
    assert_eq!(psf_get_be24(&bytes, 1), 0x3456ff00);
    let high: Vec<u8> = vec![0xff, 0x00, 0x00];
    assert_eq!(psf_get_be24(&high, 0), 0xff000000u32 as i32);
}

#[test]
fn float32_byte_io() {
    let x = 1.23456789f32;
    assert_eq!(float32_le_read(&x.to_le_bytes()), x.to_bits());
    assert_eq!(float32_be_read(&x.to_be_bytes()), x.to_bits());
    let mut out: Vec<u8> = vec![0; 4];
    float32_le_write(x.to_bits(), &mut out);
    assert_eq!(out, x.to_le_bytes().to_vec());
    float32_be_write(x.to_bits(), &mut out);
    assert_eq!(out, x.to_be_bytes().to_vec());
}
