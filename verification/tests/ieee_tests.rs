//! The software float unit against the host's hardware floats: every
//! operation must agree bit for bit on ordinary values, specials, and
//! subnormals (NaN results compare as NaN, not bit for bit).

use sndconv::ieee::f32_abs;
use sndconv::ieee::f32_div;
use sndconv::ieee::f32_lt;
use sndconv::ieee::f32_mul;
use sndconv::ieee::f32_nan_test;
use sndconv::ieee::f32_round_to_i16;
use sndconv::ieee::f32_round_to_i32;
use sndconv::ieee::f32_to_f64;
use sndconv::ieee::f64_lt;
use sndconv::ieee::f64_to_f32;
use sndconv::ieee::int_to_f32;

fn lcg_next(state: &mut u64) -> u32 {
    *state = state
        .wrapping_mul(6364136223846793005)
        .wrapping_add(1442695040888963407);
    (*state >> 32) as u32
}

fn sample_bits() -> Vec<u32> {
    let mut v: Vec<u32> = vec![
        0x0000_0000, 0x8000_0000, 0x0000_0001, 0x8000_0001, 0x007f_ffff, 0x807f_ffff,
        0x0080_0000, 0x8080_0000, 0x3f80_0000, 0xbf80_0000, 0x4000_0000, 0xc000_0000,
        0x7f7f_ffff, 0xff7f_ffff, 0x7f80_0000, 0xff80_0000, 0x7fc0_0000, 0x46ff_fe00,
        0xc700_0000, 0x3800_0000, 0x3000_0000, 0x4f00_0000, 0xcf00_0000, 0x3effffff,
        0x3f00_0000, 0x3f40_0000, 0x7f00_0000, 0x0040_0000, 0x0000_0002, 0x3dcc_cccd,
        0xbf66_6666, 0x3f5d_b22d, 0x4640_e400, 0x3c00_0000, 0x4b80_0000, 0x4b00_0001,
    ];
    let mut st: u64 = 0x1234_5678_9abc_def0;
    for _ in 0..400 {
        v.push(lcg_next(&mut st));
    }
    // values near one, where scaling edge cases live
    for k in 0..64u32 {
        v.push(0x3f80_0000u32.wrapping_sub(32) + k);
    }
    v
}

fn assert_f32_same(sw: u32, hw: f32, what: &str, a: u32, b: u32) {
    if hw.is_nan() {
        assert!(
            f32::from_bits(sw).is_nan(),
            "{} a={:#010x} b={:#010x}: sw {:#010x} not NaN",
            what,
            a,
            b,
            sw
        );
    } else {
        assert_eq!(
            sw,
            hw.to_bits(),
            "{} a={:#010x} b={:#010x}: sw {:#010x} hw {:#010x}",
            what,
            a,
            b,
            sw,
            hw.to_bits()
        );
    }
}

#[test]
fn mul_matches_hardware() {
    let vals = sample_bits();
    for &a in &vals {
        for &b in &vals {
            let hw = f32::from_bits(a) * f32::from_bits(b);
            assert_f32_same(f32_mul(a, b), hw, "mul", a, b);
        }
    }
}

#[test]
fn div_matches_hardware() {
    let vals = sample_bits();
    for &a in &vals {
        for &b in &vals {
            let hw = f32::from_bits(a) / f32::from_bits(b);
            assert_f32_same(f32_div(a, b), hw, "div", a, b);
        }
    }
}

#[test]
fn int_to_f32_matches_hardware() {
    let cases: Vec<i32> = vec![
        0,
        1,
        -1,
        2,
        -2,
        32767,
        -32768,
        65535,
        16777215,
        16777216,
        16777217,
        -16777217,
        33554433,
        33554435,
        2147483647,
        -2147483648,
        1000000007,
        -999999937,
    ];
    for &v in &cases {
        assert_eq!(int_to_f32(v), (v as f32).to_bits(), "int_to_f32 v={}", v);
    }
    let mut st: u64 = 42;
    for _ in 0..20000 {
        let v = lcg_next(&mut st) as i32;
        assert_eq!(int_to_f32(v), (v as f32).to_bits(), "int_to_f32 v={}", v);
    }
}

#[test]
fn widen_matches_hardware() {
    for &a in &sample_bits() {
        let hw = f32::from_bits(a) as f64;
        let sw = f32_to_f64(a);
        if hw.is_nan() {
            assert!(f64::from_bits(sw).is_nan(), "widen a={:#010x}", a);
        } else {
            assert_eq!(sw, hw.to_bits(), "widen a={:#010x}", a);
        }
    }
}

#[test]
fn narrow_matches_hardware() {
    let mut cases: Vec<u64> = vec![
        0,
        0x8000_0000_0000_0000,
        1,
        0x3ff0_0000_0000_0000,
        0xbff0_0000_0000_0000,
        0x7ff0_0000_0000_0000,
        0xfff0_0000_0000_0000,
        0x7ff8_0000_0000_0000,
        0x47ef_ffff_e000_0000,
        0x47ef_ffff_f000_0000,
        0x4900_0000_0000_0000,
        0x36a0_0000_0000_0000,
        0x380f_ffff_ffff_ffff,
        0x3810_0000_0000_0000,
        0x36b0_0000_0000_0001,
        0x3690_0000_0000_0000,
        0x3fd5_5555_5555_5555,
    ];
    for &a in &sample_bits() {
        cases.push((f32::from_bits(a) as f64).to_bits());
    }
    let mut st: u64 = 7;
    for _ in 0..20000 {
        let hi = lcg_next(&mut st) as u64;
        let lo = lcg_next(&mut st) as u64;
        cases.push((hi << 32) | lo);
    }
    for &d in &cases {
        let hw = f64::from_bits(d) as f32;
        let sw = f64_to_f32(d);
        if hw.is_nan() {
            assert!(f32::from_bits(sw).is_nan(), "narrow d={:#018x}", d);
        } else {
            assert_eq!(sw, hw.to_bits(), "narrow d={:#018x} sw={:#010x}", d, sw);
        }
    }
}

#[test]
fn round_to_i16_matches_hardware() {
    for &a in &sample_bits() {
        let hw = f32::from_bits(a).round() as i16;
        assert_eq!(f32_round_to_i16(a), hw, "round16 a={:#010x}", a);
    }
    let mut st: u64 = 99;
    for _ in 0..20000 {
        let a = lcg_next(&mut st);
        let hw = f32::from_bits(a).round() as i16;
        assert_eq!(f32_round_to_i16(a), hw, "round16 a={:#010x}", a);
    }
}

#[test]
fn round_to_i32_matches_hardware() {
    for &a in &sample_bits() {
        let hw = f32::from_bits(a).round() as i32;
        assert_eq!(f32_round_to_i32(a), hw, "round32 a={:#010x}", a);
    }
    let mut st: u64 = 123;
    for _ in 0..20000 {
        let a = lcg_next(&mut st);
        let hw = f32::from_bits(a).round() as i32;
        assert_eq!(f32_round_to_i32(a), hw, "round32 a={:#010x}", a);
    }
}

#[test]
fn compare_matches_hardware() {
    let vals = sample_bits();
    for &a in &vals {
        for &b in &vals {
            let hw = f32::from_bits(a) < f32::from_bits(b);
            assert_eq!(f32_lt(a, b), hw, "lt a={:#010x} b={:#010x}", a, b);
        }
    }
    let mut st: u64 = 5;
    for _ in 0..20000 {
        let a = ((lcg_next(&mut st) as u64) << 32) | lcg_next(&mut st) as u64;
        let b = ((lcg_next(&mut st) as u64) << 32) | lcg_next(&mut st) as u64;
        let hw = f64::from_bits(a) < f64::from_bits(b);
        assert_eq!(f64_lt(a, b), hw, "lt64 a={:#018x} b={:#018x}", a, b);
    }
}

#[test]
fn abs_and_nan_test() {
    assert_eq!(f32_abs((-1.5f32).to_bits()), 1.5f32.to_bits());
    assert_eq!(f32_abs(1.5f32.to_bits()), 1.5f32.to_bits());
    assert!(f32_nan_test(f32::NAN.to_bits()));
    assert!(!f32_nan_test(f32::INFINITY.to_bits()));
    assert!(!f32_nan_test(0));
}
