//! Software IEEE-754 arithmetic on bit patterns.
//!
//! The conversion kernels work on 32-bit and 64-bit binary floating-point
//! samples carried as their bit patterns (`u32` / `u64`).  This module gives
//! every operation the pipeline needs — multiply, divide, integer/float
//! conversion in both directions, widen/narrow, magnitude and ordering — as
//! pure integer code, with a specification function that pins down the exact
//! result bits.  Rounding is round-to-nearest, ties-to-even, as the binary
//! interchange formats prescribe; conversions to integer round half away from
//! zero and saturate.  A NaN result is always the canonical quiet NaN.
//!
//! This doubles as the software-emulated path for hosts whose native float
//! representation is not IEEE-754 byte-compatible: nothing here depends on
//! the machine's own float unit.

use vstd::prelude::*;

use vstd::arithmetic::mul::lemma_mul_inequality;
use vstd::arithmetic::mul::lemma_mul_strict_inequality;
use vstd::arithmetic::mul::lemma_mul_strictly_positive;
use vstd::arithmetic::power2::lemma2_to64;
use vstd::arithmetic::power2::lemma_pow2_pos;
use vstd::arithmetic::power2::lemma_pow2_strictly_increases;
use vstd::arithmetic::power2::lemma_pow2_unfold;
use vstd::arithmetic::power2::pow2;
use vstd::std_specs::bits::u64_leading_zeros;
use vstd::std_specs::bits::axiom_u64_leading_zeros;

verus! {

/// Exponent field of a 32-bit pattern.
pub open spec fn f32_exp(b: u32) -> u32 {
    (b >> 23) & 0xff
}

/// Fraction field of a 32-bit pattern.
pub open spec fn f32_frac(b: u32) -> u32 {
    b & 0x007f_ffff
}

/// Whether a 32-bit pattern is a NaN.
pub open spec fn f32_is_nan(b: u32) -> bool {
    f32_exp(b) == 255 && f32_frac(b) != 0
}

/// Whether a 32-bit pattern is an infinity.
pub open spec fn f32_is_inf(b: u32) -> bool {
    f32_exp(b) == 255 && f32_frac(b) == 0
}

/// Exponent field of a 64-bit pattern.
pub open spec fn f64_exp(b: u64) -> u64 {
    (b >> 52) & 0x7ff
}

/// Fraction field of a 64-bit pattern.
pub open spec fn f64_frac(b: u64) -> u64 {
    b & 0x000f_ffff_ffff_ffff
}

/// Whether a 64-bit pattern is a NaN.
pub open spec fn f64_is_nan(b: u64) -> bool {
    f64_exp(b) == 2047 && f64_frac(b) != 0
}

/// Round `p / 2^k` to the nearest integer, ties to even.
pub open spec fn spec_rne_shift(p: u64, k: u64) -> u64
    recommends
        1 <= k <= 63,
{
    let q = p >> k;
    let half = 1u64 << (k - 1) as u64;
    let r = p & (((1u64 << k) - 1) as u64);
    if r > half || (r == half && q & 1 == 1) {
        (q + 1) as u64
    } else {
        q
    }
}

/// The significand `p` placed on the 32-bit float grid.
///
/// `p * 2^e` is the wanted value scaled by `2^149` (so the least subnormal is
/// `1` and the least normal is `2^23`).  The result is rounded to nearest,
/// ties to even, packed with the sign, and overflows to infinity.  The scaled
/// integer of a subnormal or least-binade normal is itself the magnitude bit
/// pattern, so packing is a single addition of `u * 2^23` in the wider case.
pub open spec fn spec_round_pack(neg: bool, p: u64, e: int) -> u32
    recommends
        p > 0,
        -1000 <= e <= 1200,
{
    let sbit: u32 = if neg {
        0x8000_0000u32
    } else {
        0u32
    };
    let l = 64 - u64_leading_zeros(p);
    if l + e >= 25 {
        let u = l + e - 24;
        let m = if l <= 24 {
            p << ((24 - l) as u64)
        } else {
            spec_rne_shift(p, (l - 24) as u64)
        };
        if u >= 254 {
            sbit | 0x7f80_0000
        } else {
            sbit | ((m + u * 0x80_0000) as u32)
        }
    } else {
        let r = if e >= 0 {
            p << (e as u64)
        } else if e <= -64 {
            0u64
        } else {
            spec_rne_shift(p, (-e) as u64)
        };
        sbit | (r as u32)
    }
}

/// Product of two 32-bit patterns, rounded to nearest, ties to even.
pub open spec fn spec_f32_mul(a: u32, b: u32) -> u32 {
    let neg = (a >> 31) != (b >> 31);
    let sbit: u32 = if neg {
        0x8000_0000u32
    } else {
        0u32
    };
    let ea = f32_exp(a);
    let eb = f32_exp(b);
    let fa = f32_frac(a);
    let fb = f32_frac(b);
    if ea == 255 || eb == 255 {
        if f32_is_nan(a) || f32_is_nan(b) {
            0x7fc0_0000u32
        } else if (ea == 255 && eb == 0 && fb == 0) || (eb == 255 && ea == 0 && fa == 0) {
            0x7fc0_0000u32
        } else {
            sbit | 0x7f80_0000
        }
    } else {
        let ma: u64 = if ea == 0 {
            fa as u64
        } else {
            (fa + 0x80_0000) as u64
        };
        let mb: u64 = if eb == 0 {
            fb as u64
        } else {
            (fb + 0x80_0000) as u64
        };
        if ma == 0 || mb == 0 {
            sbit
        } else {
            let ea_adj: int = if ea == 0 {
                0
            } else {
                ea - 1
            };
            let eb_adj: int = if eb == 0 {
                0
            } else {
                eb - 1
            };
            spec_round_pack(neg, (ma * mb) as u64, ea_adj + eb_adj - 149)
        }
    }
}

/// Quotient of two 32-bit patterns, rounded to nearest, ties to even.
pub open spec fn spec_f32_div(a: u32, b: u32) -> u32 {
    let neg = (a >> 31) != (b >> 31);
    let sbit: u32 = if neg {
        0x8000_0000u32
    } else {
        0u32
    };
    let ea = f32_exp(a);
    let eb = f32_exp(b);
    let fa = f32_frac(a);
    let fb = f32_frac(b);
    if ea == 255 || eb == 255 {
        if f32_is_nan(a) || f32_is_nan(b) {
            0x7fc0_0000u32
        } else if ea == 255 && eb == 255 {
            0x7fc0_0000u32
        } else if ea == 255 {
            sbit | 0x7f80_0000
        } else {
            sbit
        }
    } else {
        let ma: u64 = if ea == 0 {
            fa as u64
        } else {
            (fa + 0x80_0000) as u64
        };
        let mb: u64 = if eb == 0 {
            fb as u64
        } else {
            (fb + 0x80_0000) as u64
        };
        if ma == 0 && mb == 0 {
            0x7fc0_0000u32
        } else if mb == 0 {
            sbit | 0x7f80_0000
        } else if ma == 0 {
            sbit
        } else {
            let ea_adj: int = if ea == 0 {
                0
            } else {
                ea - 1
            };
            let eb_adj: int = if eb == 0 {
                0
            } else {
                eb - 1
            };
            let la = 64 - u64_leading_zeros(ma);
            let lb = 64 - u64_leading_zeros(mb);
            let na = ma << ((24 - la) as u64);
            let nb = mb << ((24 - lb) as u64);
            let q0 = (na << 26) / nb;
            let r0 = (na << 26) % nb;
            let p = if r0 != 0 {
                (2 * q0 + 1) as u64
            } else {
                (2 * q0) as u64
            };
            spec_round_pack(neg, p, (ea_adj - (24 - la)) - (eb_adj - (24 - lb)) + 122)
        }
    }
}

/// A 32-bit signed integer converted to the nearest 32-bit float pattern.
pub open spec fn spec_i32_to_f32(v: i32) -> u32 {
    if v == 0 {
        0u32
    } else {
        let neg = v < 0;
        let p: u64 = if v < 0 {
            (-(v as int)) as u64
        } else {
            v as u64
        };
        spec_round_pack(neg, p, 149)
    }
}

/// A 32-bit pattern widened to the 64-bit pattern of the same value.
pub open spec fn spec_f32_to_f64(b: u32) -> u64 {
    let s63: u64 = ((b >> 31) as u64) << 63;
    let e = f32_exp(b);
    let f = f32_frac(b);
    if e == 255 {
        s63 | 0x7ff0_0000_0000_0000 | ((f as u64) << 29)
    } else if e == 0 {
        if f == 0 {
            s63
        } else {
            let lz = u64_leading_zeros(f as u64);
            let shift = (lz - 11) as u64;
            let m = (f as u64) << shift;
            s63 | ((((926 - lz + 11) as u64) * 0x10_0000_0000_0000 + ((m
                - 0x10_0000_0000_0000) as u64)) as u64)
        }
    } else {
        s63 | ((((e + 896) as u64) << 52) | ((f as u64) << 29))
    }
}

/// A 64-bit pattern narrowed to the nearest 32-bit pattern.
pub open spec fn spec_f64_to_f32(b: u64) -> u32 {
    let sbit: u32 = if b >> 63 == 1 {
        0x8000_0000u32
    } else {
        0u32
    };
    let e = f64_exp(b);
    let f = f64_frac(b);
    if e == 2047 {
        if f != 0 {
            0x7fc0_0000u32
        } else {
            sbit | 0x7f80_0000
        }
    } else {
        let m: u64 = if e == 0 {
            f
        } else {
            (f + 0x10_0000_0000_0000) as u64
        };
        if m == 0 {
            sbit
        } else {
            let e_adj: int = if e == 0 {
                0
            } else {
                e - 1
            };
            spec_round_pack(b >> 63 == 1, m, e_adj - 925)
        }
    }
}

/// Round `p / 2^k` to the nearest integer, ties away from zero.
pub open spec fn spec_rha_shift(p: u64, k: u64) -> u64
    recommends
        1 <= k <= 63,
{
    let q = p >> k;
    let half = 1u64 << (k - 1) as u64;
    let r = p & (((1u64 << k) - 1) as u64);
    if r >= half {
        (q + 1) as u64
    } else {
        q
    }
}

/// Magnitude of a finite 32-bit pattern rounded to an integer, half away
/// from zero.  The result is clamped at `2^32`, more than either saturating
/// cast can keep.
pub open spec fn spec_f32_round_mag(b: u32) -> u64 {
    let e = f32_exp(b);
    let f = f32_frac(b);
    let m: u64 = if e == 0 {
        f as u64
    } else {
        (f + 0x80_0000) as u64
    };
    if e >= 160 {
        0x1_0000_0000u64
    } else if e >= 150 {
        m << ((e - 150) as u64)
    } else {
        let s = (150 - e) as u64;
        if s >= 25 {
            0u64
        } else {
            spec_rha_shift(m, s)
        }
    }
}

/// `round()` to nearest half-away, then a saturating cast to `i16`:
/// NaN gives 0, out-of-range values give the nearest bound.
pub open spec fn spec_f32_round_to_i16(b: u32) -> i16 {
    if f32_is_nan(b) {
        0i16
    } else {
        let mag = spec_f32_round_mag(b);
        if b >> 31 == 1 {
            if mag >= 32768 {
                -32768i16
            } else {
                (-(mag as int)) as i16
            }
        } else {
            if mag >= 32767 {
                32767i16
            } else {
                mag as i16
            }
        }
    }
}

/// `round()` to nearest half-away, then a saturating cast to `i32`:
/// NaN gives 0, out-of-range values give the nearest bound.
pub open spec fn spec_f32_round_to_i32(b: u32) -> i32 {
    if f32_is_nan(b) {
        0i32
    } else {
        let mag = spec_f32_round_mag(b);
        if b >> 31 == 1 {
            if mag >= 0x8000_0000 {
                -0x8000_0000i32
            } else {
                (-(mag as int)) as i32
            }
        } else {
            if mag >= 0x7fff_ffff {
                0x7fff_ffffi32
            } else {
                mag as i32
            }
        }
    }
}

/// Signed-magnitude order key of a 32-bit pattern: key order is value order
/// for every pair of non-NaN patterns, and the two zeros share a key.
pub open spec fn spec_f32_key(b: u32) -> int {
    let mag = (b & 0x7fff_ffff) as int;
    if b >> 31 == 1 {
        -mag
    } else {
        mag
    }
}

/// Signed-magnitude order key of a 64-bit pattern.
pub open spec fn spec_f64_key(b: u64) -> int {
    let mag = (b & 0x7fff_ffff_ffff_ffff) as int;
    if b >> 63 == 1 {
        -mag
    } else {
        mag
    }
}

/// IEEE `<` on 32-bit patterns: false whenever either side is NaN.
pub open spec fn spec_f32_lt(a: u32, b: u32) -> bool {
    !f32_is_nan(a) && !f32_is_nan(b) && spec_f32_key(a) < spec_f32_key(b)
}

/// IEEE `<` on 64-bit patterns: false whenever either side is NaN.
pub open spec fn spec_f64_lt(a: u64, b: u64) -> bool {
    !f64_is_nan(a) && !f64_is_nan(b) && spec_f64_key(a) < spec_f64_key(b)
}

/// Magnitude of a 32-bit pattern: the sign bit cleared.
pub open spec fn spec_f32_abs(b: u32) -> u32 {
    b & 0x7fff_ffff
}

/// Round `p / 2^k` to the nearest integer, ties to even.
fn rne_shift(p: u64, k: u64) -> (r: u64)
    requires
        1 <= k <= 63,
    ensures
        r == spec_rne_shift(p, k),
{
    proof {
        assert(p >> k <= 0x7fff_ffff_ffff_ffffu64 && 1u64 << k >= 1u64) by (bit_vector)
            requires
                1 <= k <= 63,
        ;
    }
    let q = p >> k;
    let half = 1u64 << (k - 1);
    let r = p & ((1u64 << k) - 1);
    if r > half || (r == half && q & 1 == 1) {
        q + 1
    } else {
        q
    }
}

/// Round `p / 2^k` to the nearest integer, ties away from zero.
fn rha_shift(p: u64, k: u64) -> (r: u64)
    requires
        1 <= k <= 63,
    ensures
        r == spec_rha_shift(p, k),
{
    proof {
        assert(p >> k <= 0x7fff_ffff_ffff_ffffu64 && 1u64 << k >= 1u64) by (bit_vector)
            requires
                1 <= k <= 63,
        ;
    }
    let q = p >> k;
    let half = 1u64 << (k - 1);
    let r = p & ((1u64 << k) - 1);
    if r >= half {
        q + 1
    } else {
        q
    }
}

/// Round the scaled significand `p * 2^e` onto the 32-bit float grid and
/// pack it with the sign; see [`spec_round_pack`].
fn round_pack(neg: bool, p: u64, e: i32) -> (r: u32)
    requires
        p > 0,
        -1000 <= e <= 1200,
    ensures
        r == spec_round_pack(neg, p, e as int),
{
    let sbit: u32 = if neg {
        0x8000_0000u32
    } else {
        0u32
    };
    let lz = p.leading_zeros();
    proof {
        axiom_u64_leading_zeros(p);
        assert(lz <= 63);
        assert(p >> ((64 - lz) as u64) == 0);
    }
    let l: i32 = 64 - lz as i32;
    if l + e >= 25 {
        let u: i32 = l + e - 24;
        let m: u64 = if l <= 24 {
            proof {
                assert((p << ((24 - (64 - lz)) as u64)) < 0x100_0000u64) by (bit_vector)
                    requires
                        40 <= lz <= 63,
                        p >> ((64 - lz) as u64) == 0,
                ;
            }
            p << ((24 - l) as u64)
        } else {
            proof {
                assert((p >> (((64 - lz) - 24) as u64)) < 0x100_0000u64) by (bit_vector)
                    requires
                        lz < 40,
                        p >> ((64 - lz) as u64) == 0,
                ;
            }
            rne_shift(p, (l - 24) as u64)
        };
        proof {
            assert(m <= 0x100_0000u64);
        }
        if u >= 254 {
            sbit | 0x7f80_0000
        } else {
            sbit | ((m + (u as u64) * 0x80_0000) as u32)
        }
    } else {
        let r: u64 = if e >= 0 {
            p << (e as u64)
        } else if e <= -64 {
            0u64
        } else {
            rne_shift(p, (-e) as u64)
        };
        sbit | (r as u32)
    }
}

/// Multiply two 32-bit patterns, rounding to nearest, ties to even.
pub fn f32_mul(a: u32, b: u32) -> (r: u32)
    ensures
        r == spec_f32_mul(a, b),
{
    let neg = (a >> 31) != (b >> 31);
    let sbit: u32 = if neg {
        0x8000_0000u32
    } else {
        0u32
    };
    let ea = (a >> 23) & 0xff;
    let eb = (b >> 23) & 0xff;
    let fa = a & 0x007f_ffff;
    let fb = b & 0x007f_ffff;
    proof {
        assert((a & 0x007f_ffff) < 0x80_0000 && (b & 0x007f_ffff) < 0x80_0000 && ((a >> 23) & 0xff)
            <= 0xff && ((b >> 23) & 0xff) <= 0xff) by (bit_vector);
    }
    if ea == 255 || eb == 255 {
        if (ea == 255 && fa != 0) || (eb == 255 && fb != 0) {
            0x7fc0_0000
        } else if (ea == 255 && eb == 0 && fb == 0) || (eb == 255 && ea == 0 && fa == 0) {
            0x7fc0_0000
        } else {
            sbit | 0x7f80_0000
        }
    } else {
        let ma: u64 = if ea == 0 {
            fa as u64
        } else {
            fa as u64 + 0x80_0000
        };
        let mb: u64 = if eb == 0 {
            fb as u64
        } else {
            fb as u64 + 0x80_0000
        };
        if ma == 0 || mb == 0 {
            sbit
        } else {
            proof {
                assert(1 <= ma * mb < 0x1_0000_0000_0000) by (nonlinear_arith)
                    requires
                        1 <= ma < 0x100_0000,
                        1 <= mb < 0x100_0000,
                ;
            }
            let p: u64 = ma * mb;
            let e: i32 = (if ea == 0 {
                0
            } else {
                ea as i32 - 1
            }) + (if eb == 0 {
                0
            } else {
                eb as i32 - 1
            }) - 149;
            round_pack(neg, p, e)
        }
    }
}

/// Divide one 32-bit pattern by another, rounding to nearest, ties to even.
pub fn f32_div(a: u32, b: u32) -> (r: u32)
    ensures
        r == spec_f32_div(a, b),
{
    let neg = (a >> 31) != (b >> 31);
    let sbit: u32 = if neg {
        0x8000_0000u32
    } else {
        0u32
    };
    let ea = (a >> 23) & 0xff;
    let eb = (b >> 23) & 0xff;
    let fa = a & 0x007f_ffff;
    let fb = b & 0x007f_ffff;
    proof {
        assert((a & 0x007f_ffff) < 0x80_0000 && (b & 0x007f_ffff) < 0x80_0000 && ((a >> 23) & 0xff)
            <= 0xff && ((b >> 23) & 0xff) <= 0xff) by (bit_vector);
    }
    if ea == 255 || eb == 255 {
        if (ea == 255 && fa != 0) || (eb == 255 && fb != 0) {
            0x7fc0_0000
        } else if ea == 255 && eb == 255 {
            0x7fc0_0000
        } else if ea == 255 {
            sbit | 0x7f80_0000
        } else {
            sbit
        }
    } else {
        let ma: u64 = if ea == 0 {
            fa as u64
        } else {
            fa as u64 + 0x80_0000
        };
        let mb: u64 = if eb == 0 {
            fb as u64
        } else {
            fb as u64 + 0x80_0000
        };
        if ma == 0 && mb == 0 {
            0x7fc0_0000
        } else if mb == 0 {
            sbit | 0x7f80_0000
        } else if ma == 0 {
            sbit
        } else {
            let lza = ma.leading_zeros();
            let lzb = mb.leading_zeros();
            proof {
                axiom_u64_leading_zeros(ma);
                axiom_u64_leading_zeros(mb);
                assert(40 <= lza <= 63 && (ma << ((lza - 40) as u64)) < 0x100_0000 && (ma << ((lza
                    - 40) as u64)) >= 0x80_0000) by (bit_vector)
                    requires
                        ma >> ((64 - lza) as u64) == 0,
                        (ma >> ((63 - lza) as u64)) & 1u64 != 0u64,
                        lza < 64,
                        1 <= ma < 0x100_0000,
                ;
                assert(40 <= lzb <= 63 && (mb << ((lzb - 40) as u64)) < 0x100_0000 && (mb << ((lzb
                    - 40) as u64)) >= 0x80_0000) by (bit_vector)
                    requires
                        mb >> ((64 - lzb) as u64) == 0,
                        (mb >> ((63 - lzb) as u64)) & 1u64 != 0u64,
                        lzb < 64,
                        1 <= mb < 0x100_0000,
                ;
            }
            let la: u32 = 64 - lza;
            let lb: u32 = 64 - lzb;
            let na: u64 = ma << ((24 - la) as u64);
            let nb: u64 = mb << ((24 - lb) as u64);
            proof {
                assert(na < 0x100_0000 ==> (na << 26u64) < 0x4_0000_0000_0000) by (bit_vector);
            }
            let q0: u64 = (na << 26) / nb;
            let r0: u64 = (na << 26) % nb;
            let p: u64 = if r0 != 0 {
                2 * q0 + 1
            } else {
                2 * q0
            };
            proof {
                assert(na == ma << ((lza - 40) as u64));
                assert(na >= 0x80_0000);
                assert(1 <= na < 0x100_0000 ==> (na << 26u64) >= 1) by (bit_vector);
                assert((na << 26) >= 1);
                vstd::arithmetic::div_mod::lemma_fundamental_div_mod(
                    (na << 26) as int,
                    nb as int,
                );
                if r0 == 0 && q0 == 0 {
                    assert((na << 26) as int == nb as int * (q0 as int) + (r0 as int));
                    assert(nb as int * (q0 as int) == 0) by (nonlinear_arith)
                        requires
                            q0 as int == 0,
                    ;
                    assert(false);
                }
            }
            let e: i32 = ((if ea == 0 {
                0i32
            } else {
                ea as i32 - 1
            }) - (24 - la as i32)) - ((if eb == 0 {
                0i32
            } else {
                eb as i32 - 1
            }) - (24 - lb as i32)) + 122;
            round_pack(neg, p, e)
        }
    }
}

/// Convert a 32-bit signed integer to the nearest 32-bit float pattern.
pub fn int_to_f32(v: i32) -> (r: u32)
    ensures
        r == spec_i32_to_f32(v),
{
    if v == 0 {
        0
    } else {
        let neg = v < 0;
        let p: u64 = if v < 0 {
            (-(v as i64)) as u64
        } else {
            v as u64
        };
        round_pack(neg, p, 149)
    }
}

/// Widen a 32-bit pattern to the 64-bit pattern of the same value.
pub fn f32_to_f64(b: u32) -> (r: u64)
    ensures
        r == spec_f32_to_f64(b),
{
    let s63: u64 = ((b >> 31) as u64) << 63;
    let e = (b >> 23) & 0xff;
    let f = b & 0x007f_ffff;
    proof {
        assert((b & 0x007f_ffff) < 0x80_0000 && (b >> 31) <= 1 && ((b >> 23) & 0xff) <= 0xff)
            by (bit_vector);
    }
    if e == 255 {
        s63 | 0x7ff0_0000_0000_0000 | ((f as u64) << 29)
    } else if e == 0 {
        if f == 0 {
            s63
        } else {
            let fw: u64 = f as u64;
            let lz = fw.leading_zeros();
            proof {
                axiom_u64_leading_zeros(fw);
                assert(41 <= lz <= 63 && 0x10_0000_0000_0000 <= (fw << ((lz - 11) as u64))
                    < 0x20_0000_0000_0000) by (bit_vector)
                    requires
                        fw >> ((64 - lz) as u64) == 0,
                        (fw >> ((63 - lz) as u64)) & 1u64 != 0u64,
                        lz < 64,
                        1 <= fw < 0x80_0000,
                ;
            }
            let shift: u32 = lz - 11;
            let m: u64 = fw << (shift as u64);
            s63 | (((926 - lz + 11) as u64) * 0x10_0000_0000_0000 + (m - 0x10_0000_0000_0000))
        }
    } else {
        s63 | ((((e + 896) as u64) << 52) | ((f as u64) << 29))
    }
}

/// Narrow a 64-bit pattern to the nearest 32-bit pattern.
pub fn f64_to_f32(b: u64) -> (r: u32)
    ensures
        r == spec_f64_to_f32(b),
{
    let sbit: u32 = if b >> 63 == 1 {
        0x8000_0000u32
    } else {
        0u32
    };
    let e = (b >> 52) & 0x7ff;
    let f = b & 0x000f_ffff_ffff_ffff;
    proof {
        assert((b & 0x000f_ffff_ffff_ffff) < 0x10_0000_0000_0000 && ((b >> 52) & 0x7ff) <= 0x7ff)
            by (bit_vector);
    }
    if e == 2047 {
        if f != 0 {
            0x7fc0_0000
        } else {
            sbit | 0x7f80_0000
        }
    } else {
        let m: u64 = if e == 0 {
            f
        } else {
            f + 0x10_0000_0000_0000
        };
        if m == 0 {
            sbit
        } else {
            let e_adj: i32 = if e == 0 {
                0
            } else {
                e as i32 - 1
            };
            round_pack(b >> 63 == 1, m, e_adj - 925)
        }
    }
}

/// Round the magnitude of a finite or infinite 32-bit pattern to an integer,
/// half away from zero, clamped at `2^32`.
fn f32_round_mag(b: u32) -> (r: u64)
    ensures
        r == spec_f32_round_mag(b),
{
    let e = (b >> 23) & 0xff;
    let f = b & 0x007f_ffff;
    proof {
        assert((b & 0x007f_ffff) < 0x80_0000 && ((b >> 23) & 0xff) <= 0xff) by (bit_vector);
    }
    let m: u64 = if e == 0 {
        f as u64
    } else {
        f as u64 + 0x80_0000
    };
    if e >= 160 {
        0x1_0000_0000
    } else if e >= 150 {
        proof {
            assert(m <= 0x100_0000 && e - 150 <= 9 ==> (m << ((e - 150) as u64)) == m * (1u64 << ((e
                - 150) as u64)) && (m << ((e - 150) as u64)) <= 0x200_0000_0000) by (bit_vector);
        }
        m << ((e - 150) as u64)
    } else {
        let s: u32 = 150 - e;
        if s >= 25 {
            0
        } else {
            rha_shift(m, s as u64)
        }
    }
}

/// `round()` then a saturating cast to `i16`: NaN gives 0, out-of-range
/// values the nearest bound.
pub fn f32_round_to_i16(b: u32) -> (r: i16)
    ensures
        r == spec_f32_round_to_i16(b),
{
    let e = (b >> 23) & 0xff;
    let f = b & 0x007f_ffff;
    if e == 255 && f != 0 {
        return 0;
    }
    let mag = f32_round_mag(b);
    if b >> 31 == 1 {
        if mag >= 32768 {
            -32768
        } else {
            -(mag as i16)
        }
    } else {
        if mag >= 32767 {
            32767
        } else {
            mag as i16
        }
    }
}

/// `round()` then a saturating cast to `i32`: NaN gives 0, out-of-range
/// values the nearest bound.
pub fn f32_round_to_i32(b: u32) -> (r: i32)
    ensures
        r == spec_f32_round_to_i32(b),
{
    let e = (b >> 23) & 0xff;
    let f = b & 0x007f_ffff;
    if e == 255 && f != 0 {
        return 0;
    }
    let mag = f32_round_mag(b);
    if b >> 31 == 1 {
        if mag >= 0x8000_0000 {
            -0x8000_0000
        } else {
            -((mag as i64) as i32)
        }
    } else {
        if mag >= 0x7fff_ffff {
            0x7fff_ffff
        } else {
            mag as i32
        }
    }
}

/// IEEE `<` on 32-bit patterns: false whenever either side is NaN.
pub fn f32_lt(a: u32, b: u32) -> (r: bool)
    ensures
        r == spec_f32_lt(a, b),
{
    let ea = (a >> 23) & 0xff;
    let eb = (b >> 23) & 0xff;
    if (ea == 255 && (a & 0x007f_ffff) != 0) || (eb == 255 && (b & 0x007f_ffff) != 0) {
        return false;
    }
    let ka: i64 = if a >> 31 == 1 {
        -((a & 0x7fff_ffff) as i64)
    } else {
        (a & 0x7fff_ffff) as i64
    };
    let kb: i64 = if b >> 31 == 1 {
        -((b & 0x7fff_ffff) as i64)
    } else {
        (b & 0x7fff_ffff) as i64
    };
    ka < kb
}

/// IEEE `<` on 64-bit patterns: false whenever either side is NaN.
pub fn f64_lt(a: u64, b: u64) -> (r: bool)
    ensures
        r == spec_f64_lt(a, b),
{
    let ea = (a >> 52) & 0x7ff;
    let eb = (b >> 52) & 0x7ff;
    if (ea == 2047 && (a & 0x000f_ffff_ffff_ffff) != 0) || (eb == 2047 && (b
        & 0x000f_ffff_ffff_ffff) != 0) {
        return false;
    }
    proof {
        assert((a & 0x7fff_ffff_ffff_ffff) <= 0x7fff_ffff_ffff_ffff && (b
            & 0x7fff_ffff_ffff_ffff) <= 0x7fff_ffff_ffff_ffff) by (bit_vector);
    }
    let ka: i64 = if a >> 63 == 1 {
        -((a & 0x7fff_ffff_ffff_ffff) as i64)
    } else {
        (a & 0x7fff_ffff_ffff_ffff) as i64
    };
    let kb: i64 = if b >> 63 == 1 {
        -((b & 0x7fff_ffff_ffff_ffff) as i64)
    } else {
        (b & 0x7fff_ffff_ffff_ffff) as i64
    };
    ka < kb
}

/// Magnitude of a 32-bit pattern: the sign bit cleared.
pub fn f32_abs(b: u32) -> (r: u32)
    ensures
        r == spec_f32_abs(b),
{
    b & 0x7fff_ffff
}

/// Whether a 32-bit pattern is a NaN.
pub fn f32_nan_test(b: u32) -> (r: bool)
    ensures
        r == f32_is_nan(b),
{
    ((b >> 23) & 0xff) == 255 && (b & 0x007f_ffff) != 0
}

/// Magnitude pattern `m` (the sign bit cleared) as the value it denotes,
/// scaled by `2^149` so the least subnormal is 1: a subnormal is its fraction
/// field, a normal is the fraction with its hidden bit times a power of two,
/// and the infinity pattern sits above every finite value.
pub open spec fn f32_scaled_mag(m: u32) -> int {
    let e = (m >> 23) as int;
    let f = (m & 0x007f_ffff) as int;
    if e == 0 {
        f
    } else {
        (0x80_0000 + f) * pow2((e - 1) as nat)
    }
}

/// A non-NaN 32-bit pattern as the value it denotes, scaled by `2^149`.
/// The two zero patterns both denote 0.
pub open spec fn f32_scaled(b: u32) -> int {
    if b >> 31 == 1 {
        -f32_scaled_mag(b & 0x7fff_ffff)
    } else {
        f32_scaled_mag(b & 0x7fff_ffff)
    }
}

/// The magnitude encoding is strictly increasing: a larger magnitude pattern
/// denotes a strictly larger value.
proof fn lemma_f32_mag_monotone(m1: u32, m2: u32)
    requires
        m1 < m2,
        m2 <= 0x7f80_0000,
    ensures
        f32_scaled_mag(m1) < f32_scaled_mag(m2),
{
    let e1 = (m1 >> 23) as int;
    let f1 = (m1 & 0x007f_ffff) as int;
    let e2 = (m2 >> 23) as int;
    let f2 = (m2 & 0x007f_ffff) as int;
    assert(((m1 >> 23) < (m2 >> 23) || ((m1 >> 23) == (m2 >> 23) && (m1 & 0x007f_ffff) < (m2
        & 0x007f_ffff))) && (m1 & 0x007f_ffff) < 0x80_0000 && (m2 & 0x007f_ffff) < 0x80_0000 && (m2
        >> 23) <= 255) by (bit_vector)
        requires
            m1 < m2,
            m2 <= 0x7f80_0000,
    ;
    if e1 == e2 {
        if e1 != 0 {
            lemma_pow2_pos((e1 - 1) as nat);
            lemma_mul_strict_inequality(
                0x80_0000 + f1,
                0x80_0000 + f2,
                pow2((e1 - 1) as nat) as int,
            );
        }
    } else {
        // e1 < e2: everything in the lower binade sits below the upper one
        lemma_pow2_pos((e2 - 1) as nat);
        if e1 == 0 {
            assert(f32_scaled_mag(m1) == f1);
            lemma_mul_inequality(1, pow2((e2 - 1) as nat) as int, 0x80_0000 + f2);
            assert((0x80_0000 + f2) * 1 == 0x80_0000 + f2) by (nonlinear_arith);
            assert((0x80_0000 + f2) * (pow2((e2 - 1) as nat) as int) >= (0x80_0000 + f2) * 1)
                by (nonlinear_arith)
                requires
                    pow2((e2 - 1) as nat) >= 1,
                    0x80_0000 + f2 >= 0,
            ;
        } else {
            lemma_pow2_pos((e1 - 1) as nat);
            lemma_mul_strict_inequality(0x80_0000 + f1, 0x100_0000, pow2((e1 - 1) as nat) as int);
            lemma_pow2_unfold(e1 as nat);
            assert(0x100_0000 * (pow2((e1 - 1) as nat) as int) == 0x80_0000 * (2 * (pow2((e1
                - 1) as nat) as int))) by (nonlinear_arith);
            assert(2 * pow2((e1 - 1) as nat) == pow2(e1 as nat));
            if e1 < e2 - 1 {
                lemma_pow2_strictly_increases(e1 as nat, (e2 - 1) as nat);
            }
            lemma_mul_inequality(
                pow2(e1 as nat) as int,
                pow2((e2 - 1) as nat) as int,
                0x80_0000,
            );
            lemma_mul_inequality(0x80_0000, 0x80_0000 + f2, pow2((e2 - 1) as nat) as int);
        }
    }
}

/// A nonzero magnitude pattern denotes a strictly positive value.
proof fn lemma_f32_mag_positive(m: u32)
    requires
        0 < m <= 0x7f80_0000,
    ensures
        f32_scaled_mag(m) > 0,
        f32_scaled_mag(0) == 0,
{
    let e = (m >> 23) as int;
    assert((m >> 23) == 0 ==> (m & 0x007f_ffff) == m) by (bit_vector);
    assert(0u32 >> 23 == 0 && 0u32 & 0x007f_ffff == 0) by (bit_vector);
    if e != 0 {
        lemma_pow2_pos((e - 1) as nat);
        lemma_mul_strictly_positive(0x80_0000 + ((m & 0x007f_ffff) as int), pow2((e - 1) as nat) as int);
    }
}

/// The ordering the library compares with is true value order: for non-NaN
/// patterns, `spec_f32_lt` holds exactly when the denoted value is smaller.
/// Peak tracking and clipping therefore compare sample values, not bit
/// patterns.
pub proof fn lemma_f32_lt_is_value_order(a: u32, b: u32)
    requires
        !f32_is_nan(a),
        !f32_is_nan(b),
    ensures
        spec_f32_lt(a, b) <==> f32_scaled(a) < f32_scaled(b),
{
    let ma = a & 0x7fff_ffff;
    let mb = b & 0x7fff_ffff;
    assert(ma <= 0x7f80_0000 && mb <= 0x7f80_0000 && (a >> 31 == 0 || a >> 31 == 1) && (b >> 31
        == 0 || b >> 31 == 1)) by (bit_vector)
        requires
            ma == a & 0x7fff_ffff,
            mb == b & 0x7fff_ffff,
            !(((a >> 23) & 0xff) == 255 && (a & 0x007f_ffff) != 0),
            !(((b >> 23) & 0xff) == 255 && (b & 0x007f_ffff) != 0),
    ;
    if ma > 0 {
        lemma_f32_mag_positive(ma);
    }
    if mb > 0 {
        lemma_f32_mag_positive(mb);
    }
    if ma < mb {
        lemma_f32_mag_monotone(ma, mb);
    }
    if mb < ma {
        lemma_f32_mag_monotone(mb, ma);
    }
    assert(f32_scaled_mag(0) == 0) by {
        assert(0u32 >> 23 == 0 && 0u32 & 0x007f_ffff == 0) by (bit_vector);
    }
}

/// Magnitude pattern of a 64-bit float as the value it denotes, scaled by
/// `2^1074`; the analogue of [`f32_scaled_mag`].
pub open spec fn f64_scaled_mag(m: u64) -> int {
    let e = (m >> 52) as int;
    let f = (m & 0x000f_ffff_ffff_ffff) as int;
    if e == 0 {
        f
    } else {
        (0x10_0000_0000_0000 + f) * pow2((e - 1) as nat)
    }
}

/// A non-NaN 64-bit pattern as the value it denotes, scaled by `2^1074`.
pub open spec fn f64_scaled(b: u64) -> int {
    if b >> 63 == 1 {
        -f64_scaled_mag(b & 0x7fff_ffff_ffff_ffff)
    } else {
        f64_scaled_mag(b & 0x7fff_ffff_ffff_ffff)
    }
}

/// The 64-bit magnitude encoding is strictly increasing in the pattern.
proof fn lemma_f64_mag_monotone(m1: u64, m2: u64)
    requires
        m1 < m2,
        m2 <= 0x7ff0_0000_0000_0000,
    ensures
        f64_scaled_mag(m1) < f64_scaled_mag(m2),
{
    let e1 = (m1 >> 52) as int;
    let f1 = (m1 & 0x000f_ffff_ffff_ffff) as int;
    let e2 = (m2 >> 52) as int;
    let f2 = (m2 & 0x000f_ffff_ffff_ffff) as int;
    assert(((m1 >> 52) < (m2 >> 52) || ((m1 >> 52) == (m2 >> 52) && (m1 & 0x000f_ffff_ffff_ffff)
        < (m2 & 0x000f_ffff_ffff_ffff))) && (m1 & 0x000f_ffff_ffff_ffff) < 0x10_0000_0000_0000 && (
    m2 & 0x000f_ffff_ffff_ffff) < 0x10_0000_0000_0000 && (m2 >> 52) <= 2047) by (bit_vector)
        requires
            m1 < m2,
            m2 <= 0x7ff0_0000_0000_0000,
    ;
    if e1 == e2 {
        if e1 != 0 {
            lemma_pow2_pos((e1 - 1) as nat);
            lemma_mul_strict_inequality(
                0x10_0000_0000_0000 + f1,
                0x10_0000_0000_0000 + f2,
                pow2((e1 - 1) as nat) as int,
            );
        }
    } else {
        lemma_pow2_pos((e2 - 1) as nat);
        if e1 == 0 {
            lemma_mul_inequality(1, pow2((e2 - 1) as nat) as int, 0x10_0000_0000_0000 + f2);
            assert((0x10_0000_0000_0000 + f2) * 1 == 0x10_0000_0000_0000 + f2)
                by (nonlinear_arith);
            assert((0x10_0000_0000_0000 + f2) * (pow2((e2 - 1) as nat) as int) >= (
            0x10_0000_0000_0000 + f2) * 1) by (nonlinear_arith)
                requires
                    pow2((e2 - 1) as nat) >= 1,
                    0x10_0000_0000_0000 + f2 >= 0,
            ;
        } else {
            lemma_pow2_pos((e1 - 1) as nat);
            lemma_mul_strict_inequality(
                0x10_0000_0000_0000 + f1,
                0x20_0000_0000_0000,
                pow2((e1 - 1) as nat) as int,
            );
            lemma_pow2_unfold(e1 as nat);
            assert(0x20_0000_0000_0000 * (pow2((e1 - 1) as nat) as int) == 0x10_0000_0000_0000 * (2
                * (pow2((e1 - 1) as nat) as int))) by (nonlinear_arith);
            assert(2 * pow2((e1 - 1) as nat) == pow2(e1 as nat));
            if e1 < e2 - 1 {
                lemma_pow2_strictly_increases(e1 as nat, (e2 - 1) as nat);
            }
            lemma_mul_inequality(
                pow2(e1 as nat) as int,
                pow2((e2 - 1) as nat) as int,
                0x10_0000_0000_0000,
            );
            lemma_mul_inequality(
                0x10_0000_0000_0000,
                0x10_0000_0000_0000 + f2,
                pow2((e2 - 1) as nat) as int,
            );
        }
    }
}

/// A nonzero 64-bit magnitude pattern denotes a strictly positive value.
proof fn lemma_f64_mag_positive(m: u64)
    requires
        0 < m <= 0x7ff0_0000_0000_0000,
    ensures
        f64_scaled_mag(m) > 0,
{
    let e = (m >> 52) as int;
    assert((m >> 52) == 0 ==> (m & 0x000f_ffff_ffff_ffff) == m) by (bit_vector);
    if e != 0 {
        lemma_pow2_pos((e - 1) as nat);
        lemma_mul_strictly_positive(
            0x10_0000_0000_0000 + ((m & 0x000f_ffff_ffff_ffff) as int),
            pow2((e - 1) as nat) as int,
        );
    }
}

/// `spec_f64_lt` is true value order on non-NaN 64-bit patterns; the peak
/// table therefore records genuinely larger magnitudes.
pub proof fn lemma_f64_lt_is_value_order(a: u64, b: u64)
    requires
        !f64_is_nan(a),
        !f64_is_nan(b),
    ensures
        spec_f64_lt(a, b) <==> f64_scaled(a) < f64_scaled(b),
{
    let ma = a & 0x7fff_ffff_ffff_ffff;
    let mb = b & 0x7fff_ffff_ffff_ffff;
    assert(ma <= 0x7ff0_0000_0000_0000 && mb <= 0x7ff0_0000_0000_0000 && (a >> 63 == 0 || a >> 63
        == 1) && (b >> 63 == 0 || b >> 63 == 1)) by (bit_vector)
        requires
            ma == a & 0x7fff_ffff_ffff_ffff,
            mb == b & 0x7fff_ffff_ffff_ffff,
            !(((a >> 52) & 0x7ff) == 2047 && (a & 0x000f_ffff_ffff_ffff) != 0),
            !(((b >> 52) & 0x7ff) == 2047 && (b & 0x000f_ffff_ffff_ffff) != 0),
    ;
    if ma > 0 {
        lemma_f64_mag_positive(ma);
    }
    if mb > 0 {
        lemma_f64_mag_positive(mb);
    }
    if ma < mb {
        lemma_f64_mag_monotone(ma, mb);
    }
    if mb < ma {
        lemma_f64_mag_monotone(mb, ma);
    }
    assert(f64_scaled_mag(0) == 0) by {
        assert(0u64 >> 52 == 0 && 0u64 & 0x000f_ffff_ffff_ffff == 0) by (bit_vector);
    }
}

/// Packing a normalized significand `m` in binade `u` produces the pattern
/// whose scaled value is exactly `m * 2^u`, the carry case `m == 2^24`
/// included.
proof fn lemma_pack_scaled(m: u64, u: u32)
    requires
        0x80_0000 <= m <= 0x100_0000,
        1 <= u <= 253,
    ensures
        f32_scaled_mag((m + (u as u64) * 0x80_0000) as u32) == m * pow2(u as nat),
        f32_exp((m + (u as u64) * 0x80_0000) as u32) == if m < 0x100_0000 {
            u + 1
        } else {
            u + 2
        },
{
    let b = (m + (u as u64) * 0x80_0000) as u32;
    if m < 0x100_0000 {
        assert((((m + (u as u64) * 0x80_0000) as u32) >> 23) == (u + 1) as u64 && ((((m + (
        u as u64) * 0x80_0000) as u32) >> 23) & 0xff) == (u + 1) as u64 && (((m + (
        u as u64) * 0x80_0000) as u32) & 0x007f_ffff) == (m - 0x80_0000) as u64) by (bit_vector)
            requires
                0x80_0000 <= m < 0x100_0000,
                1 <= u <= 253,
        ;
        assert(f32_scaled_mag(b) == (0x80_0000 + (m - 0x80_0000)) * pow2(u as nat));
    } else {
        assert((((m + (u as u64) * 0x80_0000) as u32) >> 23) == (u + 2) as u64 && ((((m + (
        u as u64) * 0x80_0000) as u32) >> 23) & 0xff) == (u + 2) as u64 && (((m + (
        u as u64) * 0x80_0000) as u32) & 0x007f_ffff) == 0) by (bit_vector)
            requires
                m == 0x100_0000,
                1 <= u <= 253,
        ;
        lemma_pow2_unfold((u + 1) as nat);
        assert(f32_scaled_mag(b) == 0x80_0000 * pow2((u + 1) as nat));
        assert(0x80_0000 * (2 * pow2(u as nat) as int) == 0x100_0000 * pow2(u as nat) as int)
            by (nonlinear_arith);
    }
}

/// The sign bit composes with a finite magnitude pattern as plain negation
/// in the value model.
proof fn lemma_signed_scaled(x: u32, neg: bool)
    requires
        x < 0x8000_0000,
    ensures
        f32_scaled(if neg { 0x8000_0000u32 | x } else { 0u32 | x }) == if neg {
            -f32_scaled_mag(x)
        } else {
            f32_scaled_mag(x)
        },
        f32_exp(if neg { 0x8000_0000u32 | x } else { 0u32 | x }) == f32_exp(x),
{
    assert(x >> 31 == 0 && (0x8000_0000u32 | x) >> 31 == 1 && (0x8000_0000u32 | x) & 0x7fff_ffff
        == x && (0u32 | x) == x && x & 0x7fff_ffff == x && (((0x8000_0000u32 | x) >> 23) & 0xff)
        == ((x >> 23) & 0xff)) by (bit_vector)
        requires
            x < 0x8000_0000,
    ;
}

/// Integers of magnitude up to `2^24` convert to float exactly: the scaled
/// value of the resulting pattern is the integer itself (times the fixed
/// scaling of the value model).  In particular every 16-bit sample converts
/// exactly.
pub proof fn lemma_int_to_f32_exact(v: i32)
    requires
        -0x100_0000 <= v <= 0x100_0000,
    ensures
        f32_scaled(spec_i32_to_f32(v)) == v * pow2(149),
        v != 0 ==> 127 <= f32_exp(spec_i32_to_f32(v)) <= 152,
{
    lemma2_to64();
    if v == 0 {
        assert(0u32 >> 31 == 0 && 0u32 & 0x7fff_ffff == 0 && 0u32 >> 23 == 0 && 0u32
            & 0x007f_ffff == 0) by (bit_vector);
        assert(f32_scaled(0u32) == 0);
    } else {
        let neg = v < 0;
        let p: u64 = if v < 0 {
            (-(v as int)) as u64
        } else {
            v as u64
        };
        axiom_u64_leading_zeros(p);
        let lzu: u64 = u64_leading_zeros(p) as u64;
        let l = 64 - u64_leading_zeros(p);
        assert(p >> ((64 - lzu) as u64) == 0);
        assert((p >> ((63 - lzu) as u64)) & 1u64 != 0u64);
        assert(39 <= lzu <= 63) by (bit_vector)
            requires
                1 <= p <= 0x100_0000,
                p >> ((64 - lzu) as u64) == 0,
                lzu < 64 ==> (p >> ((63 - lzu) as u64)) & 1u64 != 0u64,
                lzu <= 64,
        ;
        if l <= 24 {
            let sh = (24 - l) as nat;
            let m = p << ((24 - l) as u64);
            assert(0x80_0000 <= (p << ((24 - (64 - lzu)) as u64)) && (p << ((24 - (64
                - lzu)) as u64)) < 0x100_0000) by (bit_vector)
                requires
                    40 <= lzu <= 63,
                    p >> ((64 - lzu) as u64) == 0,
                    (p >> ((63 - lzu) as u64)) & 1u64 != 0u64,
                    p >= 1,
            ;
            assert(pow2(sh) <= 0x80_0000) by {
                if sh < 23 {
                    lemma_pow2_strictly_increases(sh, 23);
                }
            }
            assert(p * pow2(sh) <= 0x100_0000 * 0x80_0000) by (nonlinear_arith)
                requires
                    p <= 0x100_0000,
                    0 <= pow2(sh) <= 0x80_0000,
            ;
            vstd::bits::lemma_u64_shl_is_mul(p, (24 - l) as u64);
            assert(m == p * pow2(sh));
            let u = (l + 125) as u32;
            lemma_pack_scaled(m, u);
            vstd::arithmetic::power2::lemma_pow2_adds(sh, (l + 125) as nat);
            assert((p * pow2(sh)) * pow2((l + 125) as nat) == p * (pow2(sh) * pow2(
                (l + 125) as nat,
            ))) by (nonlinear_arith);
            let x = (m + (u as u64) * 0x80_0000) as u32;
            assert(m + (u as u64) * 0x80_0000 < 0x8000_0000) by (bit_vector)
                requires
                    m < 0x100_0000,
                    u <= 254,
            ;
            lemma_signed_scaled(x, neg);
            assert(f32_scaled_mag(x) == p * pow2(149));
            if neg {
                assert(-((p as int) * (pow2(149) as int)) == (v as int) * (pow2(149) as int))
                    by (nonlinear_arith)
                    requires
                        p as int == -(v as int),
                ;
            }
        } else {
            // the one in-range magnitude with 25 bits is 2^24 itself
            assert(p == 0x100_0000) by (bit_vector)
                requires
                    1 <= p <= 0x100_0000,
                    lzu == 39,
                    p >> ((64 - lzu) as u64) == 0,
                    (p >> ((63 - lzu) as u64)) & 1u64 != 0u64,
            ;
            assert(spec_rne_shift(0x100_0000u64, 1u64) == 0x80_0000u64) by (bit_vector);
            lemma_pack_scaled(0x80_0000, 150);
            vstd::arithmetic::power2::lemma_pow2_adds(1, 149);
            assert(0x80_0000 * (pow2(1) * pow2(149)) as int == (0x80_0000 * pow2(1) as int) * pow2(
                149,
            ) as int) by (nonlinear_arith);
            let x = (0x80_0000u64 + 150u64 * 0x80_0000) as u32;
            assert(0x80_0000u64 + 150u64 * 0x80_0000 < 0x8000_0000) by (bit_vector);
            lemma_signed_scaled(x, neg);
            assert(f32_scaled_mag(x) == p * pow2(149));
            if neg {
                assert(-((p as int) * (pow2(149) as int)) == (v as int) * (pow2(149) as int))
                    by (nonlinear_arith)
                    requires
                        p as int == -(v as int),
                ;
            }
        }
    }
}

/// Multiplying a normal finite value by a positive power of two is exact
/// whenever the result stays in the normal range: the scale shifts the
/// exponent and leaves the significand untouched.  This is why the
/// write-side scales (1/32768 and 2^-31) lose nothing.
pub proof fn lemma_f32_mul_pow2_exact(s: u32, b: u32)
    requires
        s >> 31 == 0,
        f32_frac(s) == 0,
        1 <= f32_exp(s) <= 254,
        1 <= f32_exp(b) <= 254,
        129 <= f32_exp(s) + f32_exp(b) <= 381,
    ensures
        f32_scaled(spec_f32_mul(s, b)) * pow2(127) == f32_scaled(b) * pow2(f32_exp(s) as nat),
        f32_exp(spec_f32_mul(s, b)) == f32_exp(s) + f32_exp(b) - 127,
{
    lemma2_to64();
    let es = f32_exp(s);
    let eb = f32_exp(b);
    let fb = f32_frac(b);
    let neg = (s >> 31) != (b >> 31);
    let mb: u64 = (fb as u64 + 0x80_0000) as u64;
    let p: u64 = (0x80_0000u64 * mb) as u64;
    assert((b & 0x007f_ffff) < 0x80_0000 && ((b >> 23) & 0xff) <= 255 && ((s >> 23) & 0xff)
        <= 255) by (bit_vector);
    assert(0x4000_0000_0000 <= p && p < 0x8000_0000_0000 && p >> 23 == mb && p & 0x7f_ffff == 0)
        by (bit_vector)
        requires
            0x80_0000 <= mb < 0x100_0000,
            p == (0x80_0000u64 * mb) as u64,
    ;

    axiom_u64_leading_zeros(p);
    let lzu: u64 = u64_leading_zeros(p) as u64;
    assert(lzu == 17) by (bit_vector)
        requires
            0x4000_0000_0000 <= p < 0x8000_0000_0000,
            p >> ((64 - lzu) as u64) == 0,
            lzu < 64 ==> (p >> ((63 - lzu) as u64)) & 1u64 != 0u64,
            lzu <= 64,
    ;

    // the rounding shift drops only zero bits, so the significand survives
    assert(spec_rne_shift(p, 23) == mb) by {
        assert(p & (((1u64 << 23u64) - 1) as u64) == 0 && (1u64 << ((23u64 - 1) as u64)) != 0)
            by (bit_vector)
            requires
                p & 0x7f_ffff == 0,
        ;
    }
    let u: u32 = (es + eb - 128) as u32;
    lemma_pack_scaled(mb, u);
    let x = (mb + (u as u64) * 0x80_0000) as u32;
    assert(mb + (u as u64) * 0x80_0000 < 0x8000_0000) by (bit_vector)
        requires
            mb < 0x100_0000,
            u <= 254,
    ;
    lemma_signed_scaled(x, neg);

    // the operand's own scaled value, with the sign unpacked
    assert((b & 0x7fff_ffff) >> 23 == (b >> 23) & 0xff && ((b & 0x7fff_ffff) >> 23) & 0xff == (b
        >> 23) & 0xff && (b & 0x7fff_ffff) & 0x007f_ffff == b & 0x007f_ffff && (b >> 31 == 0 || b
        >> 31 == 1)) by (bit_vector);
    assert(f32_scaled_mag(b & 0x7fff_ffff) == (mb as int) * pow2((eb - 1) as nat));

    vstd::arithmetic::power2::lemma_pow2_adds(u as nat, 127);
    vstd::arithmetic::power2::lemma_pow2_adds((eb - 1) as nat, es as nat);
    assert((mb as int * pow2(u as nat)) * pow2(127) == mb as int * (pow2(u as nat) * pow2(127)))
        by (nonlinear_arith);
    assert((mb as int * pow2((eb - 1) as nat)) * pow2(es as nat) == mb as int * (pow2(
        (eb - 1) as nat,
    ) * pow2(es as nat))) by (nonlinear_arith);
    assert((-(mb as int * pow2(u as nat))) * pow2(127) == -((mb as int * pow2(u as nat)) * pow2(
        127,
    ))) by (nonlinear_arith);
    assert((-(mb as int * pow2((eb - 1) as nat))) * pow2(es as nat) == -((mb as int * pow2((eb
        - 1) as nat)) * pow2(es as nat))) by (nonlinear_arith);
}

/// The write-side scale for 16-bit sources loses nothing: scaling any
/// nonzero sample `v` by 1/32768 yields the float whose value is exactly
/// `v / 32768`.  Both sides are stated over the value model: the scaled
/// value of a pattern is its value times `2^149`, so the equation reads
/// `(v / 32768) * 2^149 * 2^127 == v * 2^261`.
pub proof fn lemma_write_scale_short_exact(v: i16)
    requires
        v != 0,
    ensures
        f32_scaled(spec_f32_mul(0x3800_0000, spec_i32_to_f32(v as i32))) * pow2(127) == (
        v as int) * pow2(261),
{
    lemma_int_to_f32_exact(v as i32);
    let b = spec_i32_to_f32(v as i32);
    assert(0x3800_0000u32 >> 31 == 0 && (0x3800_0000u32 >> 23) & 0xff == 112 && 0x3800_0000u32
        & 0x007f_ffff == 0) by (bit_vector);
    lemma_f32_mul_pow2_exact(0x3800_0000, b);
    let r = spec_f32_mul(0x3800_0000, b);
    assert(f32_scaled(r) * (pow2(127) as int) == ((v as int) * pow2(149)) * (pow2(112) as int));
    assert(((v as int) * pow2(149)) * (pow2(112) as int) == (v as int) * ((pow2(149) * pow2(
        112,
    )) as int)) by (nonlinear_arith);
    vstd::arithmetic::power2::lemma_pow2_adds(149, 112);
}

} // verus!
