//! Numeric conversion kernels between 32-bit float samples (as bit patterns)
//! and the four host sample types.  Each kernel is a pure array transform
//! taking an explicit scale factor; the clipping variants saturate instead of
//! relying on the cast.  All arithmetic goes through the verified software
//! float unit in [`crate::ieee`].

use vstd::prelude::*;

use crate::ieee::f32_lt;
use crate::ieee::f32_mul;
use crate::ieee::f32_round_to_i16;
use crate::ieee::f32_round_to_i32;
use crate::ieee::f32_to_f64;
use crate::ieee::f64_to_f32;
use crate::ieee::int_to_f32;
use crate::ieee::spec_f32_lt;
use crate::ieee::spec_f32_mul;
use crate::ieee::spec_f32_round_to_i16;
use crate::ieee::spec_f32_round_to_i32;
use crate::ieee::spec_f32_to_f64;
use crate::ieee::spec_f64_to_f32;
use crate::ieee::spec_i32_to_f32;

verus! {

/// Bit pattern of 32767.0, the positive clip bound for 16-bit targets.
pub const F32_MAX_I16: u32 = 0x46FF_FE00;

/// Bit pattern of -32768.0, the negative clip bound for 16-bit targets.
pub const F32_MIN_I16: u32 = 0xC700_0000;

/// Bit pattern of 2147483648.0, the positive clip bound for 32-bit targets
/// (the nearest float to the largest 32-bit integer).
pub const F32_MAX_I32: u32 = 0x4F00_0000;

/// Bit pattern of -2147483648.0, the negative clip bound for 32-bit targets.
pub const F32_MIN_I32: u32 = 0xCF00_0000;

/// Bit pattern of 1.0, the scale used when integer/float scaling is off.
pub const F32_ONE: u32 = 0x3F80_0000;

/// Bit pattern of 1/32768, the write-side scale for 16-bit sources.
pub const F32_SCALE_WRITE_SHORT: u32 = 0x3800_0000;

/// Bit pattern of 1/(8 * 0x10000000), the write-side scale for 32-bit
/// sources.
pub const F32_SCALE_WRITE_INT: u32 = 0x3000_0000;

/// One float sample scaled and rounded to a 16-bit sample, saturating only
/// through the cast.
pub open spec fn spec_f2s(b: u32, scale: u32) -> i16 {
    spec_f32_round_to_i16(spec_f32_mul(scale, b))
}

/// One float sample scaled to a 16-bit sample with explicit clipping.
pub open spec fn spec_f2s_clip(b: u32, scale: u32) -> i16 {
    let tmp = spec_f32_mul(scale, b);
    if spec_f32_lt(F32_MAX_I16, tmp) {
        32767i16
    } else if spec_f32_lt(tmp, F32_MIN_I16) {
        -32768i16
    } else {
        spec_f32_round_to_i16(tmp)
    }
}

/// One float sample scaled and rounded to a 32-bit sample.
pub open spec fn spec_f2i(b: u32, scale: u32) -> i32 {
    spec_f32_round_to_i32(spec_f32_mul(scale, b))
}

/// One float sample scaled to a 32-bit sample with explicit clipping.
pub open spec fn spec_f2i_clip(b: u32, scale: u32) -> i32 {
    let tmp = spec_f32_mul(scale, b);
    if spec_f32_lt(F32_MAX_I32, tmp) {
        0x7fff_ffffi32
    } else if spec_f32_lt(tmp, F32_MIN_I32) {
        -0x8000_0000i32
    } else {
        spec_f32_round_to_i32(tmp)
    }
}

/// One 16-bit sample converted to float and scaled.
pub open spec fn spec_s2f(v: i16, scale: u32) -> u32 {
    spec_f32_mul(scale, spec_i32_to_f32(v as i32))
}

/// One 32-bit sample converted to float and scaled.
pub open spec fn spec_i2f(v: i32, scale: u32) -> u32 {
    spec_f32_mul(scale, spec_i32_to_f32(v))
}

/// Scale `count` float samples starting at `from` into 16-bit samples.
pub fn f2s_array(src: &Vec<u32>, from: usize, count: usize, scale: u32) -> (r: Vec<i16>)
    requires
        from + count <= src@.len(),
    ensures
        r@.len() == count,
        forall|j: int| 0 <= j < count ==> r@[j] == spec_f2s(src@[from + j], scale),
{
    let srclen = src.len();
    let mut r: Vec<i16> = Vec::new();
    let mut i: usize = 0;
    while i < count
        invariant
            i <= count,
            from + count <= srclen,
            srclen == src@.len(),
            r@.len() == i,
            forall|j: int| 0 <= j < i ==> r@[j] == spec_f2s(src@[from + j], scale),
        decreases count - i,
    {
        let s = src[from + i];
        r.push(f32_round_to_i16(f32_mul(scale, s)));
        i += 1;
    }
    r
}

/// Scale `count` float samples starting at `from` into 16-bit samples,
/// saturating out-of-range values at the bounds.
pub fn f2s_clip_array(src: &Vec<u32>, from: usize, count: usize, scale: u32) -> (r: Vec<i16>)
    requires
        from + count <= src@.len(),
    ensures
        r@.len() == count,
        forall|j: int| 0 <= j < count ==> r@[j] == spec_f2s_clip(src@[from + j], scale),
{
    let srclen = src.len();
    let mut r: Vec<i16> = Vec::new();
    let mut i: usize = 0;
    while i < count
        invariant
            i <= count,
            from + count <= srclen,
            srclen == src@.len(),
            r@.len() == i,
            forall|j: int| 0 <= j < i ==> r@[j] == spec_f2s_clip(src@[from + j], scale),
        decreases count - i,
    {
        let s = src[from + i];
        let tmp = f32_mul(scale, s);
        if f32_lt(F32_MAX_I16, tmp) {
            r.push(32767);
        } else if f32_lt(tmp, F32_MIN_I16) {
            r.push(-32768);
        } else {
            r.push(f32_round_to_i16(tmp));
        }
        i += 1;
    }
    r
}

/// Scale `count` float samples starting at `from` into 32-bit samples.
pub fn f2i_array(src: &Vec<u32>, from: usize, count: usize, scale: u32) -> (r: Vec<i32>)
    requires
        from + count <= src@.len(),
    ensures
        r@.len() == count,
        forall|j: int| 0 <= j < count ==> r@[j] == spec_f2i(src@[from + j], scale),
{
    let srclen = src.len();
    let mut r: Vec<i32> = Vec::new();
    let mut i: usize = 0;
    while i < count
        invariant
            i <= count,
            from + count <= srclen,
            srclen == src@.len(),
            r@.len() == i,
            forall|j: int| 0 <= j < i ==> r@[j] == spec_f2i(src@[from + j], scale),
        decreases count - i,
    {
        let s = src[from + i];
        r.push(f32_round_to_i32(f32_mul(scale, s)));
        i += 1;
    }
    r
}

/// Scale `count` float samples starting at `from` into 32-bit samples,
/// saturating out-of-range values at the bounds.
pub fn f2i_clip_array(src: &Vec<u32>, from: usize, count: usize, scale: u32) -> (r: Vec<i32>)
    requires
        from + count <= src@.len(),
    ensures
        r@.len() == count,
        forall|j: int| 0 <= j < count ==> r@[j] == spec_f2i_clip(src@[from + j], scale),
{
    let srclen = src.len();
    let mut r: Vec<i32> = Vec::new();
    let mut i: usize = 0;
    while i < count
        invariant
            i <= count,
            from + count <= srclen,
            srclen == src@.len(),
            r@.len() == i,
            forall|j: int| 0 <= j < i ==> r@[j] == spec_f2i_clip(src@[from + j], scale),
        decreases count - i,
    {
        let s = src[from + i];
        let tmp = f32_mul(scale, s);
        if f32_lt(F32_MAX_I32, tmp) {
            r.push(0x7fff_ffff);
        } else if f32_lt(tmp, F32_MIN_I32) {
            r.push(-0x8000_0000);
        } else {
            r.push(f32_round_to_i32(tmp));
        }
        i += 1;
    }
    r
}

/// Convert `count` 16-bit samples starting at `from` to scaled float
/// samples.
pub fn s2f_array(src: &Vec<i16>, from: usize, count: usize, scale: u32) -> (r: Vec<u32>)
    requires
        from + count <= src@.len(),
    ensures
        r@.len() == count,
        forall|j: int| 0 <= j < count ==> r@[j] == spec_s2f(src@[from + j], scale),
{
    let srclen = src.len();
    let mut r: Vec<u32> = Vec::new();
    let mut i: usize = 0;
    while i < count
        invariant
            i <= count,
            from + count <= srclen,
            srclen == src@.len(),
            r@.len() == i,
            forall|j: int| 0 <= j < i ==> r@[j] == spec_s2f(src@[from + j], scale),
        decreases count - i,
    {
        let s = src[from + i];
        r.push(f32_mul(scale, int_to_f32(s as i32)));
        i += 1;
    }
    r
}

/// Convert `count` 32-bit samples starting at `from` to scaled float
/// samples.
pub fn i2f_array(src: &Vec<i32>, from: usize, count: usize, scale: u32) -> (r: Vec<u32>)
    requires
        from + count <= src@.len(),
    ensures
        r@.len() == count,
        forall|j: int| 0 <= j < count ==> r@[j] == spec_i2f(src@[from + j], scale),
{
    let srclen = src.len();
    let mut r: Vec<u32> = Vec::new();
    let mut i: usize = 0;
    while i < count
        invariant
            i <= count,
            from + count <= srclen,
            srclen == src@.len(),
            r@.len() == i,
            forall|j: int| 0 <= j < i ==> r@[j] == spec_i2f(src@[from + j], scale),
        decreases count - i,
    {
        let s = src[from + i];
        r.push(f32_mul(scale, int_to_f32(s)));
        i += 1;
    }
    r
}

/// Widen `count` float samples starting at `from` to 64-bit float samples.
pub fn f2d_array(src: &Vec<u32>, from: usize, count: usize) -> (r: Vec<u64>)
    requires
        from + count <= src@.len(),
    ensures
        r@.len() == count,
        forall|j: int| 0 <= j < count ==> r@[j] == spec_f32_to_f64(src@[from + j]),
{
    let srclen = src.len();
    let mut r: Vec<u64> = Vec::new();
    let mut i: usize = 0;
    while i < count
        invariant
            i <= count,
            from + count <= srclen,
            srclen == src@.len(),
            r@.len() == i,
            forall|j: int| 0 <= j < i ==> r@[j] == spec_f32_to_f64(src@[from + j]),
        decreases count - i,
    {
        let s = src[from + i];
        r.push(f32_to_f64(s));
        i += 1;
    }
    r
}

/// Narrow `count` 64-bit float samples starting at `from` to float samples.
pub fn d2f_array(src: &Vec<u64>, from: usize, count: usize) -> (r: Vec<u32>)
    requires
        from + count <= src@.len(),
    ensures
        r@.len() == count,
        forall|j: int| 0 <= j < count ==> r@[j] == spec_f64_to_f32(src@[from + j]),
{
    let srclen = src.len();
    let mut r: Vec<u32> = Vec::new();
    let mut i: usize = 0;
    while i < count
        invariant
            i <= count,
            from + count <= srclen,
            srclen == src@.len(),
            r@.len() == i,
            forall|j: int| 0 <= j < i ==> r@[j] == spec_f64_to_f32(src@[from + j]),
        decreases count - i,
    {
        let s = src[from + i];
        r.push(f64_to_f32(s));
        i += 1;
    }
    r
}

/// Fix-up pass from the on-disk IEEE layout into the host's working float
/// representation.  On an IEEE-754 host the two layouts coincide bit for bit,
/// and as samples are carried as bit patterns the pass is the identity.
pub fn bf2f_array(buffer: &mut Vec<u32>)
    ensures
        final(buffer)@ == old(buffer)@,
{
}

/// Fix-up pass from the host's working float representation into the on-disk
/// IEEE layout; the inverse of [`bf2f_array`], likewise the identity here.
pub fn f2bf_array(buffer: &mut Vec<u32>)
    ensures
        final(buffer)@ == old(buffer)@,
{
}

/// The write-side scaling of a nonzero 16-bit sample is exact: the float it
/// produces has the value `v / 32768` precisely, stated over the value model
/// (a pattern's scaled value is its value times `2^149`).
pub proof fn lemma_s2f_write_scale_exact(v: i16)
    requires
        v != 0,
    ensures
        crate::ieee::f32_scaled(spec_s2f(v, F32_SCALE_WRITE_SHORT)) * vstd::arithmetic::power2::pow2(127)
            == (v as int) * vstd::arithmetic::power2::pow2(261),
{
    crate::ieee::lemma_write_scale_short_exact(v);
}

} // verus!
