//! PCM integer conversion kernels: pure transforms from the on-disk 8-bit,
//! packed 24-bit and 32-bit encodings into the 16-bit and 32-bit host sample
//! types.  The little/big-endian variants take the host byte order as an
//! explicit flag and apply the byte-order correction before truncation.

use vstd::prelude::*;

use crate::endian::spec_swap16;
use crate::endian::spec_swap32;
use crate::endian::swap16;
use crate::endian::swap32;

verus! {

/// A signed 8-bit sample shifted into the high byte of a 16-bit sample.
pub open spec fn spec_sc2s(s: i8) -> i16 {
    ((s as u16) << 8) as i16
}

/// An unsigned 8-bit sample, re-centred around zero, shifted into the high
/// byte of a 16-bit sample.
pub open spec fn spec_uc2s(s: u8) -> i16 {
    (((((s as i32) - 128) as u32) << 8) as u16) as i16
}

/// The two most-significant bytes of a little-endian 24-bit triplet as a
/// 16-bit sample.
pub open spec fn spec_let2s(b1: u8, b2: u8) -> i16 {
    (((b2 as u16) << 8) | (b1 as u16)) as i16
}

/// The two most-significant bytes of a big-endian 24-bit triplet as a 16-bit
/// sample.
pub open spec fn spec_bet2s(b0: u8, b1: u8) -> i16 {
    (((b0 as u16) << 8) | (b1 as u16)) as i16
}

/// The high 16 bits of a little-endian 32-bit word, after byte-order
/// correction for the host.
pub open spec fn spec_lei2s(s: i32, host_little: bool) -> i16 {
    (((if host_little {
        s as u32
    } else {
        spec_swap32(s as u32)
    }) >> 16) as u16) as i16
}

/// The high 16 bits of a big-endian 32-bit word, after byte-order correction
/// for the host.
pub open spec fn spec_bei2s(s: i32, host_little: bool) -> i16 {
    (((if host_little {
        spec_swap32(s as u32)
    } else {
        s as u32
    }) >> 16) as u16) as i16
}

/// A signed 8-bit sample shifted into the high byte of a 32-bit sample.
pub open spec fn spec_sc2i(s: i8) -> i32 {
    (((s as u32) << 24)) as i32
}

/// An unsigned 8-bit sample, re-centred around zero, shifted into the high
/// byte of a 32-bit sample.
pub open spec fn spec_uc2i(s: u8) -> i32 {
    ((((s as i32) - 128) as u32) << 24) as i32
}

/// A big-endian 16-bit sample, byte-corrected for the host, shifted into the
/// high half of a 32-bit sample.
pub open spec fn spec_bes2i(s: i16, host_little: bool) -> i32 {
    (((if host_little {
        spec_swap16(s as u16)
    } else {
        s as u16
    }) as u32) << 16) as i32
}

/// A little-endian 16-bit sample, byte-corrected for the host, shifted into
/// the high half of a 32-bit sample.
pub open spec fn spec_les2i(s: i16, host_little: bool) -> i32 {
    (((if host_little {
        s as u16
    } else {
        spec_swap16(s as u16)
    }) as u32) << 16) as i32
}

/// Convert `count` signed 8-bit samples to 16-bit samples.
pub fn sc2s_array(src: &Vec<i8>, count: usize, dest: &mut Vec<i16>)
    requires
        count <= src@.len(),
        count <= old(dest)@.len(),
    ensures
        final(dest)@.len() == old(dest)@.len(),
        forall|j: int| 0 <= j < count ==> final(dest)@[j] == spec_sc2s(src@[j]),
        forall|j: int| count <= j < old(dest)@.len() ==> final(dest)@[j] == old(dest)@[j],
{
    let mut i: usize = 0;
    while i < count
        invariant
            i <= count,
            count <= src@.len(),
            count <= dest@.len(),
            dest@.len() == old(dest)@.len(),
            forall|j: int| 0 <= j < i ==> dest@[j] == spec_sc2s(src@[j]),
            forall|j: int| i <= j < dest@.len() ==> dest@[j] == old(dest)@[j],
        decreases count - i,
    {
        let s = src[i];
        dest[i] = ((s as u16) << 8) as i16;
        i += 1;
    }
}

/// Convert `count` unsigned 8-bit samples to 16-bit samples.
pub fn uc2s_array(src: &Vec<u8>, count: usize, dest: &mut Vec<i16>)
    requires
        count <= src@.len(),
        count <= old(dest)@.len(),
    ensures
        final(dest)@.len() == old(dest)@.len(),
        forall|j: int| 0 <= j < count ==> final(dest)@[j] == spec_uc2s(src@[j]),
        forall|j: int| count <= j < old(dest)@.len() ==> final(dest)@[j] == old(dest)@[j],
{
    let mut i: usize = 0;
    while i < count
        invariant
            i <= count,
            count <= src@.len(),
            count <= dest@.len(),
            dest@.len() == old(dest)@.len(),
            forall|j: int| 0 <= j < i ==> dest@[j] == spec_uc2s(src@[j]),
            forall|j: int| i <= j < dest@.len() ==> dest@[j] == old(dest)@[j],
        decreases count - i,
    {
        let s = src[i];
        let v: i32 = (s as i32) - 128;
        #[verifier::truncate]
        let shifted: u16 = (((v as u32) << 8)) as u16;
        dest[i] = shifted as i16;
        i += 1;
    }
}

/// Convert `count` little-endian packed 24-bit triplets to 16-bit samples by
/// truncation to the two most-significant bytes.
pub fn let2s_array(src: &Vec<u8>, count: usize, dest: &mut Vec<i16>)
    requires
        count * 3 <= src@.len(),
        count <= old(dest)@.len(),
    ensures
        final(dest)@.len() == old(dest)@.len(),
        forall|j: int|
            0 <= j < count ==> final(dest)@[j] == spec_let2s(src@[3 * j + 1], src@[3 * j + 2]),
        forall|j: int| count <= j < old(dest)@.len() ==> final(dest)@[j] == old(dest)@[j],
{
    let srclen = src.len();
    let mut i: usize = 0;
    while i < count
        invariant
            i <= count,
            count * 3 <= srclen,
            srclen == src@.len(),
            count <= dest@.len(),
            dest@.len() == old(dest)@.len(),
            forall|j: int| 0 <= j < i ==> dest@[j] == spec_let2s(src@[3 * j + 1], src@[3 * j + 2]),
            forall|j: int| i <= j < dest@.len() ==> dest@[j] == old(dest)@[j],
        decreases count - i,
    {
        proof {
            assert(3 * i + 2 < 3 * count);
        }
        let b1 = src[3 * i + 1];
        let b2 = src[3 * i + 2];
        #[verifier::truncate]
        let v: i16 = (((b2 as u16) << 8) | (b1 as u16)) as i16;
        dest[i] = v;
        i += 1;
    }
}

/// Convert `count` big-endian packed 24-bit triplets to 16-bit samples by
/// truncation to the two most-significant bytes.
pub fn bet2s_array(src: &Vec<u8>, count: usize, dest: &mut Vec<i16>)
    requires
        count * 3 <= src@.len(),
        count <= old(dest)@.len(),
    ensures
        final(dest)@.len() == old(dest)@.len(),
        forall|j: int|
            0 <= j < count ==> final(dest)@[j] == spec_bet2s(src@[3 * j], src@[3 * j + 1]),
        forall|j: int| count <= j < old(dest)@.len() ==> final(dest)@[j] == old(dest)@[j],
{
    let srclen = src.len();
    let mut i: usize = 0;
    while i < count
        invariant
            i <= count,
            count * 3 <= srclen,
            srclen == src@.len(),
            count <= dest@.len(),
            dest@.len() == old(dest)@.len(),
            forall|j: int| 0 <= j < i ==> dest@[j] == spec_bet2s(src@[3 * j], src@[3 * j + 1]),
            forall|j: int| i <= j < dest@.len() ==> dest@[j] == old(dest)@[j],
        decreases count - i,
    {
        proof {
            assert(3 * i + 2 < 3 * count);
        }
        let b0 = src[3 * i];
        let b1 = src[3 * i + 1];
        #[verifier::truncate]
        let v: i16 = (((b0 as u16) << 8) | (b1 as u16)) as i16;
        dest[i] = v;
        i += 1;
    }
}

/// Convert `count` little-endian 32-bit words to 16-bit samples by taking the
/// high 16 bits after any needed byte-order correction.
pub fn lei2s_array(src: &Vec<i32>, count: usize, dest: &mut Vec<i16>, host_little: bool)
    requires
        count <= src@.len(),
        count <= old(dest)@.len(),
    ensures
        final(dest)@.len() == old(dest)@.len(),
        forall|j: int| 0 <= j < count ==> final(dest)@[j] == spec_lei2s(src@[j], host_little),
        forall|j: int| count <= j < old(dest)@.len() ==> final(dest)@[j] == old(dest)@[j],
{
    let mut i: usize = 0;
    while i < count
        invariant
            i <= count,
            count <= src@.len(),
            count <= dest@.len(),
            dest@.len() == old(dest)@.len(),
            forall|j: int| 0 <= j < i ==> dest@[j] == spec_lei2s(src@[j], host_little),
            forall|j: int| i <= j < dest@.len() ==> dest@[j] == old(dest)@[j],
        decreases count - i,
    {
        let s = src[i];
        let x: u32 = if host_little {
            s as u32
        } else {
            swap32(s as u32)
        };
        dest[i] = ((x >> 16) as u16) as i16;
        i += 1;
    }
}

/// Convert `count` big-endian 32-bit words to 16-bit samples by taking the
/// high 16 bits after any needed byte-order correction.
pub fn bei2s_array(src: &Vec<i32>, count: usize, dest: &mut Vec<i16>, host_little: bool)
    requires
        count <= src@.len(),
        count <= old(dest)@.len(),
    ensures
        final(dest)@.len() == old(dest)@.len(),
        forall|j: int| 0 <= j < count ==> final(dest)@[j] == spec_bei2s(src@[j], host_little),
        forall|j: int| count <= j < old(dest)@.len() ==> final(dest)@[j] == old(dest)@[j],
{
    let mut i: usize = 0;
    while i < count
        invariant
            i <= count,
            count <= src@.len(),
            count <= dest@.len(),
            dest@.len() == old(dest)@.len(),
            forall|j: int| 0 <= j < i ==> dest@[j] == spec_bei2s(src@[j], host_little),
            forall|j: int| i <= j < dest@.len() ==> dest@[j] == old(dest)@[j],
        decreases count - i,
    {
        let s = src[i];
        let x: u32 = if host_little {
            swap32(s as u32)
        } else {
            s as u32
        };
        dest[i] = ((x >> 16) as u16) as i16;
        i += 1;
    }
}

/// Convert `count` signed 8-bit samples to 32-bit samples.
pub fn sc2i_array(src: &Vec<i8>, count: usize, dest: &mut Vec<i32>)
    requires
        count <= src@.len(),
        count <= old(dest)@.len(),
    ensures
        final(dest)@.len() == old(dest)@.len(),
        forall|j: int| 0 <= j < count ==> final(dest)@[j] == spec_sc2i(src@[j]),
        forall|j: int| count <= j < old(dest)@.len() ==> final(dest)@[j] == old(dest)@[j],
{
    let mut i: usize = 0;
    while i < count
        invariant
            i <= count,
            count <= src@.len(),
            count <= dest@.len(),
            dest@.len() == old(dest)@.len(),
            forall|j: int| 0 <= j < i ==> dest@[j] == spec_sc2i(src@[j]),
            forall|j: int| i <= j < dest@.len() ==> dest@[j] == old(dest)@[j],
        decreases count - i,
    {
        let s = src[i];
        #[verifier::truncate]
        let v: i32 = ((s as u32) << 24) as i32;
        dest[i] = v;
        i += 1;
    }
}

/// Convert `count` unsigned 8-bit samples to 32-bit samples.
pub fn uc2i_array(src: &Vec<u8>, count: usize, dest: &mut Vec<i32>)
    requires
        count <= src@.len(),
        count <= old(dest)@.len(),
    ensures
        final(dest)@.len() == old(dest)@.len(),
        forall|j: int| 0 <= j < count ==> final(dest)@[j] == spec_uc2i(src@[j]),
        forall|j: int| count <= j < old(dest)@.len() ==> final(dest)@[j] == old(dest)@[j],
{
    let mut i: usize = 0;
    while i < count
        invariant
            i <= count,
            count <= src@.len(),
            count <= dest@.len(),
            dest@.len() == old(dest)@.len(),
            forall|j: int| 0 <= j < i ==> dest@[j] == spec_uc2i(src@[j]),
            forall|j: int| i <= j < dest@.len() ==> dest@[j] == old(dest)@[j],
        decreases count - i,
    {
        let s = src[i];
        let v: i32 = (s as i32) - 128;
        #[verifier::truncate]
        let shifted: i32 = ((v as u32) << 24) as i32;
        dest[i] = shifted;
        i += 1;
    }
}

/// Convert `count` big-endian 16-bit samples to 32-bit samples by shifting
/// into the high half after any needed byte-order correction.
pub fn bes2i_array(src: &Vec<i16>, count: usize, dest: &mut Vec<i32>, host_little: bool)
    requires
        count <= src@.len(),
        count <= old(dest)@.len(),
    ensures
        final(dest)@.len() == old(dest)@.len(),
        forall|j: int| 0 <= j < count ==> final(dest)@[j] == spec_bes2i(src@[j], host_little),
        forall|j: int| count <= j < old(dest)@.len() ==> final(dest)@[j] == old(dest)@[j],
{
    let mut i: usize = 0;
    while i < count
        invariant
            i <= count,
            count <= src@.len(),
            count <= dest@.len(),
            dest@.len() == old(dest)@.len(),
            forall|j: int| 0 <= j < i ==> dest@[j] == spec_bes2i(src@[j], host_little),
            forall|j: int| i <= j < dest@.len() ==> dest@[j] == old(dest)@[j],
        decreases count - i,
    {
        let s = src[i];
        let x: u16 = if host_little {
            swap16(s as u16)
        } else {
            s as u16
        };
        #[verifier::truncate]
        let v: i32 = ((x as u32) << 16) as i32;
        dest[i] = v;
        i += 1;
    }
}

/// Convert `count` little-endian 16-bit samples to 32-bit samples by shifting
/// into the high half after any needed byte-order correction.
pub fn les2i_array(src: &Vec<i16>, count: usize, dest: &mut Vec<i32>, host_little: bool)
    requires
        count <= src@.len(),
        count <= old(dest)@.len(),
    ensures
        final(dest)@.len() == old(dest)@.len(),
        forall|j: int| 0 <= j < count ==> final(dest)@[j] == spec_les2i(src@[j], host_little),
        forall|j: int| count <= j < old(dest)@.len() ==> final(dest)@[j] == old(dest)@[j],
{
    let mut i: usize = 0;
    while i < count
        invariant
            i <= count,
            count <= src@.len(),
            count <= dest@.len(),
            dest@.len() == old(dest)@.len(),
            forall|j: int| 0 <= j < i ==> dest@[j] == spec_les2i(src@[j], host_little),
            forall|j: int| i <= j < dest@.len() ==> dest@[j] == old(dest)@[j],
        decreases count - i,
    {
        let s = src[i];
        let x: u16 = if host_little {
            s as u16
        } else {
            swap16(s as u16)
        };
        #[verifier::truncate]
        let v: i32 = ((x as u32) << 16) as i32;
        dest[i] = v;
        i += 1;
    }
}

} // verus!
