//! Byte-order primitives: fixed-width byte swaps for 16/32/64-bit elements,
//! in place over a whole buffer or as a swapped copy, and the packed 24-bit
//! accessors.  The 32-bit and 64-bit float variants operate on IEEE-754 bit
//! patterns, so a swap is bit-exact by construction, never value-based.

use vstd::prelude::*;

verus! {

/// Byte-reversal of a 16-bit value.
pub open spec fn spec_swap16(x: u16) -> u16 {
    ((x & 0x00ff) << 8) | ((x & 0xff00) >> 8)
}

/// Byte-reversal of a 32-bit value.
pub open spec fn spec_swap32(x: u32) -> u32 {
    ((x & 0x0000_00ff) << 24) | ((x & 0x0000_ff00) << 8) | ((x & 0x00ff_0000) >> 8) | ((x
        & 0xff00_0000) >> 24)
}

/// Byte-reversal of a 64-bit value.
pub open spec fn spec_swap64(x: u64) -> u64 {
    ((x & 0x0000_0000_0000_00ff) << 56) | ((x & 0x0000_0000_0000_ff00) << 40) | ((x
        & 0x0000_0000_00ff_0000) << 24) | ((x & 0x0000_0000_ff00_0000) << 8) | ((x
        & 0x0000_00ff_0000_0000) >> 8) | ((x & 0x0000_ff00_0000_0000) >> 24) | ((x
        & 0x00ff_0000_0000_0000) >> 40) | ((x & 0xff00_0000_0000_0000) >> 56)
}

/// Byte-reversal of a signed 16-bit value, through its bit pattern.
pub open spec fn spec_swap_i16(x: i16) -> i16 {
    spec_swap16(x as u16) as i16
}

/// Byte-reversal of a signed 32-bit value, through its bit pattern.
pub open spec fn spec_swap_i32(x: i32) -> i32 {
    spec_swap32(x as u32) as i32
}

/// Byte-reversal of a signed 64-bit value, through its bit pattern.
pub open spec fn spec_swap_i64(x: i64) -> i64 {
    spec_swap64(x as u64) as i64
}

/// Swapping a 16-bit value twice yields the value back.
pub proof fn lemma_swap16_involution(x: u16)
    ensures
        spec_swap16(spec_swap16(x)) == x,
{
    assert(spec_swap16(spec_swap16(x)) == x) by (bit_vector);
}

/// Swapping a 32-bit value twice yields the value back.
pub proof fn lemma_swap32_involution(x: u32)
    ensures
        spec_swap32(spec_swap32(x)) == x,
{
    assert(spec_swap32(spec_swap32(x)) == x) by (bit_vector);
}

/// Swapping a 64-bit value twice yields the value back.
pub proof fn lemma_swap64_involution(x: u64)
    ensures
        spec_swap64(spec_swap64(x)) == x,
{
    assert(spec_swap64(spec_swap64(x)) == x) by (bit_vector);
}

/// Swapping a signed 16-bit value twice yields the value back.
pub proof fn lemma_swap_i16_involution(x: i16)
    ensures
        spec_swap_i16(spec_swap_i16(x)) == x,
{
    assert(spec_swap16(spec_swap16(x as u16)) as i16 == x && spec_swap16(x as u16) as i16 as u16
        == spec_swap16(x as u16)) by (bit_vector);
}

/// Swapping a signed 32-bit value twice yields the value back.
pub proof fn lemma_swap_i32_involution(x: i32)
    ensures
        spec_swap_i32(spec_swap_i32(x)) == x,
{
    assert(spec_swap32(spec_swap32(x as u32)) as i32 == x && spec_swap32(x as u32) as i32 as u32
        == spec_swap32(x as u32)) by (bit_vector);
}

/// Swapping a signed 64-bit value twice yields the value back.
pub proof fn lemma_swap_i64_involution(x: i64)
    ensures
        spec_swap_i64(spec_swap_i64(x)) == x,
{
    assert(spec_swap64(spec_swap64(x as u64)) as i64 == x && spec_swap64(x as u64) as i64 as u64
        == spec_swap64(x as u64)) by (bit_vector);
}

/// Swapping every element of a buffer twice, in place or by copy, yields the
/// original buffer exactly, for any length including zero.
pub proof fn lemma_swap32_seq_involution(s: Seq<u32>)
    ensures
        s.map_values(|v: u32| spec_swap32(v)).map_values(|v: u32| spec_swap32(v)) =~= s,
{
    let one = s.map_values(|v: u32| spec_swap32(v));
    let two = one.map_values(|v: u32| spec_swap32(v));
    assert forall|j: int| 0 <= j < s.len() implies two[j] == s[j] by {
        lemma_swap32_involution(s[j]);
    }
}

/// Swapping every signed 32-bit element of a buffer twice yields the original
/// buffer exactly, for any length including zero.
pub proof fn lemma_swap_i32_seq_involution(s: Seq<i32>)
    ensures
        s.map_values(|v: i32| spec_swap_i32(v)).map_values(|v: i32| spec_swap_i32(v)) =~= s,
{
    let one = s.map_values(|v: i32| spec_swap_i32(v));
    let two = one.map_values(|v: i32| spec_swap_i32(v));
    assert forall|j: int| 0 <= j < s.len() implies two[j] == s[j] by {
        lemma_swap_i32_involution(s[j]);
    }
}

/// Byte-reversal of one 16-bit value.
pub fn swap16(x: u16) -> (r: u16)
    ensures
        r == spec_swap16(x),
{
    ((x & 0x00ff) << 8) | ((x & 0xff00) >> 8)
}

/// Byte-reversal of one 32-bit value.
pub fn swap32(x: u32) -> (r: u32)
    ensures
        r == spec_swap32(x),
{
    ((x & 0x0000_00ff) << 24) | ((x & 0x0000_ff00) << 8) | ((x & 0x00ff_0000) >> 8) | ((x
        & 0xff00_0000) >> 24)
}

/// Byte-reversal of one 64-bit value.
pub fn swap64(x: u64) -> (r: u64)
    ensures
        r == spec_swap64(x),
{
    ((x & 0x0000_0000_0000_00ff) << 56) | ((x & 0x0000_0000_0000_ff00) << 40) | ((x
        & 0x0000_0000_00ff_0000) << 24) | ((x & 0x0000_0000_ff00_0000) << 8) | ((x
        & 0x0000_00ff_0000_0000) >> 8) | ((x & 0x0000_ff00_0000_0000) >> 24) | ((x
        & 0x00ff_0000_0000_0000) >> 40) | ((x & 0xff00_0000_0000_0000) >> 56)
}

/// Reverse the byte order of every 16-bit element in place.
pub fn endswap_short_array(ptr: &mut Vec<i16>)
    ensures
        final(ptr)@ == old(ptr)@.map_values(|v: i16| spec_swap_i16(v)),
{
    let n = ptr.len();
    let mut i: usize = 0;
    while i < n
        invariant
            i <= n,
            n == ptr@.len(),
            forall|j: int| 0 <= j < i ==> ptr@[j] == spec_swap_i16(old(ptr)@[j]),
            forall|j: int| i <= j < n ==> ptr@[j] == old(ptr)@[j],
        decreases n - i,
    {
        let v = ptr[i];
        let u = v as u16;
        ptr[i] = (((u & 0x00ff) << 8) | ((u & 0xff00) >> 8)) as i16;
        i += 1;
    }
    proof {
        assert(ptr@ =~= old(ptr)@.map_values(|v: i16| spec_swap_i16(v)));
    }
}

/// Produce a byte-order-reversed copy of a buffer of 16-bit elements without
/// mutating the source.
pub fn endswap_short_copy(dest: &mut Vec<i16>, src: &Vec<i16>)
    requires
        old(dest)@.len() == src@.len(),
    ensures
        final(dest)@ == src@.map_values(|v: i16| spec_swap_i16(v)),
{
    let n = src.len();
    let mut i: usize = 0;
    while i < n
        invariant
            i <= n,
            n == src@.len(),
            dest@.len() == n,
            forall|j: int| 0 <= j < i ==> dest@[j] == spec_swap_i16(src@[j]),
        decreases n - i,
    {
        let u = src[i] as u16;
        dest[i] = (((u & 0x00ff) << 8) | ((u & 0xff00) >> 8)) as i16;
        i += 1;
    }
    proof {
        assert(dest@ =~= src@.map_values(|v: i16| spec_swap_i16(v)));
    }
}

/// Reverse the byte order of every 32-bit element in place.
pub fn endswap_int_array(ptr: &mut Vec<i32>)
    ensures
        final(ptr)@ == old(ptr)@.map_values(|v: i32| spec_swap_i32(v)),
{
    let n = ptr.len();
    let mut i: usize = 0;
    while i < n
        invariant
            i <= n,
            n == ptr@.len(),
            forall|j: int| 0 <= j < i ==> ptr@[j] == spec_swap_i32(old(ptr)@[j]),
            forall|j: int| i <= j < n ==> ptr@[j] == old(ptr)@[j],
        decreases n - i,
    {
        let v = ptr[i];
        ptr[i] = swap32(v as u32) as i32;
        i += 1;
    }
    proof {
        assert(ptr@ =~= old(ptr)@.map_values(|v: i32| spec_swap_i32(v)));
    }
}

/// Produce a byte-order-reversed copy of a buffer of 32-bit elements without
/// mutating the source.
pub fn endswap_int_copy(dest: &mut Vec<i32>, src: &Vec<i32>)
    requires
        old(dest)@.len() == src@.len(),
    ensures
        final(dest)@ == src@.map_values(|v: i32| spec_swap_i32(v)),
{
    let n = src.len();
    let mut i: usize = 0;
    while i < n
        invariant
            i <= n,
            n == src@.len(),
            dest@.len() == n,
            forall|j: int| 0 <= j < i ==> dest@[j] == spec_swap_i32(src@[j]),
        decreases n - i,
    {
        let v = src[i];
        dest[i] = swap32(v as u32) as i32;
        i += 1;
    }
    proof {
        assert(dest@ =~= src@.map_values(|v: i32| spec_swap_i32(v)));
    }
}

/// Reverse the byte order of every 64-bit element in place.
pub fn endswap_int64_t_array(ptr: &mut Vec<i64>)
    ensures
        final(ptr)@ == old(ptr)@.map_values(|v: i64| spec_swap_i64(v)),
{
    let n = ptr.len();
    let mut i: usize = 0;
    while i < n
        invariant
            i <= n,
            n == ptr@.len(),
            forall|j: int| 0 <= j < i ==> ptr@[j] == spec_swap_i64(old(ptr)@[j]),
            forall|j: int| i <= j < n ==> ptr@[j] == old(ptr)@[j],
        decreases n - i,
    {
        let v = ptr[i];
        ptr[i] = swap64(v as u64) as i64;
        i += 1;
    }
    proof {
        assert(ptr@ =~= old(ptr)@.map_values(|v: i64| spec_swap_i64(v)));
    }
}

/// Produce a byte-order-reversed copy of a buffer of 64-bit elements without
/// mutating the source.
pub fn endswap_int64_t_copy(dest: &mut Vec<i64>, src: &Vec<i64>)
    requires
        old(dest)@.len() == src@.len(),
    ensures
        final(dest)@ == src@.map_values(|v: i64| spec_swap_i64(v)),
{
    let n = src.len();
    let mut i: usize = 0;
    while i < n
        invariant
            i <= n,
            n == src@.len(),
            dest@.len() == n,
            forall|j: int| 0 <= j < i ==> dest@[j] == spec_swap_i64(src@[j]),
        decreases n - i,
    {
        let v = src[i];
        dest[i] = swap64(v as u64) as i64;
        i += 1;
    }
    proof {
        assert(dest@ =~= src@.map_values(|v: i64| spec_swap_i64(v)));
    }
}

/// Reverse the byte order of every 32-bit float bit pattern in place.
pub fn endswap_float_array(ptr: &mut Vec<u32>)
    ensures
        final(ptr)@ == old(ptr)@.map_values(|v: u32| spec_swap32(v)),
{
    let n = ptr.len();
    let mut i: usize = 0;
    while i < n
        invariant
            i <= n,
            n == ptr@.len(),
            forall|j: int| 0 <= j < i ==> ptr@[j] == spec_swap32(old(ptr)@[j]),
            forall|j: int| i <= j < n ==> ptr@[j] == old(ptr)@[j],
        decreases n - i,
    {
        let v = ptr[i];
        ptr[i] = swap32(v);
        i += 1;
    }
    proof {
        assert(ptr@ =~= old(ptr)@.map_values(|v: u32| spec_swap32(v)));
    }
}

/// Reverse the byte order of every 64-bit float bit pattern in place.
pub fn endswap_double_array(ptr: &mut Vec<u64>)
    ensures
        final(ptr)@ == old(ptr)@.map_values(|v: u64| spec_swap64(v)),
{
    let n = ptr.len();
    let mut i: usize = 0;
    while i < n
        invariant
            i <= n,
            n == ptr@.len(),
            forall|j: int| 0 <= j < i ==> ptr@[j] == spec_swap64(old(ptr)@[j]),
            forall|j: int| i <= j < n ==> ptr@[j] == old(ptr)@[j],
        decreases n - i,
    {
        let v = ptr[i];
        ptr[i] = swap64(v);
        i += 1;
    }
    proof {
        assert(ptr@ =~= old(ptr)@.map_values(|v: u64| spec_swap64(v)));
    }
}

/// Produce a byte-order-reversed copy of a buffer of 32-bit float bit
/// patterns without mutating the source.
pub fn endswap_float_copy(dest: &mut Vec<u32>, src: &Vec<u32>)
    requires
        old(dest)@.len() == src@.len(),
    ensures
        final(dest)@ == src@.map_values(|v: u32| spec_swap32(v)),
{
    let n = src.len();
    let mut i: usize = 0;
    while i < n
        invariant
            i <= n,
            n == src@.len(),
            dest@.len() == n,
            forall|j: int| 0 <= j < i ==> dest@[j] == spec_swap32(src@[j]),
        decreases n - i,
    {
        let v = src[i];
        dest[i] = swap32(v);
        i += 1;
    }
    proof {
        assert(dest@ =~= src@.map_values(|v: u32| spec_swap32(v)));
    }
}

/// Produce a byte-order-reversed copy of a buffer of 64-bit float bit
/// patterns without mutating the source.
pub fn endswap_double_copy(dest: &mut Vec<u64>, src: &Vec<u64>)
    requires
        old(dest)@.len() == src@.len(),
    ensures
        final(dest)@ == src@.map_values(|v: u64| spec_swap64(v)),
{
    let n = src.len();
    let mut i: usize = 0;
    while i < n
        invariant
            i <= n,
            n == src@.len(),
            dest@.len() == n,
            forall|j: int| 0 <= j < i ==> dest@[j] == spec_swap64(src@[j]),
        decreases n - i,
    {
        let v = src[i];
        dest[i] = swap64(v);
        i += 1;
    }
    proof {
        assert(dest@ =~= src@.map_values(|v: u64| spec_swap64(v)));
    }
}

/// Copy 32-bit words into float bit patterns, reversing each element's byte
/// order on the way.
pub fn endswap_f32_int_copy(dest: &mut Vec<u32>, src: &Vec<i32>)
    requires
        old(dest)@.len() == src@.len(),
    ensures
        final(dest)@ == src@.map_values(|v: i32| spec_swap32(v as u32)),
{
    let n = src.len();
    let mut i: usize = 0;
    while i < n
        invariant
            i <= n,
            n == src@.len(),
            dest@.len() == n,
            forall|j: int| 0 <= j < i ==> dest@[j] == spec_swap32(src@[j] as u32),
        decreases n - i,
    {
        let v = src[i];
        dest[i] = swap32(v as u32);
        i += 1;
    }
    proof {
        assert(dest@ =~= src@.map_values(|v: i32| spec_swap32(v as u32)));
    }
}

/// Copy float bit patterns into 32-bit words, reversing each element's byte
/// order on the way.
pub fn endswap_int_f32_copy(dest: &mut Vec<i32>, src: &Vec<u32>)
    requires
        old(dest)@.len() == src@.len(),
    ensures
        final(dest)@ == src@.map_values(|v: u32| spec_swap32(v) as i32),
{
    let n = src.len();
    let mut i: usize = 0;
    while i < n
        invariant
            i <= n,
            n == src@.len(),
            dest@.len() == n,
            forall|j: int| 0 <= j < i ==> dest@[j] == spec_swap32(src@[j]) as i32,
        decreases n - i,
    {
        let v = src[i];
        dest[i] = swap32(v) as i32;
        i += 1;
    }
    proof {
        assert(dest@ =~= src@.map_values(|v: u32| spec_swap32(v) as i32));
    }
}

/// The 24-bit big-endian value starting at `offset`, shifted into the high
/// three bytes of a signed 32-bit word.
pub open spec fn spec_get_be24(s: Seq<u8>, offset: int) -> i32 {
    (((s[offset] as u32) << 24) | ((s[offset + 1] as u32) << 16) | ((s[offset + 2] as u32)
        << 8)) as i32
}

/// The 24-bit little-endian value starting at `offset`, shifted into the high
/// three bytes of a signed 32-bit word.
pub open spec fn spec_get_le24(s: Seq<u8>, offset: int) -> i32 {
    (((s[offset + 2] as u32) << 24) | ((s[offset + 1] as u32) << 16) | ((s[offset] as u32)
        << 8)) as i32
}

/// Read a big-endian packed 24-bit value into the high bytes of an `i32`.
pub fn psf_get_be24(ptr: &[u8], offset: usize) -> (r: i32)
    requires
        offset + 3 <= ptr@.len(),
    ensures
        r == spec_get_be24(ptr@, offset as int),
{
    let n = ptr.len();
    let b0 = ptr[offset];
    let b1 = ptr[offset + 1];
    let b2 = ptr[offset + 2];
    #[verifier::truncate]
    let value: i32 = (((b0 as u32) << 24) | ((b1 as u32) << 16) | ((b2 as u32) << 8)) as i32;
    value
}

/// Read a little-endian packed 24-bit value into the high bytes of an `i32`.
pub fn psf_get_le24(ptr: &[u8], offset: usize) -> (r: i32)
    requires
        offset + 3 <= ptr@.len(),
    ensures
        r == spec_get_le24(ptr@, offset as int),
{
    let n = ptr.len();
    let b2 = ptr[offset + 2];
    let b1 = ptr[offset + 1];
    let b0 = ptr[offset];
    #[verifier::truncate]
    let value: i32 = (((b2 as u32) << 24) | ((b1 as u32) << 16) | ((b0 as u32) << 8)) as i32;
    value
}

/// Unpack a 32-bit float bit pattern from four big-endian bytes.
pub fn float32_be_read(cptr: &[u8]) -> (r: u32)
    requires
        cptr@.len() >= 4,
    ensures
        r == (((cptr@[0] as u32) << 24) | ((cptr@[1] as u32) << 16) | ((cptr@[2] as u32) << 8) | (
        cptr@[3] as u32)),
{
    ((cptr[0] as u32) << 24) | ((cptr[1] as u32) << 16) | ((cptr[2] as u32) << 8) | (
    cptr[3] as u32)
}

/// Unpack a 32-bit float bit pattern from four little-endian bytes.
pub fn float32_le_read(cptr: &[u8]) -> (r: u32)
    requires
        cptr@.len() >= 4,
    ensures
        r == (((cptr@[3] as u32) << 24) | ((cptr@[2] as u32) << 16) | ((cptr@[1] as u32) << 8) | (
        cptr@[0] as u32)),
{
    ((cptr[3] as u32) << 24) | ((cptr[2] as u32) << 16) | ((cptr[1] as u32) << 8) | (
    cptr[0] as u32)
}

/// Pack a 32-bit float bit pattern into four little-endian bytes.
pub fn float32_le_write(input: u32, output: &mut Vec<u8>)
    requires
        old(output)@.len() >= 4,
    ensures
        final(output)@.len() == old(output)@.len(),
        final(output)@[0] == (input & 0xff) as u8,
        final(output)@[1] == ((input >> 8) & 0xff) as u8,
        final(output)@[2] == ((input >> 16) & 0xff) as u8,
        final(output)@[3] == ((input >> 24) & 0xff) as u8,
        forall|j: int| 4 <= j < old(output)@.len() ==> final(output)@[j] == old(output)@[j],
{
    output[0] = (input & 0xff) as u8;
    output[1] = ((input >> 8) & 0xff) as u8;
    output[2] = ((input >> 16) & 0xff) as u8;
    output[3] = ((input >> 24) & 0xff) as u8;
}

/// Pack a 32-bit float bit pattern into four big-endian bytes.
pub fn float32_be_write(input: u32, output: &mut Vec<u8>)
    requires
        old(output)@.len() >= 4,
    ensures
        final(output)@.len() == old(output)@.len(),
        final(output)@[0] == ((input >> 24) & 0xff) as u8,
        final(output)@[1] == ((input >> 16) & 0xff) as u8,
        final(output)@[2] == ((input >> 8) & 0xff) as u8,
        final(output)@[3] == (input & 0xff) as u8,
        forall|j: int| 4 <= j < old(output)@.len() ==> final(output)@[j] == old(output)@[j],
{
    output[0] = ((input >> 24) & 0xff) as u8;
    output[1] = ((input >> 16) & 0xff) as u8;
    output[2] = ((input >> 8) & 0xff) as u8;
    output[3] = (input & 0xff) as u8;
}

} // verus!
