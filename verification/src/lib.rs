//! Sample-format conversion and endian-normalization engine for sound-file
//! I/O: byte-order primitives, numeric conversion kernels between on-disk
//! encodings and host sample types, an IEEE-754 capability probe, buffered
//! codec read/write drivers, and per-channel peak tracking.
//!
//! Sample values of the 32-bit and 64-bit binary floating-point kinds are
//! carried as their IEEE-754 bit patterns (`u32` / `u64`), and all arithmetic
//! on them is done by a verified pure-integer software implementation, so the
//! whole pipeline is bit-exact and machine-checked.
#![allow(non_camel_case_types)]

use vstd::prelude::*;

pub mod drivers;
pub mod endian;
pub mod ieee;
pub mod kernels;
pub mod pcm;
pub mod peak;
pub mod session;

verus! {

/// Internal error code reported on a precondition violation at init time.
pub const SFE_INTERNAL: i32 = 29;

/// Size in bytes of the fixed intermediate conversion buffer.
pub const SF_BUFFER_LEN: usize = 8192;

/// Boolean flag as the session stores it.
#[derive(Clone, Copy, PartialEq, Eq, Structural, Debug)]
pub enum SF_BOOL {
    FALSE,
    TRUE,
}

impl Default for SF_BOOL {
    fn default() -> (r: Self)
        ensures
            r == SF_BOOL::FALSE,
    {
        SF_BOOL::FALSE
    }
}

/// Origin for a seek on the underlying stream.
#[derive(Clone, Copy, PartialEq, Eq, Structural, Debug)]
pub enum SF_SEEK_MODE {
    SET,
    CUR,
    END,
}

/// Whether a peak chunk is written at the start or the end of the file.
#[derive(Clone, Copy, PartialEq, Eq, Structural, Debug)]
pub enum SF_PEAK_LOCATION {
    SF_PEAK_START,
    SF_PEAK_END,
}

} // verus!
