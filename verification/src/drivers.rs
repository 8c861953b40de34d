//! Buffered codec I/O drivers: the per-host-type read and write entry points
//! that loop over a fixed-size intermediate buffer, pull or push 32-bit words
//! through the buffered I/O primitive, byte-swap when file and host order
//! differ, run the numeric conversion kernel, and (on write) update the peak
//! table — for both the native-IEEE and the software-replacement families.
//!
//! The buffered I/O primitive itself is a collaborator the container layer
//! supplies; [`BufferedIo`] states its contract, and [`MemIo`] is a verified
//! in-memory implementation of it.  A transfer may be short: the driver then
//! stops looping and returns the total moved so far, which is how end of
//! stream and backpressure reach the caller.

use vstd::prelude::*;

use crate::SF_BUFFER_LEN;
use crate::endian::endswap_float_array;
use crate::endian::spec_swap32;
use crate::kernels::d2f_array;
use crate::kernels::f2d_array;
use crate::kernels::f2i_array;
use crate::kernels::f2i_clip_array;
use crate::kernels::f2s_array;
use crate::kernels::f2s_clip_array;
use crate::kernels::i2f_array;
use crate::kernels::s2f_array;
use crate::kernels::spec_f2i;
use crate::kernels::spec_f2i_clip;
use crate::kernels::spec_f2s;
use crate::kernels::spec_f2s_clip;
use crate::kernels::spec_i2f;
use crate::kernels::spec_s2f;
use crate::ieee::spec_f32_to_f64;
use crate::ieee::spec_f64_to_f32;
use crate::peak::PEAK_POS;
use crate::peak::float32_peak_update;
use crate::peak::spec_peak_after;
use crate::session::FLOAT_CODEC;
use crate::session::SF_PRIVATE;
use vstd::arithmetic::div_mod::lemma_fundamental_div_mod;
use vstd::arithmetic::div_mod::lemma_mod_multiples_vanish;

verus! {

/// Words of the fixed-size intermediate buffer: the byte buffer holds 32-bit
/// elements on this codec path.
pub const BUF_WORDS: usize = SF_BUFFER_LEN / 4;

/// The buffered I/O primitive the container layer supplies, at the 32-bit
/// word granularity of this codec: a word is the four bytes of one on-disk
/// sample in host memory order.  A read or write may move fewer elements
/// than asked — that is the normal end-of-stream or backpressure signal, not
/// an error, and the underlying layer reports details through its own error
/// channel.
pub trait BufferedIo {
    /// The words still to be read, in order.
    spec fn remaining(&self) -> Seq<u32>;

    /// The words written so far, in order.
    spec fn written(&self) -> Seq<u32>;

    /// Read up to `count` words: what comes back is the next prefix of the
    /// remaining words, possibly shorter than asked.
    fn read_words(&mut self, count: usize) -> (r: Vec<u32>)
        ensures
            r@.len() <= count,
            r@.len() <= old(self).remaining().len(),
            r@ == old(self).remaining().take(r@.len() as int),
            final(self).remaining() == old(self).remaining().skip(r@.len() as int),
            final(self).written() == old(self).written(),
    ;

    /// Write the first `count` words of `buf`: what was taken is a prefix,
    /// possibly shorter than asked.
    fn write_words(&mut self, buf: &Vec<u32>, count: usize) -> (r: usize)
        requires
            count <= buf@.len(),
        ensures
            r <= count,
            final(self).written() == old(self).written() + buf@.take(r as int),
            final(self).remaining() == old(self).remaining(),
    ;
}

/// An in-memory implementation of the buffered I/O primitive: reads walk
/// `data` from `pos`, writes append to `sink`.  `read_limit` caps how many
/// words one read call hands out, so a test bench can exercise short
/// transfers.
pub struct MemIo {
    /// The words a reader will be served.
    pub data: Vec<u32>,
    /// How many of them have been consumed.
    pub pos: usize,
    /// Everything written so far.
    pub sink: Vec<u32>,
    /// The most words one read call returns.
    pub read_limit: usize,
    /// The most words one write call accepts.
    pub write_limit: usize,
}

impl MemIo {
    /// An empty exchange with no read cap.
    pub fn new() -> (r: MemIo)
        ensures
            r.remaining() == Seq::<u32>::empty(),
            r.written() == Seq::<u32>::empty(),
            r.read_limit == usize::MAX,
            r.write_limit == usize::MAX,
    {
        let r = MemIo {
            data: Vec::new(),
            pos: 0,
            sink: Vec::new(),
            read_limit: usize::MAX,
            write_limit: usize::MAX,
        };
        proof {
            assert(r.data@.skip(0) =~= Seq::<u32>::empty());
        }
        r
    }

    /// A reader over the given words, serving at most `read_limit` per call.
    pub fn reader(data: Vec<u32>, read_limit: usize) -> (r: MemIo)
        ensures
            r.remaining() == data@,
            r.written() == Seq::<u32>::empty(),
            r.read_limit == read_limit,
            r.write_limit == usize::MAX,
    {
        let r = MemIo { data, pos: 0, sink: Vec::new(), read_limit, write_limit: usize::MAX };
        proof {
            assert(r.data@.skip(0) =~= r.data@);
        }
        r
    }
}

impl BufferedIo for MemIo {
    open spec fn remaining(&self) -> Seq<u32> {
        if self.pos <= self.data@.len() {
            self.data@.skip(self.pos as int)
        } else {
            Seq::empty()
        }
    }

    open spec fn written(&self) -> Seq<u32> {
        self.sink@
    }

    fn read_words(&mut self, count: usize) -> (r: Vec<u32>)
        ensures
            r@.len() <= count,
            r@.len() <= old(self).remaining().len(),
            r@ == old(self).remaining().take(r@.len() as int),
            final(self).remaining() == old(self).remaining().skip(r@.len() as int),
            final(self).written() == old(self).written(),
    {
        let len = self.data.len();
        let avail = if self.pos <= len {
            len - self.pos
        } else {
            0
        };
        let mut n = if count < avail {
            count
        } else {
            avail
        };
        if self.read_limit < n {
            n = self.read_limit;
        }
        let mut r: Vec<u32> = Vec::new();
        let mut i: usize = 0;
        while i < n
            invariant
                i <= n,
                self == old(self),
                len == self.data@.len(),
                n == 0 || self.pos + n <= len,
                r@.len() == i,
                forall|j: int| 0 <= j < i ==> r@[j] == self.data@[self.pos + j],
            decreases n - i,
        {
            r.push(self.data[self.pos + i]);
            i += 1;
        }
        self.pos = self.pos + n;
        proof {
            assert(r@ =~= old(self).remaining().take(n as int));
            assert(self.remaining() =~= old(self).remaining().skip(n as int));
        }
        r
    }

    fn write_words(&mut self, buf: &Vec<u32>, count: usize) -> (r: usize)
        ensures
            r <= count,
            final(self).written() == old(self).written() + buf@.take(r as int),
            final(self).remaining() == old(self).remaining(),
    {
        let n = if self.write_limit < count {
            self.write_limit
        } else {
            count
        };
        let mut i: usize = 0;
        while i < n
            invariant
                i <= n,
                n <= count,
                count <= buf@.len(),
                self.data == old(self).data,
                self.pos == old(self).pos,
                self.read_limit == old(self).read_limit,
                self.write_limit == old(self).write_limit,
                self.sink@.len() == old(self).sink@.len() + i,
                forall|j: int| 0 <= j < old(self).sink@.len() ==> self.sink@[j] == old(self).sink@[j],
                forall|j: int| 0 <= j < i ==> self.sink@[old(self).sink@.len() + j] == buf@[j],
            decreases n - i,
        {
            let w = buf[i];
            self.sink.push(w);
            i += 1;
        }
        proof {
            assert(self.sink@ =~= old(self).sink@ + buf@.take(n as int));
        }
        n
    }
}

/// Copy `count` elements starting at `from` into a fresh buffer.
pub fn vec_range<T: Copy>(src: &Vec<T>, from: usize, count: usize) -> (r: Vec<T>)
    requires
        from + count <= src@.len(),
    ensures
        r@ == src@.subrange(from as int, from + count),
{
    let srclen = src.len();
    let mut r: Vec<T> = Vec::new();
    let mut i: usize = 0;
    while i < count
        invariant
            i <= count,
            from + count <= srclen,
            srclen == src@.len(),
            r@.len() == i,
            forall|j: int| 0 <= j < i ==> r@[j] == src@[from + j],
        decreases count - i,
    {
        r.push(src[from + i]);
        i += 1;
    }
    proof {
        assert(r@ =~= src@.subrange(from as int, from + count as int));
    }
    r
}

/// Overwrite `dest` from `off` on with the elements of `part`, leaving the
/// rest unchanged.
pub fn vec_splice<T: Copy>(dest: &mut Vec<T>, off: usize, part: &Vec<T>)
    requires
        off + part@.len() <= old(dest)@.len(),
    ensures
        final(dest)@.len() == old(dest)@.len(),
        forall|j: int| 0 <= j < part@.len() ==> final(dest)@[off + j] == part@[j],
        forall|j: int|
            0 <= j < old(dest)@.len() && !(off <= j < off + part@.len()) ==> final(dest)@[j] == old(
                dest,
            )@[j],
{
    let n = part.len();
    let destlen = dest.len();
    let mut i: usize = 0;
    while i < n
        invariant
            i <= n,
            n == part@.len(),
            off + n <= destlen,
            destlen == dest@.len(),
            dest@.len() == old(dest)@.len(),
            forall|j: int| 0 <= j < i ==> dest@[off + j] == part@[j],
            forall|j: int|
                0 <= j < dest@.len() && !(off <= j < off + i) ==> dest@[j] == old(dest)@[j],
        decreases n - i,
    {
        dest[off + i] = part[i];
        i += 1;
    }
}

/// A word as the read path sees it after any byte-order correction.
pub open spec fn spec_read_word(psf: SF_PRIVATE, w: u32) -> u32 {
    if psf.data_endswap {
        spec_swap32(w)
    } else {
        w
    }
}

/// One on-disk word through the float-to-16-bit read path of a session.
pub open spec fn spec_read_f2s_elem(psf: SF_PRIVATE, w: u32) -> i16 {
    if psf.add_clipping {
        spec_f2s_clip(spec_read_word(psf, w), psf.spec_read_scale_short())
    } else {
        spec_f2s(spec_read_word(psf, w), psf.spec_read_scale_short())
    }
}

/// One on-disk word through the float-to-32-bit read path of a session.
pub open spec fn spec_read_f2i_elem(psf: SF_PRIVATE, w: u32) -> i32 {
    if psf.add_clipping {
        spec_f2i_clip(spec_read_word(psf, w), psf.spec_read_scale_int())
    } else {
        spec_f2i(spec_read_word(psf, w), psf.spec_read_scale_int())
    }
}

/// One on-disk word through the replacement float-to-16-bit read path, which
/// applies the representation fix-up and never clips.
pub open spec fn spec_replace_read_f2s_elem(psf: SF_PRIVATE, w: u32) -> i16 {
    spec_f2s(spec_read_word(psf, w), psf.spec_read_scale_short())
}

/// One on-disk word through the replacement float-to-32-bit read path, which
/// applies the representation fix-up and never clips.
pub open spec fn spec_replace_read_f2i_elem(psf: SF_PRIVATE, w: u32) -> i32 {
    spec_f2i(spec_read_word(psf, w), psf.spec_read_scale_int())
}

/// One on-disk word through the float-to-64-bit read path of a session.
pub open spec fn spec_read_f2d_elem(psf: SF_PRIVATE, w: u32) -> u64 {
    spec_f32_to_f64(spec_read_word(psf, w))
}

/// Read up to `len` float samples, convert them to 16-bit samples into the
/// front of `ptr`, and return how many were moved; fewer than `len` signals
/// end of stream.
pub fn host_read_f2s<IO: BufferedIo>(
    psf: &SF_PRIVATE,
    io: &mut IO,
    ptr: &mut Vec<i16>,
    len: usize,
) -> (total: usize)
    requires
        len <= old(ptr)@.len(),
    ensures
        total <= len,
        final(io).remaining() == old(io).remaining().skip(total as int),
        final(io).written() == old(io).written(),
        final(ptr)@.len() == old(ptr)@.len(),
        forall|j: int|
            0 <= j < total ==> final(ptr)@[j] == spec_read_f2s_elem(
                *psf,
                old(io).remaining()[j],
            ),
        forall|j: int| total <= j < old(ptr)@.len() ==> final(ptr)@[j] == old(ptr)@[j],
{
    let scale = psf.read_scale_short();
    let mut total: usize = 0;
    let mut remaining: usize = len;
    while remaining > 0
        invariant
            total + remaining == len,
            total <= old(io).remaining().len(),
            len <= ptr@.len(),
            ptr@.len() == old(ptr)@.len(),
            scale == psf.spec_read_scale_short(),
            io.remaining() == old(io).remaining().skip(total as int),
            io.written() == old(io).written(),
            forall|j: int|
                0 <= j < total ==> ptr@[j] == spec_read_f2s_elem(*psf, old(io).remaining()[j]),
            forall|j: int| total <= j < ptr@.len() ==> ptr@[j] == old(ptr)@[j],
        decreases remaining,
    {
        let bufferlen = if remaining < BUF_WORDS {
            remaining
        } else {
            BUF_WORDS
        };
        let mut chunk = io.read_words(bufferlen);
        let readcount = chunk.len();
        if psf.data_endswap {
            endswap_float_array(&mut chunk);
        }
        proof {
            assert forall|i: int| 0 <= i < readcount implies chunk@[i] == spec_read_word(
                *psf,
                old(io).remaining()[total + i],
            ) by {
                assert(old(io).remaining().skip(total as int)[i] == old(io).remaining()[total + i]);
            }
        }
        let part = if psf.add_clipping {
            f2s_clip_array(&chunk, 0, readcount, scale)
        } else {
            f2s_array(&chunk, 0, readcount, scale)
        };
        vec_splice(ptr, total, &part);
        proof {
            assert(io.remaining() =~= old(io).remaining().skip(total + readcount));
            assert forall|j2: int| total <= j2 < total + readcount implies ptr@[j2]
                == spec_read_f2s_elem(*psf, old(io).remaining()[j2]) by {
                assert(ptr@[total + (j2 - total)] == part@[j2 - total]);
                assert(chunk@[j2 - total] == spec_read_word(*psf, old(io).remaining()[j2]));
            }
        }
        total = total + readcount;
        if readcount < bufferlen {
            return total;
        }
        remaining = remaining - readcount;
    }
    total
}

/// Read up to `len` float samples, convert them to 32-bit samples into the
/// front of `ptr`, and return how many were moved.
pub fn host_read_f2i<IO: BufferedIo>(
    psf: &SF_PRIVATE,
    io: &mut IO,
    ptr: &mut Vec<i32>,
    len: usize,
) -> (total: usize)
    requires
        len <= old(ptr)@.len(),
    ensures
        total <= len,
        final(io).remaining() == old(io).remaining().skip(total as int),
        final(io).written() == old(io).written(),
        final(ptr)@.len() == old(ptr)@.len(),
        forall|j: int|
            0 <= j < total ==> final(ptr)@[j] == spec_read_f2i_elem(
                *psf,
                old(io).remaining()[j],
            ),
        forall|j: int| total <= j < old(ptr)@.len() ==> final(ptr)@[j] == old(ptr)@[j],
{
    let scale = psf.read_scale_int();
    let mut total: usize = 0;
    let mut remaining: usize = len;
    while remaining > 0
        invariant
            total + remaining == len,
            total <= old(io).remaining().len(),
            len <= ptr@.len(),
            ptr@.len() == old(ptr)@.len(),
            scale == psf.spec_read_scale_int(),
            io.remaining() == old(io).remaining().skip(total as int),
            io.written() == old(io).written(),
            forall|j: int|
                0 <= j < total ==> ptr@[j] == spec_read_f2i_elem(*psf, old(io).remaining()[j]),
            forall|j: int| total <= j < ptr@.len() ==> ptr@[j] == old(ptr)@[j],
        decreases remaining,
    {
        let bufferlen = if remaining < BUF_WORDS {
            remaining
        } else {
            BUF_WORDS
        };
        let mut chunk = io.read_words(bufferlen);
        let readcount = chunk.len();
        if psf.data_endswap {
            endswap_float_array(&mut chunk);
        }
        proof {
            assert forall|i: int| 0 <= i < readcount implies chunk@[i] == spec_read_word(
                *psf,
                old(io).remaining()[total + i],
            ) by {
                assert(old(io).remaining().skip(total as int)[i] == old(io).remaining()[total + i]);
            }
        }
        let part = if psf.add_clipping {
            f2i_clip_array(&chunk, 0, readcount, scale)
        } else {
            f2i_array(&chunk, 0, readcount, scale)
        };
        vec_splice(ptr, total, &part);
        proof {
            assert(io.remaining() =~= old(io).remaining().skip(total + readcount));
            assert forall|j2: int| total <= j2 < total + readcount implies ptr@[j2]
                == spec_read_f2i_elem(*psf, old(io).remaining()[j2]) by {
                assert(ptr@[total + (j2 - total)] == part@[j2 - total]);
                assert(chunk@[j2 - total] == spec_read_word(*psf, old(io).remaining()[j2]));
            }
        }
        total = total + readcount;
        if readcount < bufferlen {
            return total;
        }
        remaining = remaining - readcount;
    }
    total
}

/// Read up to `len` float samples straight into the front of `ptr`: a pure
/// pass-through when no byte swap is needed, a swap through the intermediate
/// buffer otherwise.
pub fn host_read_f<IO: BufferedIo>(
    psf: &SF_PRIVATE,
    io: &mut IO,
    ptr: &mut Vec<u32>,
    len: usize,
) -> (total: usize)
    requires
        len <= old(ptr)@.len(),
    ensures
        total <= len,
        final(io).remaining() == old(io).remaining().skip(total as int),
        final(io).written() == old(io).written(),
        final(ptr)@.len() == old(ptr)@.len(),
        forall|j: int|
            0 <= j < total ==> final(ptr)@[j] == spec_read_word(*psf, old(io).remaining()[j]),
        forall|j: int| total <= j < old(ptr)@.len() ==> final(ptr)@[j] == old(ptr)@[j],
{
    if !psf.data_endswap {
        let chunk = io.read_words(len);
        let readcount = chunk.len();
        vec_splice(ptr, 0, &chunk);
        proof {
            assert forall|j: int| 0 <= j < readcount implies ptr@[j] == spec_read_word(
                *psf,
                old(io).remaining()[j],
            ) by {
                assert(ptr@[0 + j] == chunk@[j]);
            }
        }
        return readcount;
    }
    let mut total: usize = 0;
    let mut remaining: usize = len;
    while remaining > 0
        invariant
            psf.data_endswap,
            total + remaining == len,
            total <= old(io).remaining().len(),
            len <= ptr@.len(),
            ptr@.len() == old(ptr)@.len(),
            io.remaining() == old(io).remaining().skip(total as int),
            io.written() == old(io).written(),
            forall|j: int|
                0 <= j < total ==> ptr@[j] == spec_read_word(*psf, old(io).remaining()[j]),
            forall|j: int| total <= j < ptr@.len() ==> ptr@[j] == old(ptr)@[j],
        decreases remaining,
    {
        let bufferlen = if remaining < BUF_WORDS {
            remaining
        } else {
            BUF_WORDS
        };
        let mut chunk = io.read_words(bufferlen);
        let readcount = chunk.len();
        endswap_float_array(&mut chunk);
        proof {
            assert forall|i: int| 0 <= i < readcount implies chunk@[i] == spec_read_word(
                *psf,
                old(io).remaining()[total + i],
            ) by {
                assert(old(io).remaining().skip(total as int)[i] == old(io).remaining()[total + i]);
            }
        }
        vec_splice(ptr, total, &chunk);
        proof {
            assert(io.remaining() =~= old(io).remaining().skip(total + readcount));
            assert forall|j2: int| total <= j2 < total + readcount implies ptr@[j2]
                == spec_read_word(*psf, old(io).remaining()[j2]) by {
                assert(ptr@[total + (j2 - total)] == chunk@[j2 - total]);
                assert(chunk@[j2 - total] == spec_read_word(*psf, old(io).remaining()[j2]));
            }
        }
        total = total + readcount;
        if readcount < bufferlen {
            return total;
        }
        remaining = remaining - readcount;
    }
    total
}

/// Read up to `len` float samples, widen them to 64-bit float samples into
/// the front of `ptr`, and return how many were moved.
pub fn host_read_f2d<IO: BufferedIo>(
    psf: &SF_PRIVATE,
    io: &mut IO,
    ptr: &mut Vec<u64>,
    len: usize,
) -> (total: usize)
    requires
        len <= old(ptr)@.len(),
    ensures
        total <= len,
        final(io).remaining() == old(io).remaining().skip(total as int),
        final(io).written() == old(io).written(),
        final(ptr)@.len() == old(ptr)@.len(),
        forall|j: int|
            0 <= j < total ==> final(ptr)@[j] == spec_read_f2d_elem(
                *psf,
                old(io).remaining()[j],
            ),
        forall|j: int| total <= j < old(ptr)@.len() ==> final(ptr)@[j] == old(ptr)@[j],
{
    let mut total: usize = 0;
    let mut remaining: usize = len;
    while remaining > 0
        invariant
            total + remaining == len,
            total <= old(io).remaining().len(),
            len <= ptr@.len(),
            ptr@.len() == old(ptr)@.len(),
            io.remaining() == old(io).remaining().skip(total as int),
            io.written() == old(io).written(),
            forall|j: int|
                0 <= j < total ==> ptr@[j] == spec_read_f2d_elem(*psf, old(io).remaining()[j]),
            forall|j: int| total <= j < ptr@.len() ==> ptr@[j] == old(ptr)@[j],
        decreases remaining,
    {
        let bufferlen = if remaining < BUF_WORDS {
            remaining
        } else {
            BUF_WORDS
        };
        let mut chunk = io.read_words(bufferlen);
        let readcount = chunk.len();
        if psf.data_endswap {
            endswap_float_array(&mut chunk);
        }
        proof {
            assert forall|i: int| 0 <= i < readcount implies chunk@[i] == spec_read_word(
                *psf,
                old(io).remaining()[total + i],
            ) by {
                assert(old(io).remaining().skip(total as int)[i] == old(io).remaining()[total + i]);
            }
        }
        let part = f2d_array(&chunk, 0, readcount);
        vec_splice(ptr, total, &part);
        proof {
            assert(io.remaining() =~= old(io).remaining().skip(total + readcount));
            assert forall|j2: int| total <= j2 < total + readcount implies ptr@[j2]
                == spec_read_f2d_elem(*psf, old(io).remaining()[j2]) by {
                assert(ptr@[total + (j2 - total)] == part@[j2 - total]);
                assert(chunk@[j2 - total] == spec_read_word(*psf, old(io).remaining()[j2]));
            }
        }
        total = total + readcount;
        if readcount < bufferlen {
            return total;
        }
        remaining = remaining - readcount;
    }
    total
}

/// The replacement-family variant of [`host_read_f2s`]: the representation
/// fix-up pass runs between the swap and the kernel, and no clipping is
/// applied.
pub fn replace_read_f2s<IO: BufferedIo>(
    psf: &SF_PRIVATE,
    io: &mut IO,
    ptr: &mut Vec<i16>,
    len: usize,
) -> (total: usize)
    requires
        len <= old(ptr)@.len(),
    ensures
        total <= len,
        final(io).remaining() == old(io).remaining().skip(total as int),
        final(io).written() == old(io).written(),
        final(ptr)@.len() == old(ptr)@.len(),
        forall|j: int|
            0 <= j < total ==> final(ptr)@[j] == spec_replace_read_f2s_elem(
                *psf,
                old(io).remaining()[j],
            ),
        forall|j: int| total <= j < old(ptr)@.len() ==> final(ptr)@[j] == old(ptr)@[j],
{
    let scale = psf.read_scale_short();
    let mut total: usize = 0;
    let mut remaining: usize = len;
    while remaining > 0
        invariant
            total + remaining == len,
            total <= old(io).remaining().len(),
            len <= ptr@.len(),
            ptr@.len() == old(ptr)@.len(),
            scale == psf.spec_read_scale_short(),
            io.remaining() == old(io).remaining().skip(total as int),
            io.written() == old(io).written(),
            forall|j: int|
                0 <= j < total ==> ptr@[j] == spec_replace_read_f2s_elem(
                    *psf,
                    old(io).remaining()[j],
                ),
            forall|j: int| total <= j < ptr@.len() ==> ptr@[j] == old(ptr)@[j],
        decreases remaining,
    {
        let bufferlen = if remaining < BUF_WORDS {
            remaining
        } else {
            BUF_WORDS
        };
        let mut chunk = io.read_words(bufferlen);
        let readcount = chunk.len();
        if psf.data_endswap {
            endswap_float_array(&mut chunk);
        }
        crate::kernels::bf2f_array(&mut chunk);
        proof {
            assert forall|i: int| 0 <= i < readcount implies chunk@[i] == spec_read_word(
                *psf,
                old(io).remaining()[total + i],
            ) by {
                assert(old(io).remaining().skip(total as int)[i] == old(io).remaining()[total + i]);
            }
        }
        let part = f2s_array(&chunk, 0, readcount, scale);
        vec_splice(ptr, total, &part);
        proof {
            assert(io.remaining() =~= old(io).remaining().skip(total + readcount));
            assert forall|j2: int| total <= j2 < total + readcount implies ptr@[j2]
                == spec_replace_read_f2s_elem(*psf, old(io).remaining()[j2]) by {
                assert(ptr@[total + (j2 - total)] == part@[j2 - total]);
                assert(chunk@[j2 - total] == spec_read_word(*psf, old(io).remaining()[j2]));
            }
        }
        total = total + readcount;
        if readcount < bufferlen {
            return total;
        }
        remaining = remaining - readcount;
    }
    total
}

/// The replacement-family variant of [`host_read_f2i`].
pub fn replace_read_f2i<IO: BufferedIo>(
    psf: &SF_PRIVATE,
    io: &mut IO,
    ptr: &mut Vec<i32>,
    len: usize,
) -> (total: usize)
    requires
        len <= old(ptr)@.len(),
    ensures
        total <= len,
        final(io).remaining() == old(io).remaining().skip(total as int),
        final(io).written() == old(io).written(),
        final(ptr)@.len() == old(ptr)@.len(),
        forall|j: int|
            0 <= j < total ==> final(ptr)@[j] == spec_replace_read_f2i_elem(
                *psf,
                old(io).remaining()[j],
            ),
        forall|j: int| total <= j < old(ptr)@.len() ==> final(ptr)@[j] == old(ptr)@[j],
{
    let scale = psf.read_scale_int();
    let mut total: usize = 0;
    let mut remaining: usize = len;
    while remaining > 0
        invariant
            total + remaining == len,
            total <= old(io).remaining().len(),
            len <= ptr@.len(),
            ptr@.len() == old(ptr)@.len(),
            scale == psf.spec_read_scale_int(),
            io.remaining() == old(io).remaining().skip(total as int),
            io.written() == old(io).written(),
            forall|j: int|
                0 <= j < total ==> ptr@[j] == spec_replace_read_f2i_elem(
                    *psf,
                    old(io).remaining()[j],
                ),
            forall|j: int| total <= j < ptr@.len() ==> ptr@[j] == old(ptr)@[j],
        decreases remaining,
    {
        let bufferlen = if remaining < BUF_WORDS {
            remaining
        } else {
            BUF_WORDS
        };
        let mut chunk = io.read_words(bufferlen);
        let readcount = chunk.len();
        if psf.data_endswap {
            endswap_float_array(&mut chunk);
        }
        crate::kernels::bf2f_array(&mut chunk);
        proof {
            assert forall|i: int| 0 <= i < readcount implies chunk@[i] == spec_read_word(
                *psf,
                old(io).remaining()[total + i],
            ) by {
                assert(old(io).remaining().skip(total as int)[i] == old(io).remaining()[total + i]);
            }
        }
        let part = f2i_array(&chunk, 0, readcount, scale);
        vec_splice(ptr, total, &part);
        proof {
            assert(io.remaining() =~= old(io).remaining().skip(total + readcount));
            assert forall|j2: int| total <= j2 < total + readcount implies ptr@[j2]
                == spec_replace_read_f2i_elem(*psf, old(io).remaining()[j2]) by {
                assert(ptr@[total + (j2 - total)] == part@[j2 - total]);
                assert(chunk@[j2 - total] == spec_read_word(*psf, old(io).remaining()[j2]));
            }
        }
        total = total + readcount;
        if readcount < bufferlen {
            return total;
        }
        remaining = remaining - readcount;
    }
    total
}

/// The replacement-family variant of [`host_read_f`]: always loops through
/// the intermediate buffer so the fix-up pass can run.
pub fn replace_read_f<IO: BufferedIo>(
    psf: &SF_PRIVATE,
    io: &mut IO,
    ptr: &mut Vec<u32>,
    len: usize,
) -> (total: usize)
    requires
        len <= old(ptr)@.len(),
    ensures
        total <= len,
        final(io).remaining() == old(io).remaining().skip(total as int),
        final(io).written() == old(io).written(),
        final(ptr)@.len() == old(ptr)@.len(),
        forall|j: int|
            0 <= j < total ==> final(ptr)@[j] == spec_read_word(*psf, old(io).remaining()[j]),
        forall|j: int| total <= j < old(ptr)@.len() ==> final(ptr)@[j] == old(ptr)@[j],
{
    let mut total: usize = 0;
    let mut remaining: usize = len;
    while remaining > 0
        invariant
            total + remaining == len,
            total <= old(io).remaining().len(),
            len <= ptr@.len(),
            ptr@.len() == old(ptr)@.len(),
            io.remaining() == old(io).remaining().skip(total as int),
            io.written() == old(io).written(),
            forall|j: int|
                0 <= j < total ==> ptr@[j] == spec_read_word(*psf, old(io).remaining()[j]),
            forall|j: int| total <= j < ptr@.len() ==> ptr@[j] == old(ptr)@[j],
        decreases remaining,
    {
        let bufferlen = if remaining < BUF_WORDS {
            remaining
        } else {
            BUF_WORDS
        };
        let mut chunk = io.read_words(bufferlen);
        let readcount = chunk.len();
        if psf.data_endswap {
            endswap_float_array(&mut chunk);
        }
        crate::kernels::bf2f_array(&mut chunk);
        proof {
            assert forall|i: int| 0 <= i < readcount implies chunk@[i] == spec_read_word(
                *psf,
                old(io).remaining()[total + i],
            ) by {
                assert(old(io).remaining().skip(total as int)[i] == old(io).remaining()[total + i]);
            }
        }
        vec_splice(ptr, total, &chunk);
        proof {
            assert(io.remaining() =~= old(io).remaining().skip(total + readcount));
            assert forall|j2: int| total <= j2 < total + readcount implies ptr@[j2]
                == spec_read_word(*psf, old(io).remaining()[j2]) by {
                assert(ptr@[total + (j2 - total)] == chunk@[j2 - total]);
                assert(chunk@[j2 - total] == spec_read_word(*psf, old(io).remaining()[j2]));
            }
        }
        total = total + readcount;
        if readcount < bufferlen {
            return total;
        }
        remaining = remaining - readcount;
    }
    total
}

/// The replacement-family variant of [`host_read_f2d`].
pub fn replace_read_f2d<IO: BufferedIo>(
    psf: &SF_PRIVATE,
    io: &mut IO,
    ptr: &mut Vec<u64>,
    len: usize,
) -> (total: usize)
    requires
        len <= old(ptr)@.len(),
    ensures
        total <= len,
        final(io).remaining() == old(io).remaining().skip(total as int),
        final(io).written() == old(io).written(),
        final(ptr)@.len() == old(ptr)@.len(),
        forall|j: int|
            0 <= j < total ==> final(ptr)@[j] == spec_read_f2d_elem(
                *psf,
                old(io).remaining()[j],
            ),
        forall|j: int| total <= j < old(ptr)@.len() ==> final(ptr)@[j] == old(ptr)@[j],
{
    let mut total: usize = 0;
    let mut remaining: usize = len;
    while remaining > 0
        invariant
            total + remaining == len,
            total <= old(io).remaining().len(),
            len <= ptr@.len(),
            ptr@.len() == old(ptr)@.len(),
            io.remaining() == old(io).remaining().skip(total as int),
            io.written() == old(io).written(),
            forall|j: int|
                0 <= j < total ==> ptr@[j] == spec_read_f2d_elem(*psf, old(io).remaining()[j]),
            forall|j: int| total <= j < ptr@.len() ==> ptr@[j] == old(ptr)@[j],
        decreases remaining,
    {
        let bufferlen = if remaining < BUF_WORDS {
            remaining
        } else {
            BUF_WORDS
        };
        let mut chunk = io.read_words(bufferlen);
        let readcount = chunk.len();
        if psf.data_endswap {
            endswap_float_array(&mut chunk);
        }
        crate::kernels::bf2f_array(&mut chunk);
        proof {
            assert forall|i: int| 0 <= i < readcount implies chunk@[i] == spec_read_word(
                *psf,
                old(io).remaining()[total + i],
            ) by {
                assert(old(io).remaining().skip(total as int)[i] == old(io).remaining()[total + i]);
            }
        }
        let part = f2d_array(&chunk, 0, readcount);
        vec_splice(ptr, total, &part);
        proof {
            assert(io.remaining() =~= old(io).remaining().skip(total + readcount));
            assert forall|j2: int| total <= j2 < total + readcount implies ptr@[j2]
                == spec_read_f2d_elem(*psf, old(io).remaining()[j2]) by {
                assert(ptr@[total + (j2 - total)] == part@[j2 - total]);
                assert(chunk@[j2 - total] == spec_read_word(*psf, old(io).remaining()[j2]));
            }
        }
        total = total + readcount;
        if readcount < bufferlen {
            return total;
        }
        remaining = remaining - readcount;
    }
    total
}

/// A word as the write path emits it, after any byte-order correction.
pub open spec fn spec_write_word(psf: SF_PRIVATE, w: u32) -> u32 {
    if psf.data_endswap {
        spec_swap32(w)
    } else {
        w
    }
}

/// One 16-bit sample through the write path of a session: scaled to float,
/// then byte-corrected for the file.
pub open spec fn spec_write_s2f_elem(psf: SF_PRIVATE, v: i16) -> u32 {
    spec_write_word(psf, spec_s2f(v, psf.spec_write_scale_short()))
}

/// One 32-bit sample through the write path of a session.
pub open spec fn spec_write_i2f_elem(psf: SF_PRIVATE, v: i32) -> u32 {
    spec_write_word(psf, spec_i2f(v, psf.spec_write_scale_int()))
}

/// One 64-bit float sample through the write path of a session: narrowed,
/// then byte-corrected.
pub open spec fn spec_write_d2f_elem(psf: SF_PRIVATE, v: u64) -> u32 {
    spec_write_word(psf, spec_f64_to_f32(v))
}

/// The two sessions agree on everything but the peak table.
pub open spec fn spec_config_eq(a: SF_PRIVATE, b: SF_PRIVATE) -> bool {
    &&& b.channels == a.channels
    &&& b.mode == a.mode
    &&& b.endian == a.endian
    &&& b.data_endswap == a.data_endswap
    &&& b.float_int_mult == a.float_int_mult
    &&& b.float_max == a.float_max
    &&& b.scale_int_float == a.scale_int_float
    &&& b.add_clipping == a.add_clipping
    &&& b.read_current == a.read_current
    &&& b.write_current == a.write_current
    &&& b.blockwidth == a.blockwidth
    &&& b.bytewidth == a.bytewidth
    &&& b.filelength == a.filelength
    &&& b.dataoffset == a.dataoffset
    &&& b.dataend == a.dataend
    &&& b.datalength == a.datalength
    &&& b.frames == a.frames
    &&& b.ieee_replace == a.ieee_replace
    &&& b.parselog == a.parselog
    &&& b.float_codec_read == a.float_codec_read
    &&& b.float_codec_write == a.float_codec_write
}

/// `b`'s peak table is `a`'s with the per-channel entries replaced by
/// `newpeaks` (and untouched when `a` has none).
pub open spec fn spec_peak_updated(a: SF_PRIVATE, b: SF_PRIVATE, newpeaks: Seq<PEAK_POS>) -> bool {
    match (a.peak_info, b.peak_info) {
        (Option::None, Option::None) => true,
        (Option::Some(ia), Option::Some(ib)) => {
            &&& ib.peak_loc == ia.peak_loc
            &&& ib.version == ia.version
            &&& ib.timestamp == ia.timestamp
            &&& ib.edit_number == ia.edit_number
            &&& ib.peaks@ == newpeaks
        },
        _ => false,
    }
}

/// The peak table after a whole chunk: every channel updated by
/// [`spec_peak_after`] over that chunk, whose first frame is `indx` frames
/// past the write cursor.
pub open spec fn spec_peaks_after_chunk(
    peaks: Seq<PEAK_POS>,
    chunk: Seq<u32>,
    channels: int,
    wc: u64,
    indx: u64,
) -> Seq<PEAK_POS> {
    Seq::new(peaks.len(), |c: int| spec_peak_after(chunk, channels, c, wc, indx, peaks[c]))
}

/// The peak table after a block of float samples has gone through the write
/// path: the block is cut into pieces of the intermediate buffer's size and
/// each piece updates the table in turn, exactly as the chunked write loop
/// does.
pub open spec fn spec_peak_chunks(
    peaks: Seq<PEAK_POS>,
    block: Seq<u32>,
    channels: int,
    wc: u64,
) -> Seq<PEAK_POS>
    recommends
        channels >= 1,
    decreases block.len(),
    via spec_peak_chunks_decreases
{
    if block.len() == 0 {
        peaks
    } else {
        let cut = block.len() - 1 - ((block.len() - 1) % (BUF_WORDS as int));
        spec_peaks_after_chunk(
            spec_peak_chunks(peaks, block.take(cut), channels, wc),
            block.skip(cut),
            channels,
            wc,
            ((cut / channels) as u64),
        )
    }
}

#[via_fn]
proof fn spec_peak_chunks_decreases(peaks: Seq<PEAK_POS>, block: Seq<u32>, channels: int, wc: u64) {
    if block.len() != 0 {
        let cut = block.len() - 1 - ((block.len() - 1) % (BUF_WORDS as int));
        assert(0 <= cut < block.len());
        assert(block.take(cut).len() == cut);
    }
}

/// Chunked peak updates keep one entry per channel.
pub proof fn lemma_peak_chunks_len(peaks: Seq<PEAK_POS>, block: Seq<u32>, channels: int, wc: u64)
    ensures
        spec_peak_chunks(peaks, block, channels, wc).len() == peaks.len(),
    decreases block.len(),
{
    if block.len() != 0 {
        let cut = block.len() - 1 - ((block.len() - 1) % (BUF_WORDS as int));
        assert(0 <= cut < block.len());
        lemma_peak_chunks_len(peaks, block.take(cut), channels, wc);
    }
}

/// How far into the requested block the chunked write loop got before it
/// stopped: up to the end of the chunk in which the transfer ended.
pub open spec fn spec_attempted(total: int, len: int) -> int {
    if total == len {
        len
    } else {
        let base = total - (total % (BUF_WORDS as int));
        if base + BUF_WORDS <= len {
            base + BUF_WORDS
        } else {
            len
        }
    }
}

/// Peeling the last chunk off a block whose length is one whole number of
/// buffer-sized pieces plus a final piece of `bl` words.
proof fn lemma_peak_chunks_step(
    peaks: Seq<PEAK_POS>,
    block: Seq<u32>,
    channels: int,
    wc: u64,
    total: int,
    bl: int,
)
    requires
        channels >= 1,
        0 <= total,
        total % (BUF_WORDS as int) == 0,
        1 <= bl <= BUF_WORDS,
        block.len() == total + bl,
    ensures
        spec_peak_chunks(peaks, block, channels, wc) == spec_peaks_after_chunk(
            spec_peak_chunks(peaks, block.take(total), channels, wc),
            block.skip(total),
            channels,
            wc,
            ((total / channels) as u64),
        ),
{
    lemma_fundamental_div_mod(total, BUF_WORDS as int);
    lemma_mod_multiples_vanish(total / (BUF_WORDS as int), bl - 1, BUF_WORDS as int);
    assert((total + (bl - 1)) % (BUF_WORDS as int) == (bl - 1) % (BUF_WORDS as int));
    assert((bl - 1) % (BUF_WORDS as int) == bl - 1);
    assert(block.len() - 1 - ((block.len() - 1) % (BUF_WORDS as int)) == total);
}

/// The words a chunked write loop has handed the sink after `total` source
/// elements, as a mapped prefix.
proof fn lemma_written_extend<T>(
    src: Seq<T>,
    total: int,
    wc: int,
    f: spec_fn(T) -> u32,
    chunkw: Seq<u32>,
)
    requires
        0 <= total,
        0 <= wc,
        total + wc <= src.len(),
        wc <= chunkw.len(),
        forall|i: int| 0 <= i < wc ==> chunkw[i] == f(src[total + i]),
    ensures
        src.take(total + wc).map_values(f) == src.take(total).map_values(f) + chunkw.take(wc),
{
    assert(src.take(total + wc).map_values(f) =~= src.take(total).map_values(f) + chunkw.take(
        wc,
    ));
}

/// Write up to `len` 16-bit samples: scale each to a float sample, track
/// peaks on the pre-swap values, byte-correct, and push the words out through
/// the buffered primitive; the returned count is what the sink accepted.
#[verifier::rlimit(60)]
pub fn host_write_s2f<IO: BufferedIo>(
    psf: &mut SF_PRIVATE,
    io: &mut IO,
    ptr: &Vec<i16>,
    len: usize,
) -> (total: usize)
    requires
        len <= ptr@.len(),
        old(psf).peak_info is Some ==> {
            &&& 1 <= old(psf).channels <= BUF_WORDS
            &&& old(psf).peak_info->Some_0.peaks@.len() == old(psf).channels
            &&& (len % BUF_WORDS == 0 || len % BUF_WORDS >= old(psf).channels)
            &&& old(psf).write_current + len + BUF_WORDS <= u64::MAX
        },
    ensures
        total <= len,
        final(io).remaining() == old(io).remaining(),
        final(io).written() == old(io).written() + ptr@.take(total as int).map_values(
            |v: i16| spec_write_s2f_elem(*old(psf), v),
        ),
        spec_config_eq(*old(psf), *final(psf)),
        old(psf).peak_info is None ==> final(psf).peak_info is None,
        old(psf).peak_info is Some ==> spec_peak_updated(
            *old(psf),
            *final(psf),
            spec_peak_chunks(
                old(psf).peak_info->Some_0.peaks@,
                ptr@.take(spec_attempted(total as int, len as int)).map_values(
                    |v: i16| spec_s2f(v, old(psf).spec_write_scale_short()),
                ),
                old(psf).channels as int,
                old(psf).write_current,
            ),
        ),
{
    let ghost blockmap = ptr@.map_values(
        |v: i16| spec_s2f(v, old(psf).spec_write_scale_short()),
    );
    let scale = psf.write_scale_short();
    let channels = psf.channels;
    let wcur = psf.write_current;
    let mut total: usize = 0;
    let mut remaining: usize = len;
    while remaining > 0
        invariant
            total + remaining == len,
            len <= ptr@.len(),
            total % BUF_WORDS == 0 || remaining == 0,
            scale == old(psf).spec_write_scale_short(),
            channels == old(psf).channels,
            wcur == old(psf).write_current,
            blockmap == ptr@.map_values(|v: i16| spec_s2f(v, old(psf).spec_write_scale_short())),
            spec_config_eq(*old(psf), *psf),
            io.remaining() == old(io).remaining(),
            io.written() == old(io).written() + ptr@.take(total as int).map_values(
                |v: i16| spec_write_s2f_elem(*old(psf), v),
            ),
            old(psf).peak_info is None ==> psf.peak_info is None,
            old(psf).peak_info is Some ==> {
                &&& 1 <= channels <= BUF_WORDS
                &&& (len % BUF_WORDS == 0 || len % BUF_WORDS >= channels)
                &&& wcur + len + BUF_WORDS <= u64::MAX
                &&& psf.peak_info is Some
                &&& psf.peak_info->Some_0.peaks@.len() == channels
                &&& spec_peak_updated(
                    *old(psf),
                    *psf,
                    spec_peak_chunks(
                        old(psf).peak_info->Some_0.peaks@,
                        blockmap.take(total as int),
                        channels as int,
                        wcur,
                    ),
                )
            },
        decreases remaining,
    {
        let bufferlen = if remaining < BUF_WORDS {
            remaining
        } else {
            BUF_WORDS
        };
        proof {
            lemma_fundamental_div_mod(total as int, BUF_WORDS as int);
            lemma_mod_multiples_vanish(
                -(total as int / (BUF_WORDS as int)),
                len as int,
                BUF_WORDS as int,
            );
            assert(total as int == (BUF_WORDS as int) * (total as int / (BUF_WORDS as int)));
            assert(remaining as int == (BUF_WORDS as int) * (-(total as int / (
            BUF_WORDS as int))) + len as int) by (nonlinear_arith)
                requires
                    total as int == (BUF_WORDS as int) * (total as int / (BUF_WORDS as int)),
                    total + remaining == len,
            ;
            assert(remaining % BUF_WORDS == len % BUF_WORDS);
        }
        let conv = s2f_array(ptr, total, bufferlen, scale);
        proof {
            assert(conv@ =~= blockmap.subrange(total as int, total + bufferlen));
            assert(blockmap.take(total + bufferlen).take(total as int) =~= blockmap.take(
                total as int,
            ));
            assert(blockmap.take(total + bufferlen).skip(total as int) =~= conv@);
        }
        if psf.peak_info.is_some() {
            proof {
                assert((total as int) / (channels as int) <= total as int) by (nonlinear_arith)
                    requires
                        channels >= 1,
                        total >= 0,
                ;
            }
            let indx = (total / channels) as u64;
            proof {
                if old(psf).peak_info is Some {
                    lemma_peak_chunks_len(
                        old(psf).peak_info->Some_0.peaks@,
                        blockmap.take(total as int),
                        channels as int,
                        wcur,
                    );
                }
            }
            match &mut psf.peak_info {
                Some(info) => {
                    float32_peak_update(info, channels, wcur, &conv, indx);
                },
                None => {},
            }
            proof {
                let oldpeaks = old(psf).peak_info->Some_0.peaks@;
                let prev = spec_peak_chunks(oldpeaks, blockmap.take(total as int), channels as int, wcur);
                assert(psf.peak_info->Some_0.peaks@ =~= spec_peaks_after_chunk(
                    prev,
                    conv@,
                    channels as int,
                    wcur,
                    indx,
                ));
                lemma_peak_chunks_step(
                    oldpeaks,
                    blockmap.take(total + bufferlen),
                    channels as int,
                    wcur,
                    total as int,
                    bufferlen as int,
                );
            }
        }
        let mut conv2 = conv;
        if psf.data_endswap {
            endswap_float_array(&mut conv2);
        }
        let writecount = io.write_words(&conv2, bufferlen);
        proof {
            assert forall|i: int| 0 <= i < writecount implies conv2@.take(writecount as int)[i]
                == spec_write_s2f_elem(*old(psf), ptr@[total + i]) by {
                assert(conv2@[i] == spec_write_word(*old(psf), conv@[i]));
            }
            lemma_written_extend(
                ptr@,
                total as int,
                writecount as int,
                |v: i16| spec_write_s2f_elem(*old(psf), v),
                conv2@.take(writecount as int),
            );
        }
        total = total + writecount;
        if writecount < bufferlen {
            proof {
                lemma_mod_multiples_vanish(
                    (total - writecount) / (BUF_WORDS as int),
                    writecount as int,
                    BUF_WORDS as int,
                );
                assert(spec_attempted(total as int, len as int) == total - writecount
                    + bufferlen);
                assert(ptr@.take(spec_attempted(total as int, len as int)).map_values(
                    |v: i16| spec_s2f(v, old(psf).spec_write_scale_short()),
                ) =~= blockmap.take(total - writecount + bufferlen));
            }
            return total;
        }
        remaining = remaining - writecount;
        proof {
            if bufferlen == BUF_WORDS {
                lemma_mod_multiples_vanish(
                    (total - writecount) / (BUF_WORDS as int),
                    BUF_WORDS as int,
                    BUF_WORDS as int,
                );
            }
            assert(total % BUF_WORDS == 0 || remaining == 0);
        }
    }
    proof {
        assert(ptr@.take(spec_attempted(total as int, len as int)).map_values(
            |v: i16| spec_s2f(v, old(psf).spec_write_scale_short()),
        ) =~= blockmap.take(total as int));
    }
    total
}

/// Write up to `len` 32-bit samples: scale each to a float sample, track
/// peaks on the pre-swap values, byte-correct, and push the words out through
/// the buffered primitive; the returned count is what the sink accepted.
#[verifier::rlimit(60)]
pub fn host_write_i2f<IO: BufferedIo>(
    psf: &mut SF_PRIVATE,
    io: &mut IO,
    ptr: &Vec<i32>,
    len: usize,
) -> (total: usize)
    requires
        len <= ptr@.len(),
        old(psf).peak_info is Some ==> {
            &&& 1 <= old(psf).channels <= BUF_WORDS
            &&& old(psf).peak_info->Some_0.peaks@.len() == old(psf).channels
            &&& (len % BUF_WORDS == 0 || len % BUF_WORDS >= old(psf).channels)
            &&& old(psf).write_current + len + BUF_WORDS <= u64::MAX
        },
    ensures
        total <= len,
        final(io).remaining() == old(io).remaining(),
        final(io).written() == old(io).written() + ptr@.take(total as int).map_values(
            |v: i32| spec_write_i2f_elem(*old(psf), v),
        ),
        spec_config_eq(*old(psf), *final(psf)),
        old(psf).peak_info is None ==> final(psf).peak_info is None,
        old(psf).peak_info is Some ==> spec_peak_updated(
            *old(psf),
            *final(psf),
            spec_peak_chunks(
                old(psf).peak_info->Some_0.peaks@,
                ptr@.take(spec_attempted(total as int, len as int)).map_values(
                    |v: i32| spec_i2f(v, old(psf).spec_write_scale_int()),
                ),
                old(psf).channels as int,
                old(psf).write_current,
            ),
        ),
{
    let ghost blockmap = ptr@.map_values(
        |v: i32| spec_i2f(v, old(psf).spec_write_scale_int()),
    );
    let scale = psf.write_scale_int();
    let channels = psf.channels;
    let wcur = psf.write_current;
    let mut total: usize = 0;
    let mut remaining: usize = len;
    while remaining > 0
        invariant
            total + remaining == len,
            len <= ptr@.len(),
            total % BUF_WORDS == 0 || remaining == 0,
            scale == old(psf).spec_write_scale_int(),
            channels == old(psf).channels,
            wcur == old(psf).write_current,
            blockmap == ptr@.map_values(|v: i32| spec_i2f(v, old(psf).spec_write_scale_int())),
            spec_config_eq(*old(psf), *psf),
            io.remaining() == old(io).remaining(),
            io.written() == old(io).written() + ptr@.take(total as int).map_values(
                |v: i32| spec_write_i2f_elem(*old(psf), v),
            ),
            old(psf).peak_info is None ==> psf.peak_info is None,
            old(psf).peak_info is Some ==> {
                &&& 1 <= channels <= BUF_WORDS
                &&& (len % BUF_WORDS == 0 || len % BUF_WORDS >= channels)
                &&& wcur + len + BUF_WORDS <= u64::MAX
                &&& psf.peak_info is Some
                &&& psf.peak_info->Some_0.peaks@.len() == channels
                &&& spec_peak_updated(
                    *old(psf),
                    *psf,
                    spec_peak_chunks(
                        old(psf).peak_info->Some_0.peaks@,
                        blockmap.take(total as int),
                        channels as int,
                        wcur,
                    ),
                )
            },
        decreases remaining,
    {
        let bufferlen = if remaining < BUF_WORDS {
            remaining
        } else {
            BUF_WORDS
        };
        proof {
            lemma_fundamental_div_mod(total as int, BUF_WORDS as int);
            lemma_mod_multiples_vanish(
                -(total as int / (BUF_WORDS as int)),
                len as int,
                BUF_WORDS as int,
            );
            assert(total as int == (BUF_WORDS as int) * (total as int / (BUF_WORDS as int)));
            assert(remaining as int == (BUF_WORDS as int) * (-(total as int / (
            BUF_WORDS as int))) + len as int) by (nonlinear_arith)
                requires
                    total as int == (BUF_WORDS as int) * (total as int / (BUF_WORDS as int)),
                    total + remaining == len,
            ;
            assert(remaining % BUF_WORDS == len % BUF_WORDS);
        }
        let conv = i2f_array(ptr, total, bufferlen, scale);
        proof {
            assert(conv@ =~= blockmap.subrange(total as int, total + bufferlen));
            assert(blockmap.take(total + bufferlen).take(total as int) =~= blockmap.take(
                total as int,
            ));
            assert(blockmap.take(total + bufferlen).skip(total as int) =~= conv@);
        }
        if psf.peak_info.is_some() {
            proof {
                assert((total as int) / (channels as int) <= total as int) by (nonlinear_arith)
                    requires
                        channels >= 1,
                        total >= 0,
                ;
            }
            let indx = (total / channels) as u64;
            proof {
                if old(psf).peak_info is Some {
                    lemma_peak_chunks_len(
                        old(psf).peak_info->Some_0.peaks@,
                        blockmap.take(total as int),
                        channels as int,
                        wcur,
                    );
                }
            }
            match &mut psf.peak_info {
                Some(info) => {
                    float32_peak_update(info, channels, wcur, &conv, indx);
                },
                None => {},
            }
            proof {
                let oldpeaks = old(psf).peak_info->Some_0.peaks@;
                let prev = spec_peak_chunks(oldpeaks, blockmap.take(total as int), channels as int, wcur);
                assert(psf.peak_info->Some_0.peaks@ =~= spec_peaks_after_chunk(
                    prev,
                    conv@,
                    channels as int,
                    wcur,
                    indx,
                ));
                lemma_peak_chunks_step(
                    oldpeaks,
                    blockmap.take(total + bufferlen),
                    channels as int,
                    wcur,
                    total as int,
                    bufferlen as int,
                );
            }
        }
        let mut conv2 = conv;
        if psf.data_endswap {
            endswap_float_array(&mut conv2);
        }
        let writecount = io.write_words(&conv2, bufferlen);
        proof {
            assert forall|i: int| 0 <= i < writecount implies conv2@.take(writecount as int)[i]
                == spec_write_i2f_elem(*old(psf), ptr@[total + i]) by {
                assert(conv2@[i] == spec_write_word(*old(psf), conv@[i]));
            }
            lemma_written_extend(
                ptr@,
                total as int,
                writecount as int,
                |v: i32| spec_write_i2f_elem(*old(psf), v),
                conv2@.take(writecount as int),
            );
        }
        total = total + writecount;
        if writecount < bufferlen {
            proof {
                lemma_mod_multiples_vanish(
                    (total - writecount) / (BUF_WORDS as int),
                    writecount as int,
                    BUF_WORDS as int,
                );
                assert(spec_attempted(total as int, len as int) == total - writecount
                    + bufferlen);
                assert(ptr@.take(spec_attempted(total as int, len as int)).map_values(
                    |v: i32| spec_i2f(v, old(psf).spec_write_scale_int()),
                ) =~= blockmap.take(total - writecount + bufferlen));
            }
            return total;
        }
        remaining = remaining - writecount;
        proof {
            if bufferlen == BUF_WORDS {
                lemma_mod_multiples_vanish(
                    (total - writecount) / (BUF_WORDS as int),
                    BUF_WORDS as int,
                    BUF_WORDS as int,
                );
            }
            assert(total % BUF_WORDS == 0 || remaining == 0);
        }
    }
    proof {
        assert(ptr@.take(spec_attempted(total as int, len as int)).map_values(
            |v: i32| spec_i2f(v, old(psf).spec_write_scale_int()),
        ) =~= blockmap.take(total as int));
    }
    total
}

/// Write up to `len` 64-bit float samples: narrow each to a float sample,
/// track peaks on the pre-swap values, byte-correct, and push the words out
/// through the buffered primitive.
#[verifier::rlimit(60)]
pub fn host_write_d2f<IO: BufferedIo>(
    psf: &mut SF_PRIVATE,
    io: &mut IO,
    ptr: &Vec<u64>,
    len: usize,
) -> (total: usize)
    requires
        len <= ptr@.len(),
        old(psf).peak_info is Some ==> {
            &&& 1 <= old(psf).channels <= BUF_WORDS
            &&& old(psf).peak_info->Some_0.peaks@.len() == old(psf).channels
            &&& (len % BUF_WORDS == 0 || len % BUF_WORDS >= old(psf).channels)
            &&& old(psf).write_current + len + BUF_WORDS <= u64::MAX
        },
    ensures
        total <= len,
        final(io).remaining() == old(io).remaining(),
        final(io).written() == old(io).written() + ptr@.take(total as int).map_values(
            |v: u64| spec_write_d2f_elem(*old(psf), v),
        ),
        spec_config_eq(*old(psf), *final(psf)),
        old(psf).peak_info is None ==> final(psf).peak_info is None,
        old(psf).peak_info is Some ==> spec_peak_updated(
            *old(psf),
            *final(psf),
            spec_peak_chunks(
                old(psf).peak_info->Some_0.peaks@,
                ptr@.take(spec_attempted(total as int, len as int)).map_values(
                    |v: u64| spec_f64_to_f32(v),
                ),
                old(psf).channels as int,
                old(psf).write_current,
            ),
        ),
{
    let ghost blockmap = ptr@.map_values(
        |v: u64| spec_f64_to_f32(v),
    );
    let channels = psf.channels;
    let wcur = psf.write_current;
    let mut total: usize = 0;
    let mut remaining: usize = len;
    while remaining > 0
        invariant
            total + remaining == len,
            len <= ptr@.len(),
            total % BUF_WORDS == 0 || remaining == 0,
            channels == old(psf).channels,
            wcur == old(psf).write_current,
            blockmap == ptr@.map_values(|v: u64| spec_f64_to_f32(v)),
            spec_config_eq(*old(psf), *psf),
            io.remaining() == old(io).remaining(),
            io.written() == old(io).written() + ptr@.take(total as int).map_values(
                |v: u64| spec_write_d2f_elem(*old(psf), v),
            ),
            old(psf).peak_info is None ==> psf.peak_info is None,
            old(psf).peak_info is Some ==> {
                &&& 1 <= channels <= BUF_WORDS
                &&& (len % BUF_WORDS == 0 || len % BUF_WORDS >= channels)
                &&& wcur + len + BUF_WORDS <= u64::MAX
                &&& psf.peak_info is Some
                &&& psf.peak_info->Some_0.peaks@.len() == channels
                &&& spec_peak_updated(
                    *old(psf),
                    *psf,
                    spec_peak_chunks(
                        old(psf).peak_info->Some_0.peaks@,
                        blockmap.take(total as int),
                        channels as int,
                        wcur,
                    ),
                )
            },
        decreases remaining,
    {
        let bufferlen = if remaining < BUF_WORDS {
            remaining
        } else {
            BUF_WORDS
        };
        proof {
            lemma_fundamental_div_mod(total as int, BUF_WORDS as int);
            lemma_mod_multiples_vanish(
                -(total as int / (BUF_WORDS as int)),
                len as int,
                BUF_WORDS as int,
            );
            assert(total as int == (BUF_WORDS as int) * (total as int / (BUF_WORDS as int)));
            assert(remaining as int == (BUF_WORDS as int) * (-(total as int / (
            BUF_WORDS as int))) + len as int) by (nonlinear_arith)
                requires
                    total as int == (BUF_WORDS as int) * (total as int / (BUF_WORDS as int)),
                    total + remaining == len,
            ;
            assert(remaining % BUF_WORDS == len % BUF_WORDS);
        }
        let conv = d2f_array(ptr, total, bufferlen);
        proof {
            assert(conv@ =~= blockmap.subrange(total as int, total + bufferlen));
            assert(blockmap.take(total + bufferlen).take(total as int) =~= blockmap.take(
                total as int,
            ));
            assert(blockmap.take(total + bufferlen).skip(total as int) =~= conv@);
        }
        if psf.peak_info.is_some() {
            proof {
                assert((total as int) / (channels as int) <= total as int) by (nonlinear_arith)
                    requires
                        channels >= 1,
                        total >= 0,
                ;
            }
            let indx = (total / channels) as u64;
            proof {
                if old(psf).peak_info is Some {
                    lemma_peak_chunks_len(
                        old(psf).peak_info->Some_0.peaks@,
                        blockmap.take(total as int),
                        channels as int,
                        wcur,
                    );
                }
            }
            match &mut psf.peak_info {
                Some(info) => {
                    float32_peak_update(info, channels, wcur, &conv, indx);
                },
                None => {},
            }
            proof {
                let oldpeaks = old(psf).peak_info->Some_0.peaks@;
                let prev = spec_peak_chunks(oldpeaks, blockmap.take(total as int), channels as int, wcur);
                assert(psf.peak_info->Some_0.peaks@ =~= spec_peaks_after_chunk(
                    prev,
                    conv@,
                    channels as int,
                    wcur,
                    indx,
                ));
                lemma_peak_chunks_step(
                    oldpeaks,
                    blockmap.take(total + bufferlen),
                    channels as int,
                    wcur,
                    total as int,
                    bufferlen as int,
                );
            }
        }
        let mut conv2 = conv;
        if psf.data_endswap {
            endswap_float_array(&mut conv2);
        }
        let writecount = io.write_words(&conv2, bufferlen);
        proof {
            assert forall|i: int| 0 <= i < writecount implies conv2@.take(writecount as int)[i]
                == spec_write_d2f_elem(*old(psf), ptr@[total + i]) by {
                assert(conv2@[i] == spec_write_word(*old(psf), conv@[i]));
            }
            lemma_written_extend(
                ptr@,
                total as int,
                writecount as int,
                |v: u64| spec_write_d2f_elem(*old(psf), v),
                conv2@.take(writecount as int),
            );
        }
        total = total + writecount;
        if writecount < bufferlen {
            proof {
                lemma_mod_multiples_vanish(
                    (total - writecount) / (BUF_WORDS as int),
                    writecount as int,
                    BUF_WORDS as int,
                );
                assert(spec_attempted(total as int, len as int) == total - writecount
                    + bufferlen);
                assert(ptr@.take(spec_attempted(total as int, len as int)).map_values(
                    |v: u64| spec_f64_to_f32(v),
                ) =~= blockmap.take(total - writecount + bufferlen));
            }
            return total;
        }
        remaining = remaining - writecount;
        proof {
            if bufferlen == BUF_WORDS {
                lemma_mod_multiples_vanish(
                    (total - writecount) / (BUF_WORDS as int),
                    BUF_WORDS as int,
                    BUF_WORDS as int,
                );
            }
            assert(total % BUF_WORDS == 0 || remaining == 0);
        }
    }
    proof {
        assert(ptr@.take(spec_attempted(total as int, len as int)).map_values(
            |v: u64| spec_f64_to_f32(v),
        ) =~= blockmap.take(total as int));
    }
    total
}

/// The replacement-family variant of [`host_write_s2f`]: the representation
/// fix-up pass runs between the kernel and the byte-order correction.
#[verifier::rlimit(60)]
pub fn replace_write_s2f<IO: BufferedIo>(
    psf: &mut SF_PRIVATE,
    io: &mut IO,
    ptr: &Vec<i16>,
    len: usize,
) -> (total: usize)
    requires
        len <= ptr@.len(),
        old(psf).peak_info is Some ==> {
            &&& 1 <= old(psf).channels <= BUF_WORDS
            &&& old(psf).peak_info->Some_0.peaks@.len() == old(psf).channels
            &&& (len % BUF_WORDS == 0 || len % BUF_WORDS >= old(psf).channels)
            &&& old(psf).write_current + len + BUF_WORDS <= u64::MAX
        },
    ensures
        total <= len,
        final(io).remaining() == old(io).remaining(),
        final(io).written() == old(io).written() + ptr@.take(total as int).map_values(
            |v: i16| spec_write_s2f_elem(*old(psf), v),
        ),
        spec_config_eq(*old(psf), *final(psf)),
        old(psf).peak_info is None ==> final(psf).peak_info is None,
        old(psf).peak_info is Some ==> spec_peak_updated(
            *old(psf),
            *final(psf),
            spec_peak_chunks(
                old(psf).peak_info->Some_0.peaks@,
                ptr@.take(spec_attempted(total as int, len as int)).map_values(
                    |v: i16| spec_s2f(v, old(psf).spec_write_scale_short()),
                ),
                old(psf).channels as int,
                old(psf).write_current,
            ),
        ),
{
    let ghost blockmap = ptr@.map_values(
        |v: i16| spec_s2f(v, old(psf).spec_write_scale_short()),
    );
    let scale = psf.write_scale_short();
    let channels = psf.channels;
    let wcur = psf.write_current;
    let mut total: usize = 0;
    let mut remaining: usize = len;
    while remaining > 0
        invariant
            total + remaining == len,
            len <= ptr@.len(),
            total % BUF_WORDS == 0 || remaining == 0,
            scale == old(psf).spec_write_scale_short(),
            channels == old(psf).channels,
            wcur == old(psf).write_current,
            blockmap == ptr@.map_values(|v: i16| spec_s2f(v, old(psf).spec_write_scale_short())),
            spec_config_eq(*old(psf), *psf),
            io.remaining() == old(io).remaining(),
            io.written() == old(io).written() + ptr@.take(total as int).map_values(
                |v: i16| spec_write_s2f_elem(*old(psf), v),
            ),
            old(psf).peak_info is None ==> psf.peak_info is None,
            old(psf).peak_info is Some ==> {
                &&& 1 <= channels <= BUF_WORDS
                &&& (len % BUF_WORDS == 0 || len % BUF_WORDS >= channels)
                &&& wcur + len + BUF_WORDS <= u64::MAX
                &&& psf.peak_info is Some
                &&& psf.peak_info->Some_0.peaks@.len() == channels
                &&& spec_peak_updated(
                    *old(psf),
                    *psf,
                    spec_peak_chunks(
                        old(psf).peak_info->Some_0.peaks@,
                        blockmap.take(total as int),
                        channels as int,
                        wcur,
                    ),
                )
            },
        decreases remaining,
    {
        let bufferlen = if remaining < BUF_WORDS {
            remaining
        } else {
            BUF_WORDS
        };
        proof {
            lemma_fundamental_div_mod(total as int, BUF_WORDS as int);
            lemma_mod_multiples_vanish(
                -(total as int / (BUF_WORDS as int)),
                len as int,
                BUF_WORDS as int,
            );
            assert(total as int == (BUF_WORDS as int) * (total as int / (BUF_WORDS as int)));
            assert(remaining as int == (BUF_WORDS as int) * (-(total as int / (
            BUF_WORDS as int))) + len as int) by (nonlinear_arith)
                requires
                    total as int == (BUF_WORDS as int) * (total as int / (BUF_WORDS as int)),
                    total + remaining == len,
            ;
            assert(remaining % BUF_WORDS == len % BUF_WORDS);
        }
        let conv = s2f_array(ptr, total, bufferlen, scale);
        proof {
            assert(conv@ =~= blockmap.subrange(total as int, total + bufferlen));
            assert(blockmap.take(total + bufferlen).take(total as int) =~= blockmap.take(
                total as int,
            ));
            assert(blockmap.take(total + bufferlen).skip(total as int) =~= conv@);
        }
        if psf.peak_info.is_some() {
            proof {
                assert((total as int) / (channels as int) <= total as int) by (nonlinear_arith)
                    requires
                        channels >= 1,
                        total >= 0,
                ;
            }
            let indx = (total / channels) as u64;
            proof {
                if old(psf).peak_info is Some {
                    lemma_peak_chunks_len(
                        old(psf).peak_info->Some_0.peaks@,
                        blockmap.take(total as int),
                        channels as int,
                        wcur,
                    );
                }
            }
            match &mut psf.peak_info {
                Some(info) => {
                    float32_peak_update(info, channels, wcur, &conv, indx);
                },
                None => {},
            }
            proof {
                let oldpeaks = old(psf).peak_info->Some_0.peaks@;
                let prev = spec_peak_chunks(oldpeaks, blockmap.take(total as int), channels as int, wcur);
                assert(psf.peak_info->Some_0.peaks@ =~= spec_peaks_after_chunk(
                    prev,
                    conv@,
                    channels as int,
                    wcur,
                    indx,
                ));
                lemma_peak_chunks_step(
                    oldpeaks,
                    blockmap.take(total + bufferlen),
                    channels as int,
                    wcur,
                    total as int,
                    bufferlen as int,
                );
            }
        }
        let mut conv2 = conv;
        crate::kernels::f2bf_array(&mut conv2);
        if psf.data_endswap {
            endswap_float_array(&mut conv2);
        }
        let writecount = io.write_words(&conv2, bufferlen);
        proof {
            assert forall|i: int| 0 <= i < writecount implies conv2@.take(writecount as int)[i]
                == spec_write_s2f_elem(*old(psf), ptr@[total + i]) by {
                assert(conv2@[i] == spec_write_word(*old(psf), conv@[i]));
            }
            lemma_written_extend(
                ptr@,
                total as int,
                writecount as int,
                |v: i16| spec_write_s2f_elem(*old(psf), v),
                conv2@.take(writecount as int),
            );
        }
        total = total + writecount;
        if writecount < bufferlen {
            proof {
                lemma_mod_multiples_vanish(
                    (total - writecount) / (BUF_WORDS as int),
                    writecount as int,
                    BUF_WORDS as int,
                );
                assert(spec_attempted(total as int, len as int) == total - writecount
                    + bufferlen);
                assert(ptr@.take(spec_attempted(total as int, len as int)).map_values(
                    |v: i16| spec_s2f(v, old(psf).spec_write_scale_short()),
                ) =~= blockmap.take(total - writecount + bufferlen));
            }
            return total;
        }
        remaining = remaining - writecount;
        proof {
            if bufferlen == BUF_WORDS {
                lemma_mod_multiples_vanish(
                    (total - writecount) / (BUF_WORDS as int),
                    BUF_WORDS as int,
                    BUF_WORDS as int,
                );
            }
            assert(total % BUF_WORDS == 0 || remaining == 0);
        }
    }
    proof {
        assert(ptr@.take(spec_attempted(total as int, len as int)).map_values(
            |v: i16| spec_s2f(v, old(psf).spec_write_scale_short()),
        ) =~= blockmap.take(total as int));
    }
    total
}

/// The replacement-family variant of [`host_write_i2f`]: the representation
/// fix-up pass runs between the kernel and the byte-order correction.
#[verifier::rlimit(60)]
pub fn replace_write_i2f<IO: BufferedIo>(
    psf: &mut SF_PRIVATE,
    io: &mut IO,
    ptr: &Vec<i32>,
    len: usize,
) -> (total: usize)
    requires
        len <= ptr@.len(),
        old(psf).peak_info is Some ==> {
            &&& 1 <= old(psf).channels <= BUF_WORDS
            &&& old(psf).peak_info->Some_0.peaks@.len() == old(psf).channels
            &&& (len % BUF_WORDS == 0 || len % BUF_WORDS >= old(psf).channels)
            &&& old(psf).write_current + len + BUF_WORDS <= u64::MAX
        },
    ensures
        total <= len,
        final(io).remaining() == old(io).remaining(),
        final(io).written() == old(io).written() + ptr@.take(total as int).map_values(
            |v: i32| spec_write_i2f_elem(*old(psf), v),
        ),
        spec_config_eq(*old(psf), *final(psf)),
        old(psf).peak_info is None ==> final(psf).peak_info is None,
        old(psf).peak_info is Some ==> spec_peak_updated(
            *old(psf),
            *final(psf),
            spec_peak_chunks(
                old(psf).peak_info->Some_0.peaks@,
                ptr@.take(spec_attempted(total as int, len as int)).map_values(
                    |v: i32| spec_i2f(v, old(psf).spec_write_scale_int()),
                ),
                old(psf).channels as int,
                old(psf).write_current,
            ),
        ),
{
    let ghost blockmap = ptr@.map_values(
        |v: i32| spec_i2f(v, old(psf).spec_write_scale_int()),
    );
    let scale = psf.write_scale_int();
    let channels = psf.channels;
    let wcur = psf.write_current;
    let mut total: usize = 0;
    let mut remaining: usize = len;
    while remaining > 0
        invariant
            total + remaining == len,
            len <= ptr@.len(),
            total % BUF_WORDS == 0 || remaining == 0,
            scale == old(psf).spec_write_scale_int(),
            channels == old(psf).channels,
            wcur == old(psf).write_current,
            blockmap == ptr@.map_values(|v: i32| spec_i2f(v, old(psf).spec_write_scale_int())),
            spec_config_eq(*old(psf), *psf),
            io.remaining() == old(io).remaining(),
            io.written() == old(io).written() + ptr@.take(total as int).map_values(
                |v: i32| spec_write_i2f_elem(*old(psf), v),
            ),
            old(psf).peak_info is None ==> psf.peak_info is None,
            old(psf).peak_info is Some ==> {
                &&& 1 <= channels <= BUF_WORDS
                &&& (len % BUF_WORDS == 0 || len % BUF_WORDS >= channels)
                &&& wcur + len + BUF_WORDS <= u64::MAX
                &&& psf.peak_info is Some
                &&& psf.peak_info->Some_0.peaks@.len() == channels
                &&& spec_peak_updated(
                    *old(psf),
                    *psf,
                    spec_peak_chunks(
                        old(psf).peak_info->Some_0.peaks@,
                        blockmap.take(total as int),
                        channels as int,
                        wcur,
                    ),
                )
            },
        decreases remaining,
    {
        let bufferlen = if remaining < BUF_WORDS {
            remaining
        } else {
            BUF_WORDS
        };
        proof {
            lemma_fundamental_div_mod(total as int, BUF_WORDS as int);
            lemma_mod_multiples_vanish(
                -(total as int / (BUF_WORDS as int)),
                len as int,
                BUF_WORDS as int,
            );
            assert(total as int == (BUF_WORDS as int) * (total as int / (BUF_WORDS as int)));
            assert(remaining as int == (BUF_WORDS as int) * (-(total as int / (
            BUF_WORDS as int))) + len as int) by (nonlinear_arith)
                requires
                    total as int == (BUF_WORDS as int) * (total as int / (BUF_WORDS as int)),
                    total + remaining == len,
            ;
            assert(remaining % BUF_WORDS == len % BUF_WORDS);
        }
        let conv = i2f_array(ptr, total, bufferlen, scale);
        proof {
            assert(conv@ =~= blockmap.subrange(total as int, total + bufferlen));
            assert(blockmap.take(total + bufferlen).take(total as int) =~= blockmap.take(
                total as int,
            ));
            assert(blockmap.take(total + bufferlen).skip(total as int) =~= conv@);
        }
        if psf.peak_info.is_some() {
            proof {
                assert((total as int) / (channels as int) <= total as int) by (nonlinear_arith)
                    requires
                        channels >= 1,
                        total >= 0,
                ;
            }
            let indx = (total / channels) as u64;
            proof {
                if old(psf).peak_info is Some {
                    lemma_peak_chunks_len(
                        old(psf).peak_info->Some_0.peaks@,
                        blockmap.take(total as int),
                        channels as int,
                        wcur,
                    );
                }
            }
            match &mut psf.peak_info {
                Some(info) => {
                    float32_peak_update(info, channels, wcur, &conv, indx);
                },
                None => {},
            }
            proof {
                let oldpeaks = old(psf).peak_info->Some_0.peaks@;
                let prev = spec_peak_chunks(oldpeaks, blockmap.take(total as int), channels as int, wcur);
                assert(psf.peak_info->Some_0.peaks@ =~= spec_peaks_after_chunk(
                    prev,
                    conv@,
                    channels as int,
                    wcur,
                    indx,
                ));
                lemma_peak_chunks_step(
                    oldpeaks,
                    blockmap.take(total + bufferlen),
                    channels as int,
                    wcur,
                    total as int,
                    bufferlen as int,
                );
            }
        }
        let mut conv2 = conv;
        crate::kernels::f2bf_array(&mut conv2);
        if psf.data_endswap {
            endswap_float_array(&mut conv2);
        }
        let writecount = io.write_words(&conv2, bufferlen);
        proof {
            assert forall|i: int| 0 <= i < writecount implies conv2@.take(writecount as int)[i]
                == spec_write_i2f_elem(*old(psf), ptr@[total + i]) by {
                assert(conv2@[i] == spec_write_word(*old(psf), conv@[i]));
            }
            lemma_written_extend(
                ptr@,
                total as int,
                writecount as int,
                |v: i32| spec_write_i2f_elem(*old(psf), v),
                conv2@.take(writecount as int),
            );
        }
        total = total + writecount;
        if writecount < bufferlen {
            proof {
                lemma_mod_multiples_vanish(
                    (total - writecount) / (BUF_WORDS as int),
                    writecount as int,
                    BUF_WORDS as int,
                );
                assert(spec_attempted(total as int, len as int) == total - writecount
                    + bufferlen);
                assert(ptr@.take(spec_attempted(total as int, len as int)).map_values(
                    |v: i32| spec_i2f(v, old(psf).spec_write_scale_int()),
                ) =~= blockmap.take(total - writecount + bufferlen));
            }
            return total;
        }
        remaining = remaining - writecount;
        proof {
            if bufferlen == BUF_WORDS {
                lemma_mod_multiples_vanish(
                    (total - writecount) / (BUF_WORDS as int),
                    BUF_WORDS as int,
                    BUF_WORDS as int,
                );
            }
            assert(total % BUF_WORDS == 0 || remaining == 0);
        }
    }
    proof {
        assert(ptr@.take(spec_attempted(total as int, len as int)).map_values(
            |v: i32| spec_i2f(v, old(psf).spec_write_scale_int()),
        ) =~= blockmap.take(total as int));
    }
    total
}

/// The replacement-family variant of [`host_write_d2f`]: the representation
/// fix-up pass runs between the kernel and the byte-order correction.
#[verifier::rlimit(60)]
pub fn replace_write_d2f<IO: BufferedIo>(
    psf: &mut SF_PRIVATE,
    io: &mut IO,
    ptr: &Vec<u64>,
    len: usize,
) -> (total: usize)
    requires
        len <= ptr@.len(),
        old(psf).peak_info is Some ==> {
            &&& 1 <= old(psf).channels <= BUF_WORDS
            &&& old(psf).peak_info->Some_0.peaks@.len() == old(psf).channels
            &&& (len % BUF_WORDS == 0 || len % BUF_WORDS >= old(psf).channels)
            &&& old(psf).write_current + len + BUF_WORDS <= u64::MAX
        },
    ensures
        total <= len,
        final(io).remaining() == old(io).remaining(),
        final(io).written() == old(io).written() + ptr@.take(total as int).map_values(
            |v: u64| spec_write_d2f_elem(*old(psf), v),
        ),
        spec_config_eq(*old(psf), *final(psf)),
        old(psf).peak_info is None ==> final(psf).peak_info is None,
        old(psf).peak_info is Some ==> spec_peak_updated(
            *old(psf),
            *final(psf),
            spec_peak_chunks(
                old(psf).peak_info->Some_0.peaks@,
                ptr@.take(spec_attempted(total as int, len as int)).map_values(
                    |v: u64| spec_f64_to_f32(v),
                ),
                old(psf).channels as int,
                old(psf).write_current,
            ),
        ),
{
    let ghost blockmap = ptr@.map_values(
        |v: u64| spec_f64_to_f32(v),
    );
    let channels = psf.channels;
    let wcur = psf.write_current;
    let mut total: usize = 0;
    let mut remaining: usize = len;
    while remaining > 0
        invariant
            total + remaining == len,
            len <= ptr@.len(),
            total % BUF_WORDS == 0 || remaining == 0,
            channels == old(psf).channels,
            wcur == old(psf).write_current,
            blockmap == ptr@.map_values(|v: u64| spec_f64_to_f32(v)),
            spec_config_eq(*old(psf), *psf),
            io.remaining() == old(io).remaining(),
            io.written() == old(io).written() + ptr@.take(total as int).map_values(
                |v: u64| spec_write_d2f_elem(*old(psf), v),
            ),
            old(psf).peak_info is None ==> psf.peak_info is None,
            old(psf).peak_info is Some ==> {
                &&& 1 <= channels <= BUF_WORDS
                &&& (len % BUF_WORDS == 0 || len % BUF_WORDS >= channels)
                &&& wcur + len + BUF_WORDS <= u64::MAX
                &&& psf.peak_info is Some
                &&& psf.peak_info->Some_0.peaks@.len() == channels
                &&& spec_peak_updated(
                    *old(psf),
                    *psf,
                    spec_peak_chunks(
                        old(psf).peak_info->Some_0.peaks@,
                        blockmap.take(total as int),
                        channels as int,
                        wcur,
                    ),
                )
            },
        decreases remaining,
    {
        let bufferlen = if remaining < BUF_WORDS {
            remaining
        } else {
            BUF_WORDS
        };
        proof {
            lemma_fundamental_div_mod(total as int, BUF_WORDS as int);
            lemma_mod_multiples_vanish(
                -(total as int / (BUF_WORDS as int)),
                len as int,
                BUF_WORDS as int,
            );
            assert(total as int == (BUF_WORDS as int) * (total as int / (BUF_WORDS as int)));
            assert(remaining as int == (BUF_WORDS as int) * (-(total as int / (
            BUF_WORDS as int))) + len as int) by (nonlinear_arith)
                requires
                    total as int == (BUF_WORDS as int) * (total as int / (BUF_WORDS as int)),
                    total + remaining == len,
            ;
            assert(remaining % BUF_WORDS == len % BUF_WORDS);
        }
        let conv = d2f_array(ptr, total, bufferlen);
        proof {
            assert(conv@ =~= blockmap.subrange(total as int, total + bufferlen));
            assert(blockmap.take(total + bufferlen).take(total as int) =~= blockmap.take(
                total as int,
            ));
            assert(blockmap.take(total + bufferlen).skip(total as int) =~= conv@);
        }
        if psf.peak_info.is_some() {
            proof {
                assert((total as int) / (channels as int) <= total as int) by (nonlinear_arith)
                    requires
                        channels >= 1,
                        total >= 0,
                ;
            }
            let indx = (total / channels) as u64;
            proof {
                if old(psf).peak_info is Some {
                    lemma_peak_chunks_len(
                        old(psf).peak_info->Some_0.peaks@,
                        blockmap.take(total as int),
                        channels as int,
                        wcur,
                    );
                }
            }
            match &mut psf.peak_info {
                Some(info) => {
                    float32_peak_update(info, channels, wcur, &conv, indx);
                },
                None => {},
            }
            proof {
                let oldpeaks = old(psf).peak_info->Some_0.peaks@;
                let prev = spec_peak_chunks(oldpeaks, blockmap.take(total as int), channels as int, wcur);
                assert(psf.peak_info->Some_0.peaks@ =~= spec_peaks_after_chunk(
                    prev,
                    conv@,
                    channels as int,
                    wcur,
                    indx,
                ));
                lemma_peak_chunks_step(
                    oldpeaks,
                    blockmap.take(total + bufferlen),
                    channels as int,
                    wcur,
                    total as int,
                    bufferlen as int,
                );
            }
        }
        let mut conv2 = conv;
        crate::kernels::f2bf_array(&mut conv2);
        if psf.data_endswap {
            endswap_float_array(&mut conv2);
        }
        let writecount = io.write_words(&conv2, bufferlen);
        proof {
            assert forall|i: int| 0 <= i < writecount implies conv2@.take(writecount as int)[i]
                == spec_write_d2f_elem(*old(psf), ptr@[total + i]) by {
                assert(conv2@[i] == spec_write_word(*old(psf), conv@[i]));
            }
            lemma_written_extend(
                ptr@,
                total as int,
                writecount as int,
                |v: u64| spec_write_d2f_elem(*old(psf), v),
                conv2@.take(writecount as int),
            );
        }
        total = total + writecount;
        if writecount < bufferlen {
            proof {
                lemma_mod_multiples_vanish(
                    (total - writecount) / (BUF_WORDS as int),
                    writecount as int,
                    BUF_WORDS as int,
                );
                assert(spec_attempted(total as int, len as int) == total - writecount
                    + bufferlen);
                assert(ptr@.take(spec_attempted(total as int, len as int)).map_values(
                    |v: u64| spec_f64_to_f32(v),
                ) =~= blockmap.take(total - writecount + bufferlen));
            }
            return total;
        }
        remaining = remaining - writecount;
        proof {
            if bufferlen == BUF_WORDS {
                lemma_mod_multiples_vanish(
                    (total - writecount) / (BUF_WORDS as int),
                    BUF_WORDS as int,
                    BUF_WORDS as int,
                );
            }
            assert(total % BUF_WORDS == 0 || remaining == 0);
        }
    }
    proof {
        assert(ptr@.take(spec_attempted(total as int, len as int)).map_values(
            |v: u64| spec_f64_to_f32(v),
        ) =~= blockmap.take(total as int));
    }
    total
}

/// Write up to `len` float samples: track peaks once over the whole caller
/// block, then pass the words straight through, or byte-correct them via the
/// intermediate buffer when file and host order differ.
pub fn host_write_f<IO: BufferedIo>(
    psf: &mut SF_PRIVATE,
    io: &mut IO,
    ptr: &Vec<u32>,
    len: usize,
) -> (total: usize)
    requires
        len <= ptr@.len(),
        old(psf).peak_info is Some ==> {
            &&& 1 <= old(psf).channels <= len
            &&& len + old(psf).channels <= usize::MAX
            &&& old(psf).peak_info->Some_0.peaks@.len() == old(psf).channels
            &&& old(psf).write_current + len <= u64::MAX
        },
    ensures
        total <= len,
        final(io).remaining() == old(io).remaining(),
        final(io).written() == old(io).written() + ptr@.take(total as int).map_values(
            |w: u32| spec_write_word(*old(psf), w),
        ),
        spec_config_eq(*old(psf), *final(psf)),
        old(psf).peak_info is None ==> final(psf).peak_info is None,
        old(psf).peak_info is Some ==> spec_peak_updated(
            *old(psf),
            *final(psf),
            spec_peaks_after_chunk(
                old(psf).peak_info->Some_0.peaks@,
                ptr@.take(len as int),
                old(psf).channels as int,
                old(psf).write_current,
                0,
            ),
        ),
{
    let channels = psf.channels;
    let wcur = psf.write_current;
    if psf.peak_info.is_some() {
        let head = vec_range(ptr, 0, len);
        proof {
            assert(head@ =~= ptr@.take(len as int));
        }
        match &mut psf.peak_info {
            Some(info) => {
                float32_peak_update(info, channels, wcur, &head, 0);
            },
            None => {},
        }
        proof {
            if old(psf).peak_info is Some {
                assert(psf.peak_info->Some_0.peaks@ =~= spec_peaks_after_chunk(
                    old(psf).peak_info->Some_0.peaks@,
                    ptr@.take(len as int),
                    channels as int,
                    wcur,
                    0,
                ));
            }
        }
    }
    if !psf.data_endswap {
        let writecount = io.write_words(ptr, len);
        proof {
            assert(ptr@.take(writecount as int).map_values(
                |w: u32| spec_write_word(*old(psf), w),
            ) =~= ptr@.take(writecount as int));
        }
        return writecount;
    }
    let mut total: usize = 0;
    let mut remaining: usize = len;
    while remaining > 0
        invariant
            psf.data_endswap,
            total + remaining == len,
            len <= ptr@.len(),
            channels == old(psf).channels,
            wcur == old(psf).write_current,
            spec_config_eq(*old(psf), *psf),
            io.remaining() == old(io).remaining(),
            io.written() == old(io).written() + ptr@.take(total as int).map_values(
                |w: u32| spec_write_word(*old(psf), w),
            ),
            old(psf).peak_info is None ==> psf.peak_info is None,
            old(psf).peak_info is Some ==> spec_peak_updated(
                *old(psf),
                *psf,
                spec_peaks_after_chunk(
                    old(psf).peak_info->Some_0.peaks@,
                    ptr@.take(len as int),
                    channels as int,
                    wcur,
                    0,
                ),
            ),
        decreases remaining,
    {
        let bufferlen = if remaining < BUF_WORDS {
            remaining
        } else {
            BUF_WORDS
        };
        let mut conv2 = vec_range(ptr, total, bufferlen);
        endswap_float_array(&mut conv2);
        let writecount = io.write_words(&conv2, bufferlen);
        proof {
            assert forall|i: int| 0 <= i < writecount implies conv2@.take(writecount as int)[i]
                == spec_write_word(*old(psf), ptr@[total + i]) by {
                assert(conv2@[i] == spec_swap32(ptr@.subrange(
                    total as int,
                    total + bufferlen,
                )[i]));
            }
            lemma_written_extend(
                ptr@,
                total as int,
                writecount as int,
                |w: u32| spec_write_word(*old(psf), w),
                conv2@.take(writecount as int),
            );
        }
        total = total + writecount;
        if writecount < bufferlen {
            return total;
        }
        remaining = remaining - writecount;
    }
    total
}

/// The replacement-family variant of [`host_write_f`]: peaks are tracked on
/// the caller block, then every chunk takes the representation fix-up pass
/// before any byte-order correction.
pub fn replace_write_f<IO: BufferedIo>(
    psf: &mut SF_PRIVATE,
    io: &mut IO,
    ptr: &Vec<u32>,
    len: usize,
) -> (total: usize)
    requires
        len <= ptr@.len(),
        old(psf).peak_info is Some ==> {
            &&& 1 <= old(psf).channels <= len
            &&& len + old(psf).channels <= usize::MAX
            &&& old(psf).peak_info->Some_0.peaks@.len() == old(psf).channels
            &&& old(psf).write_current + len <= u64::MAX
        },
    ensures
        total <= len,
        final(io).remaining() == old(io).remaining(),
        final(io).written() == old(io).written() + ptr@.take(total as int).map_values(
            |w: u32| spec_write_word(*old(psf), w),
        ),
        spec_config_eq(*old(psf), *final(psf)),
        old(psf).peak_info is None ==> final(psf).peak_info is None,
        old(psf).peak_info is Some ==> spec_peak_updated(
            *old(psf),
            *final(psf),
            spec_peaks_after_chunk(
                old(psf).peak_info->Some_0.peaks@,
                ptr@.take(len as int),
                old(psf).channels as int,
                old(psf).write_current,
                0,
            ),
        ),
{
    let channels = psf.channels;
    let wcur = psf.write_current;
    if psf.peak_info.is_some() {
        let head = vec_range(ptr, 0, len);
        proof {
            assert(head@ =~= ptr@.take(len as int));
        }
        match &mut psf.peak_info {
            Some(info) => {
                float32_peak_update(info, channels, wcur, &head, 0);
            },
            None => {},
        }
        proof {
            if old(psf).peak_info is Some {
                assert(psf.peak_info->Some_0.peaks@ =~= spec_peaks_after_chunk(
                    old(psf).peak_info->Some_0.peaks@,
                    ptr@.take(len as int),
                    channels as int,
                    wcur,
                    0,
                ));
            }
        }
    }
    let mut total: usize = 0;
    let mut remaining: usize = len;
    while remaining > 0
        invariant
            total + remaining == len,
            len <= ptr@.len(),
            channels == old(psf).channels,
            wcur == old(psf).write_current,
            spec_config_eq(*old(psf), *psf),
            io.remaining() == old(io).remaining(),
            io.written() == old(io).written() + ptr@.take(total as int).map_values(
                |w: u32| spec_write_word(*old(psf), w),
            ),
            old(psf).peak_info is None ==> psf.peak_info is None,
            old(psf).peak_info is Some ==> spec_peak_updated(
                *old(psf),
                *psf,
                spec_peaks_after_chunk(
                    old(psf).peak_info->Some_0.peaks@,
                    ptr@.take(len as int),
                    channels as int,
                    wcur,
                    0,
                ),
            ),
        decreases remaining,
    {
        let bufferlen = if remaining < BUF_WORDS {
            remaining
        } else {
            BUF_WORDS
        };
        let mut conv2 = vec_range(ptr, total, bufferlen);
        crate::kernels::f2bf_array(&mut conv2);
        if psf.data_endswap {
            endswap_float_array(&mut conv2);
        }
        let writecount = io.write_words(&conv2, bufferlen);
        proof {
            assert forall|i: int| 0 <= i < writecount implies conv2@.take(writecount as int)[i]
                == spec_write_word(*old(psf), ptr@[total + i]) by {
                assert(ptr@.subrange(total as int, total + bufferlen)[i] == ptr@[total + i]);
            }
            lemma_written_extend(
                ptr@,
                total as int,
                writecount as int,
                |w: u32| spec_write_word(*old(psf), w),
                conv2@.take(writecount as int),
            );
        }
        total = total + writecount;
        if writecount < bufferlen {
            return total;
        }
        remaining = remaining - writecount;
    }
    total
}

/// One on-disk word through whichever float-to-16-bit read family the
/// session is bound to.
pub open spec fn spec_bound_read_short_elem(psf: SF_PRIVATE, w: u32) -> i16 {
    if psf.float_codec_read == Some(FLOAT_CODEC::HOST) {
        spec_read_f2s_elem(psf, w)
    } else {
        spec_replace_read_f2s_elem(psf, w)
    }
}

/// One on-disk word through whichever float-to-32-bit read family the
/// session is bound to.
pub open spec fn spec_bound_read_int_elem(psf: SF_PRIVATE, w: u32) -> i32 {
    if psf.float_codec_read == Some(FLOAT_CODEC::HOST) {
        spec_read_f2i_elem(psf, w)
    } else {
        spec_replace_read_f2i_elem(psf, w)
    }
}

/// Read 16-bit samples through the family bound at open time.  Calling
/// without a binding is a programming error, excluded here.
pub fn read_short<IO: BufferedIo>(
    psf: &SF_PRIVATE,
    io: &mut IO,
    ptr: &mut Vec<i16>,
    len: usize,
) -> (total: usize)
    requires
        len <= old(ptr)@.len(),
        psf.float_codec_read is Some,
    ensures
        total <= len,
        final(io).remaining() == old(io).remaining().skip(total as int),
        final(io).written() == old(io).written(),
        final(ptr)@.len() == old(ptr)@.len(),
        forall|j: int|
            0 <= j < total ==> final(ptr)@[j] == spec_bound_read_short_elem(
                *psf,
                old(io).remaining()[j],
            ),
        forall|j: int| total <= j < old(ptr)@.len() ==> final(ptr)@[j] == old(ptr)@[j],
{
    match psf.float_codec_read {
        Some(FLOAT_CODEC::HOST) => host_read_f2s(psf, io, ptr, len),
        Some(FLOAT_CODEC::REPLACE) => replace_read_f2s(psf, io, ptr, len),
        None => 0,
    }
}

/// Read 32-bit samples through the family bound at open time.
pub fn read_int<IO: BufferedIo>(
    psf: &SF_PRIVATE,
    io: &mut IO,
    ptr: &mut Vec<i32>,
    len: usize,
) -> (total: usize)
    requires
        len <= old(ptr)@.len(),
        psf.float_codec_read is Some,
    ensures
        total <= len,
        final(io).remaining() == old(io).remaining().skip(total as int),
        final(io).written() == old(io).written(),
        final(ptr)@.len() == old(ptr)@.len(),
        forall|j: int|
            0 <= j < total ==> final(ptr)@[j] == spec_bound_read_int_elem(
                *psf,
                old(io).remaining()[j],
            ),
        forall|j: int| total <= j < old(ptr)@.len() ==> final(ptr)@[j] == old(ptr)@[j],
{
    match psf.float_codec_read {
        Some(FLOAT_CODEC::HOST) => host_read_f2i(psf, io, ptr, len),
        Some(FLOAT_CODEC::REPLACE) => replace_read_f2i(psf, io, ptr, len),
        None => 0,
    }
}

/// Read float samples through the family bound at open time.
pub fn read_float<IO: BufferedIo>(
    psf: &SF_PRIVATE,
    io: &mut IO,
    ptr: &mut Vec<u32>,
    len: usize,
) -> (total: usize)
    requires
        len <= old(ptr)@.len(),
        psf.float_codec_read is Some,
    ensures
        total <= len,
        final(io).remaining() == old(io).remaining().skip(total as int),
        final(io).written() == old(io).written(),
        final(ptr)@.len() == old(ptr)@.len(),
        forall|j: int|
            0 <= j < total ==> final(ptr)@[j] == spec_read_word(*psf, old(io).remaining()[j]),
        forall|j: int| total <= j < old(ptr)@.len() ==> final(ptr)@[j] == old(ptr)@[j],
{
    match psf.float_codec_read {
        Some(FLOAT_CODEC::HOST) => host_read_f(psf, io, ptr, len),
        Some(FLOAT_CODEC::REPLACE) => replace_read_f(psf, io, ptr, len),
        None => 0,
    }
}

/// Read 64-bit float samples through the family bound at open time.
pub fn read_double<IO: BufferedIo>(
    psf: &SF_PRIVATE,
    io: &mut IO,
    ptr: &mut Vec<u64>,
    len: usize,
) -> (total: usize)
    requires
        len <= old(ptr)@.len(),
        psf.float_codec_read is Some,
    ensures
        total <= len,
        final(io).remaining() == old(io).remaining().skip(total as int),
        final(io).written() == old(io).written(),
        final(ptr)@.len() == old(ptr)@.len(),
        forall|j: int|
            0 <= j < total ==> final(ptr)@[j] == spec_read_f2d_elem(
                *psf,
                old(io).remaining()[j],
            ),
        forall|j: int| total <= j < old(ptr)@.len() ==> final(ptr)@[j] == old(ptr)@[j],
{
    match psf.float_codec_read {
        Some(FLOAT_CODEC::HOST) => host_read_f2d(psf, io, ptr, len),
        Some(FLOAT_CODEC::REPLACE) => replace_read_f2d(psf, io, ptr, len),
        None => 0,
    }
}

/// Write 16-bit samples through the family bound at open time.
pub fn write_short<IO: BufferedIo>(
    psf: &mut SF_PRIVATE,
    io: &mut IO,
    ptr: &Vec<i16>,
    len: usize,
) -> (total: usize)
    requires
        len <= ptr@.len(),
        old(psf).float_codec_write is Some,
        old(psf).peak_info is Some ==> {
            &&& 1 <= old(psf).channels <= BUF_WORDS
            &&& old(psf).peak_info->Some_0.peaks@.len() == old(psf).channels
            &&& (len % BUF_WORDS == 0 || len % BUF_WORDS >= old(psf).channels)
            &&& old(psf).write_current + len + BUF_WORDS <= u64::MAX
        },
    ensures
        total <= len,
        final(io).remaining() == old(io).remaining(),
        final(io).written() == old(io).written() + ptr@.take(total as int).map_values(
            |v: i16| spec_write_s2f_elem(*old(psf), v),
        ),
        spec_config_eq(*old(psf), *final(psf)),
        old(psf).peak_info is None ==> final(psf).peak_info is None,
        old(psf).peak_info is Some ==> spec_peak_updated(
            *old(psf),
            *final(psf),
            spec_peak_chunks(
                old(psf).peak_info->Some_0.peaks@,
                ptr@.take(spec_attempted(total as int, len as int)).map_values(
                    |v: i16| spec_s2f(v, old(psf).spec_write_scale_short()),
                ),
                old(psf).channels as int,
                old(psf).write_current,
            ),
        ),
{
    let host = matches!(psf.float_codec_write, Some(FLOAT_CODEC::HOST));
    if host {
        host_write_s2f(psf, io, ptr, len)
    } else {
        replace_write_s2f(psf, io, ptr, len)
    }
}

/// Write 32-bit samples through the family bound at open time.
pub fn write_int<IO: BufferedIo>(
    psf: &mut SF_PRIVATE,
    io: &mut IO,
    ptr: &Vec<i32>,
    len: usize,
) -> (total: usize)
    requires
        len <= ptr@.len(),
        old(psf).float_codec_write is Some,
        old(psf).peak_info is Some ==> {
            &&& 1 <= old(psf).channels <= BUF_WORDS
            &&& old(psf).peak_info->Some_0.peaks@.len() == old(psf).channels
            &&& (len % BUF_WORDS == 0 || len % BUF_WORDS >= old(psf).channels)
            &&& old(psf).write_current + len + BUF_WORDS <= u64::MAX
        },
    ensures
        total <= len,
        final(io).remaining() == old(io).remaining(),
        final(io).written() == old(io).written() + ptr@.take(total as int).map_values(
            |v: i32| spec_write_i2f_elem(*old(psf), v),
        ),
        spec_config_eq(*old(psf), *final(psf)),
        old(psf).peak_info is None ==> final(psf).peak_info is None,
        old(psf).peak_info is Some ==> spec_peak_updated(
            *old(psf),
            *final(psf),
            spec_peak_chunks(
                old(psf).peak_info->Some_0.peaks@,
                ptr@.take(spec_attempted(total as int, len as int)).map_values(
                    |v: i32| spec_i2f(v, old(psf).spec_write_scale_int()),
                ),
                old(psf).channels as int,
                old(psf).write_current,
            ),
        ),
{
    let host = matches!(psf.float_codec_write, Some(FLOAT_CODEC::HOST));
    if host {
        host_write_i2f(psf, io, ptr, len)
    } else {
        replace_write_i2f(psf, io, ptr, len)
    }
}

/// Write float samples through the family bound at open time.
pub fn write_float<IO: BufferedIo>(
    psf: &mut SF_PRIVATE,
    io: &mut IO,
    ptr: &Vec<u32>,
    len: usize,
) -> (total: usize)
    requires
        len <= ptr@.len(),
        old(psf).float_codec_write is Some,
        old(psf).peak_info is Some ==> {
            &&& 1 <= old(psf).channels <= len
            &&& len + old(psf).channels <= usize::MAX
            &&& old(psf).peak_info->Some_0.peaks@.len() == old(psf).channels
            &&& old(psf).write_current + len <= u64::MAX
        },
    ensures
        total <= len,
        final(io).remaining() == old(io).remaining(),
        final(io).written() == old(io).written() + ptr@.take(total as int).map_values(
            |w: u32| spec_write_word(*old(psf), w),
        ),
        spec_config_eq(*old(psf), *final(psf)),
        old(psf).peak_info is None ==> final(psf).peak_info is None,
        old(psf).peak_info is Some ==> spec_peak_updated(
            *old(psf),
            *final(psf),
            spec_peaks_after_chunk(
                old(psf).peak_info->Some_0.peaks@,
                ptr@.take(len as int),
                old(psf).channels as int,
                old(psf).write_current,
                0,
            ),
        ),
{
    let host = matches!(psf.float_codec_write, Some(FLOAT_CODEC::HOST));
    if host {
        host_write_f(psf, io, ptr, len)
    } else {
        replace_write_f(psf, io, ptr, len)
    }
}

/// Write 64-bit float samples through the family bound at open time.
pub fn write_double<IO: BufferedIo>(
    psf: &mut SF_PRIVATE,
    io: &mut IO,
    ptr: &Vec<u64>,
    len: usize,
) -> (total: usize)
    requires
        len <= ptr@.len(),
        old(psf).float_codec_write is Some,
        old(psf).peak_info is Some ==> {
            &&& 1 <= old(psf).channels <= BUF_WORDS
            &&& old(psf).peak_info->Some_0.peaks@.len() == old(psf).channels
            &&& (len % BUF_WORDS == 0 || len % BUF_WORDS >= old(psf).channels)
            &&& old(psf).write_current + len + BUF_WORDS <= u64::MAX
        },
    ensures
        total <= len,
        final(io).remaining() == old(io).remaining(),
        final(io).written() == old(io).written() + ptr@.take(total as int).map_values(
            |v: u64| spec_write_d2f_elem(*old(psf), v),
        ),
        spec_config_eq(*old(psf), *final(psf)),
        old(psf).peak_info is None ==> final(psf).peak_info is None,
        old(psf).peak_info is Some ==> spec_peak_updated(
            *old(psf),
            *final(psf),
            spec_peak_chunks(
                old(psf).peak_info->Some_0.peaks@,
                ptr@.take(spec_attempted(total as int, len as int)).map_values(
                    |v: u64| spec_f64_to_f32(v),
                ),
                old(psf).channels as int,
                old(psf).write_current,
            ),
        ),
{
    let host = matches!(psf.float_codec_write, Some(FLOAT_CODEC::HOST));
    if host {
        host_write_d2f(psf, io, ptr, len)
    } else {
        replace_write_d2f(psf, io, ptr, len)
    }
}

/// Writing a block of float samples and reading it back through any pair of
/// session bindings that share the byte-swap setting reproduces the block
/// bit-exactly: without a swap both directions pass the words through, and
/// with a swap the two swaps cancel, element by element.
pub proof fn lemma_write_read_roundtrip(psf: SF_PRIVATE, data: Seq<u32>)
    ensures
        data.map_values(|w: u32| spec_write_word(psf, w)).map_values(
            |w: u32| spec_read_word(psf, w),
        ) =~= data,
{
    let once = data.map_values(|w: u32| spec_write_word(psf, w));
    let twice = once.map_values(|w: u32| spec_read_word(psf, w));
    assert forall|j: int| 0 <= j < data.len() implies twice[j] == data[j] by {
        if psf.data_endswap {
            crate::endian::lemma_swap32_involution(data[j]);
        }
    }
}

} // verus!
