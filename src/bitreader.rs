//! Reading a byte stream in chunks of 1, 2, 4 or 8 bits, low bits first.
use crate::source::{aligned_from, aligned_up, byte_or_zero, ByteSource, StreamError};
use vstd::arithmetic::div_mod::lemma_mod_breakdown;
use vstd::prelude::*;

verus! {

/// Chunk widths that divide a byte evenly.
pub open spec fn valid_chunk_width(w: int) -> bool {
    w == 1 || w == 2 || w == 4 || w == 8
}

/// The number of values a chunk of `w` bits can take.
pub open spec fn chunk_range(w: int) -> int {
    if w == 1 {
        2
    } else if w == 2 {
        4
    } else if w == 4 {
        16
    } else {
        256
    }
}

/// The chunk taken from the low end of a buffered byte.
pub open spec fn chunk_of(b: int, w: int) -> int {
    b % chunk_range(w)
}

/// What stays buffered once the low chunk is taken.
pub open spec fn rest_of(b: int, w: int) -> int {
    b / chunk_range(w)
}

/// The value that `n` successive chunks of `b` stand for, put back together.
pub open spec fn rebuild(b: int, w: int, n: nat) -> int
    decreases n,
{
    if n == 0 {
        0
    } else {
        chunk_of(b, w) + chunk_range(w) * rebuild(rest_of(b, w), w, (n - 1) as nat)
    }
}

/// Reads chunks of a fixed number of bits from a byte source, low-order bits first.
pub struct BitReader {
    byte: u8,
    n_bits_remaining: u8,
    n_bits_per_chunk: u8,
    source: ByteSource,
}

impl BitReader {
    /// The chunk width in bits.
    pub closed spec fn width(&self) -> int {
        self.n_bits_per_chunk as int
    }

    /// The unread bits of the current byte, shifted down to bit zero.
    pub closed spec fn buffered(&self) -> int {
        self.byte as int
    }

    /// How many bits of the current byte are still unread.
    pub closed spec fn remaining(&self) -> int {
        self.n_bits_remaining as int
    }

    /// The underlying byte source.
    pub closed spec fn src(&self) -> ByteSource {
        self.source
    }

    /// The width divides a byte, the unread bits make whole chunks, and the buffered value has no
    /// bits beyond them.
    pub closed spec fn wf(&self) -> bool {
        &&& valid_chunk_width(self.n_bits_per_chunk as int)
        &&& self.n_bits_remaining <= 8
        &&& whole_chunks(self.n_bits_remaining as int, self.n_bits_per_chunk as int)
        &&& self.byte < pow_of_remaining(self.n_bits_remaining as int)
    }

    pub fn new(source: ByteSource, n_bits_per_chunk: u8) -> (r: BitReader)
        requires
            valid_chunk_width(n_bits_per_chunk as int),
        ensures
            r.wf(),
            r.width() == n_bits_per_chunk,
            r.remaining() == 0,
            r.buffered() == 0,
            r.src() == source,
    {
        proof {
            vstd::arithmetic::power2::lemma2_to64();
        }
        BitReader { byte: 0, n_bits_remaining: 0, n_bits_per_chunk, source }
    }

    /// The read position of the byte source.
    pub fn source_position(&self) -> (r: usize)
        ensures
            r == self.src().pos(),
    {
        self.source.position()
    }

    /// Gives the byte source back.
    pub fn into_source(self) -> (s: ByteSource)
        ensures
            s == self.src(),
    {
        self.source
    }

    /// The byte the next chunk comes from: a new one from the source for a whole-byte reader or
    /// once the buffered bits are used up, else the buffered bits.
    pub open spec fn current(&self) -> int {
        if self.width() == 8 || self.remaining() == 0 {
            byte_or_zero(self.src().bytes(), self.src().pos()) as int
        } else {
            self.buffered()
        }
    }

    /// The chunk that the next read returns.
    pub open spec fn next_chunk(&self) -> int {
        chunk_of(self.current(), self.width())
    }

    /// `next` is this reader after one read.
    pub open spec fn read_step(&self, next: BitReader) -> bool {
        let s = self.src();
        let fresh = self.width() == 8 || self.remaining() == 0;
        &&& next.wf()
        &&& next.width() == self.width()
        &&& next.src().bytes() == s.bytes()
        &&& next.src().pos() == if fresh && s.pos() < s.bytes().len() {
            s.pos() + 1
        } else {
            s.pos()
        }
        &&& self.width() < 8 ==> next.buffered() == rest_of(self.current(), self.width())
            && next.remaining() == (if fresh {
            8
        } else {
            self.remaining()
        }) - self.width()
    }

    /// Reads the next chunk. A whole-byte reader reads straight from the source; a narrower one
    /// takes a new byte only when the buffered one is used up. Past the end a zero byte is read.
    pub fn read_bits(&mut self) -> (r: Result<u8, StreamError>)
        requires
            old(self).wf(),
        ensures
            r == Ok::<u8, StreamError>(old(self).next_chunk() as u8),
            old(self).read_step(*final(self)),
    {
        if self.n_bits_per_chunk == 8 {
            let b = self.source.read_byte();
            Ok(b)
        } else {
            if self.n_bits_remaining == 0 {
                self.byte = self.source.read_byte();
                self.n_bits_remaining = 8;
            }
            let w = self.n_bits_per_chunk;
            let byte = self.byte;
            let rem = self.n_bits_remaining;
            let result = byte & ((!0u8) >> (8 - w));
            let rest = byte >> w;
            proof {
                vstd::arithmetic::power2::lemma2_to64();
                lemma_chunk_bits(byte, w);
                lemma_rest_bound(byte as int, w as int, rem as int);
            }
            self.byte = rest;
            self.n_bits_remaining = rem - w;
            Ok(result)
        }
    }

    /// Moves the source until its distance from `origin` is a multiple of `align` and drops any
    /// buffered bits.
    pub fn seek_to_boundary_from(&mut self, origin: usize, align: usize) -> (r: Result<(), StreamError>)
        requires
            old(self).wf(),
            align > 0,
            origin <= old(self).src().pos(),
        ensures
            final(self).wf(),
            final(self).width() == old(self).width(),
            final(self).remaining() == 0,
            final(self).buffered() == 0,
            final(self).src().bytes() == old(self).src().bytes(),
            aligned_from(old(self).src().pos(), origin as int, align as int) <= usize::MAX ==> r
                is Ok && final(self).src().pos() == aligned_from(
                old(self).src().pos(),
                origin as int,
                align as int,
            ),
            aligned_from(old(self).src().pos(), origin as int, align as int) > usize::MAX ==> r
                == Err::<(), StreamError>(StreamError::InvalidSeek)
                && final(self).src().pos() == old(self).src().pos(),
            (old(self).src().pos() - origin) % (align as int) == 0 ==> r is Ok
                && final(self).src().pos() == old(self).src().pos(),
    {
        proof {
            vstd::arithmetic::power2::lemma2_to64();
        }
        let r = self.source.seek_to_boundary_from(origin, align);
        self.byte = 0;
        self.n_bits_remaining = 0;
        r
    }

    /// Moves the source to the next multiple of `align` and drops any buffered bits.
    pub fn seek_to_byte_boundary(&mut self, align: usize) -> (r: Result<(), StreamError>)
        requires
            old(self).wf(),
            align > 0,
        ensures
            final(self).wf(),
            final(self).width() == old(self).width(),
            final(self).remaining() == 0,
            final(self).buffered() == 0,
            final(self).src().bytes() == old(self).src().bytes(),
            aligned_up(old(self).src().pos(), align as int) <= usize::MAX ==> r is Ok
                && final(self).src().pos() == aligned_up(old(self).src().pos(), align as int),
            aligned_up(old(self).src().pos(), align as int) > usize::MAX ==> r
                == Err::<(), StreamError>(StreamError::InvalidSeek)
                && final(self).src().pos() == old(self).src().pos(),
            old(self).src().pos() % (align as int) == 0 ==> r is Ok
                && final(self).src().pos() == old(self).src().pos(),
    {
        proof {
            crate::source::lemma_pos_fits(self.source);
        }
        self.seek_to_boundary_from(0, align)
    }
}

/// The next chunk of a well-formed reader is below 256.
pub proof fn lemma_next_chunk_in_range(r: BitReader)
    requires
        r.wf(),
    ensures
        0 <= r.next_chunk() < 256,
{
}

/// `n` bits make whole chunks of `w` bits.
pub open spec fn whole_chunks(n: int, w: int) -> bool {
    ||| w == 1
    ||| w == 2 && n % 2 == 0
    ||| w == 4 && n % 4 == 0
    ||| w == 8
}

/// `2` to the power of a bit count of at most eight.
pub open spec fn pow_of_remaining(n: int) -> int {
    vstd::arithmetic::power2::pow2(n as nat) as int
}

proof fn lemma_chunk_bits(b: u8, w: u8)
    requires
        valid_chunk_width(w as int),
        w < 8,
    ensures
        (b & ((!0u8) >> (8 - w) as u8)) as int == chunk_of(b as int, w as int),
        (b >> w) as int == rest_of(b as int, w as int),
{
    if w == 1 {
        assert(b & ((!0u8) >> 7u8) == b % 2) by (bit_vector);
        assert(b >> 1u8 == b / 2) by (bit_vector);
    } else if w == 2 {
        assert(b & ((!0u8) >> 6u8) == b % 4) by (bit_vector);
        assert(b >> 2u8 == b / 4) by (bit_vector);
    } else {
        assert(b & ((!0u8) >> 4u8) == b % 16) by (bit_vector);
        assert(b >> 4u8 == b / 16) by (bit_vector);
    }
}

proof fn lemma_rest_bound(b: int, w: int, rem: int)
    requires
        valid_chunk_width(w),
        w < 8,
        w <= rem <= 8,
        whole_chunks(rem, w),
        0 <= b < pow_of_remaining(rem),
    ensures
        rest_of(b, w) < pow_of_remaining(rem - w),
        whole_chunks(rem - w, w),
{
    vstd::arithmetic::power2::lemma2_to64();
    assert(pow_of_remaining(rem) == chunk_range(w) * pow_of_remaining(rem - w)) by {
        vstd::arithmetic::power2::lemma_pow2_adds((rem - w) as nat, w as nat);
    }
    vstd::arithmetic::div_mod::lemma_div_by_multiple_is_strongly_ordered(
        b, pow_of_remaining(rem), pow_of_remaining(rem - w), chunk_range(w));
}

/// The number of values `n` chunks of `w` bits can take together.
pub open spec fn chunk_span(w: int, n: nat) -> int
    decreases n,
{
    if n == 0 {
        1
    } else {
        chunk_range(w) * chunk_span(w, (n - 1) as nat)
    }
}

/// Reading a whole byte as `8 / w` chunks of `w` bits, and putting the chunks back together in
/// the order they were read, gives the byte back.
pub proof fn lemma_chunks_rebuild_byte(b: u8, w: int)
    requires
        valid_chunk_width(w),
    ensures
        rebuild(b as int, w, (8int / w) as nat) == b,
{
    reveal_with_fuel(chunk_span, 9);
    if w == 1 {
        lemma_rebuild_is_mod(b as int, 1, 8);
        assert(chunk_span(1, 8) == 256);
    } else if w == 2 {
        lemma_rebuild_is_mod(b as int, 2, 4);
        assert(chunk_span(2, 1) == 4);
        assert(chunk_span(2, 2) == 16);
        assert(chunk_span(2, 3) == 64);
        assert(chunk_span(2, 4) == 256);
    } else if w == 4 {
        lemma_rebuild_is_mod(b as int, 4, 2);
        assert(chunk_span(4, 1) == 16);
        assert(chunk_span(4, 2) == 256);
    } else {
        lemma_rebuild_is_mod(b as int, 8, 1);
        assert(chunk_span(8, 1) == 256);
    }
}

proof fn lemma_rebuild_is_mod(b: int, w: int, n: nat)
    requires
        valid_chunk_width(w),
        b >= 0,
    ensures
        chunk_span(w, n) > 0,
        rebuild(b, w, n) == b % chunk_span(w, n),
    decreases n,
{
    let p = chunk_range(w);
    if n > 0 {
        lemma_rebuild_is_mod(b / p, w, (n - 1) as nat);
        let q = chunk_span(w, (n - 1) as nat);
        lemma_mod_breakdown(b, p, q);
        vstd::arithmetic::mul::lemma_mul_strictly_positive(p, q);
    }
}

/// What `n` successive reads hand out, starting with reader `rs[k]`, put back together in the
/// order they were read: each chunk above the ones before it.
pub open spec fn chunks_read(rs: Seq<BitReader>, k: int, n: nat) -> int
    decreases n,
{
    if n == 0 {
        0
    } else {
        rs[k].next_chunk() + chunk_range(rs[k].width()) * chunks_read(rs, k + 1, (n - 1) as nat)
    }
}

proof fn lemma_chunks_read_rebuild(rs: Seq<BitReader>, w: int, j: int, m: nat)
    requires
        valid_chunk_width(w),
        w < 8,
        0 <= j,
        j + m < rs.len(),
        forall|i: int| j <= i < j + m ==> #[trigger] rs[i].read_step(rs[i + 1]),
        forall|i: int| j <= i <= j + m ==> #[trigger] rs[i].width() == w,
        forall|i: int| j < i < j + m ==> #[trigger] rs[i].remaining() > 0,
    ensures
        chunks_read(rs, j, m) == rebuild(rs[j].current(), w, m),
    decreases m,
{
    if m > 0 {
        lemma_chunks_read_rebuild(rs, w, j + 1, (m - 1) as nat);
        if m > 1 {
            assert(rs[j].read_step(rs[j + 1]));
            assert(rs[j + 1].remaining() > 0);
            assert(rs[j + 1].current() == rest_of(rs[j].current(), w));
        } else {
            assert(rebuild(rs[j + 1].current(), w, 0) == 0);
            assert(rebuild(rest_of(rs[j].current(), w), w, 0) == 0);
        }
    }
}

proof fn lemma_read_run(rs: Seq<BitReader>, w: int, n: int, i: int)
    requires
        valid_chunk_width(w),
        w < 8,
        n * w == 8,
        1 <= i <= n,
        rs.len() == n + 1,
        rs[0].wf(),
        rs[0].width() == w,
        rs[0].remaining() == 0,
        forall|k: int| 0 <= k < n ==> #[trigger] rs[k].read_step(rs[k + 1]),
    ensures
        forall|k: int| 0 <= k <= i ==> #[trigger] rs[k].width() == w,
        forall|k: int| 1 <= k <= i ==> #[trigger] rs[k].remaining() == 8 - k * w,
        forall|k: int| 1 <= k <= i ==> #[trigger] rs[k].src().pos() == rs[1].src().pos(),
        forall|k: int| 0 <= k <= i ==> #[trigger] rs[k].src().bytes() == rs[0].src().bytes(),
    decreases i,
{
    let z = 0int;
    assert(rs[z].read_step(rs[z + 1]));
    assert(rs[1].remaining() == 8 - 1 * w);
    if i > 1 {
        lemma_read_run(rs, w, n, i - 1);
        let k = i - 1;
        assert(rs[k].read_step(rs[k + 1]));
        assert(rs[k].remaining() == 8 - k * w);
        assert(k * w < 8) by (nonlinear_arith)
            requires
                k < n,
                n * w == 8,
                w > 0,
        ;
        assert((8 - k * w) - w == 8 - (k + 1) * w) by (nonlinear_arith);
        assert(rs[i].remaining() == 8 - i * w);
    }
}

/// Reading a fresh reader `8 / w` times, and putting the chunks back together in the order they
/// were read, gives back the byte at the source's position; the source moves on by that one byte.
pub proof fn lemma_reads_rebuild_byte(rs: Seq<BitReader>)
    requires
        rs.len() >= 1,
        rs[0].wf(),
        rs[0].remaining() == 0,
        rs.len() == 8int / rs[0].width() + 1,
        forall|k: int| 0 <= k < rs.len() - 1 ==> #[trigger] rs[k].read_step(rs[k + 1]),
    ensures
        chunks_read(rs, 0, (rs.len() - 1) as nat) == byte_or_zero(
            rs[0].src().bytes(),
            rs[0].src().pos(),
        ),
        rs.last().src().bytes() == rs[0].src().bytes(),
        rs.last().src().pos() == if rs[0].src().pos() < rs[0].src().bytes().len() {
            rs[0].src().pos() + 1
        } else {
            rs[0].src().pos()
        },
{
    let w = rs[0].width();
    let n = rs.len() - 1;
    let b = byte_or_zero(rs[0].src().bytes(), rs[0].src().pos());
    assert(n == 8int / w);
    if w == 1 {
        assert(8int / 1 == 8) by (nonlinear_arith);
        assert(n == 8);
    } else if w == 2 {
        assert(8int / 2 == 4) by (nonlinear_arith);
        assert(n == 4);
    } else if w == 4 {
        assert(8int / 4 == 2) by (nonlinear_arith);
        assert(n == 2);
    } else {
        assert(8int / 8 == 1) by (nonlinear_arith);
        assert(n == 1);
    }
    let z = 0int;
    assert(rs[z].read_step(rs[z + 1]));
    if w == 8 {
        assert(n == 1);
        assert(chunks_read(rs, 1, 0) == 0);
        assert(chunks_read(rs, 0, 1) == rs[0].next_chunk());
    } else {
        assert(n * w == 8);
        lemma_read_run(rs, w, n, n);
        assert forall|i: int| 0 < i < 0 + n implies #[trigger] rs[i].remaining() > 0 by {
            assert(i * w < 8) by (nonlinear_arith)
                requires
                    i < n,
                    n * w == 8,
                    w > 0,
            ;
        }
        lemma_chunks_read_rebuild(rs, w, 0, n as nat);
        lemma_chunks_rebuild_byte(b, w);
        assert(rs[n] == rs.last());
    }
}

} // verus!
