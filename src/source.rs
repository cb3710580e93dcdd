//! A forward-reading cursor over the bytes of an image file.
use byteorder::{ByteOrder, LittleEndian};
use vstd::prelude::*;
use vstd::slice::slice_subrange;

verus! {

/// What can go wrong while bytes are pulled from a `ByteSource`.
#[derive(Debug, Clone, Copy, PartialEq, Eq, Structural)]
pub enum StreamError {
    /// Fewer bytes were left than a fixed-size read needs.
    UnexpectedEof,
    /// A seek would move the position past what a `usize` holds.
    InvalidSeek,
    /// A pixel named a palette entry that the palette does not have.
    PaletteIndexOutOfRange(u8),
}

/// The byte at `i`, or zero where `i` lies outside the data.
pub open spec fn byte_or_zero(d: Seq<u8>, i: int) -> u8 {
    if 0 <= i < d.len() {
        d[i]
    } else {
        0
    }
}

/// The data holds `n` bytes from index `i` on.
pub open spec fn has_bytes(d: Seq<u8>, i: int, n: int) -> bool {
    0 <= i && i + n <= d.len()
}

/// The 16-bit little-endian value at `i`.
pub open spec fn le16(d: Seq<u8>, i: int) -> u16 {
    (d[i] as int + 256 * d[i + 1] as int) as u16
}

/// The 32-bit little-endian value at `i`.
pub open spec fn le32(d: Seq<u8>, i: int) -> u32 {
    (d[i] as int + 0x100 * d[i + 1] as int + 0x1_0000 * d[i + 2] as int + 0x100_0000
        * d[i + 3] as int) as u32
}

/// The first multiple of `a` that is not below `p`.
pub open spec fn aligned_up(p: int, a: int) -> int {
    if p % a == 0 {
        p
    } else {
        p + (a - p % a)
    }
}

/// The first position at or after `p` whose distance from `origin` is a multiple of `a`.
pub open spec fn aligned_from(p: int, origin: int, a: int) -> int {
    origin + aligned_up(p - origin, a)
}

/// Where a read of `n` bytes from `p`, which stops at the end of the data, leaves the position.
pub open spec fn fill_end(d: Seq<u8>, p: int, n: int) -> int {
    if p >= d.len() {
        p
    } else if p + n <= d.len() {
        p + n
    } else {
        d.len() as int
    }
}

/// Realigning lands on a multiple of `a`, at most `a - 1` bytes on; at a position that is already
/// a multiple it stays, so realigning twice is the same as realigning once.
pub proof fn lemma_realign_idempotent(p: int, a: int)
    requires
        p >= 0,
        a > 0,
    ensures
        aligned_up(p, a) % a == 0,
        p <= aligned_up(p, a) < p + a,
        p % a == 0 ==> aligned_up(p, a) == p,
        p % a != 0 ==> aligned_up(p, a) == p + (a - p % a),
        aligned_up(aligned_up(p, a), a) == aligned_up(p, a),
{
    vstd::arithmetic::div_mod::lemma_fundamental_div_mod(p, a);
    if p % a != 0 {
        assert(p + (a - p % a) == a * (p / a + 1)) by (nonlinear_arith)
            requires
                p == a * (p / a) + p % a,
        ;
        vstd::arithmetic::div_mod::lemma_mod_multiples_basic(p / a + 1, a);
    }
}

/// Realigning from an origin lands at a multiple of `a` past it, at most `a - 1` bytes on, and
/// realigning again from the same origin stays there.
pub proof fn lemma_realign_from_idempotent(p: int, origin: int, a: int)
    requires
        origin <= p,
        a > 0,
    ensures
        (aligned_from(p, origin, a) - origin) % a == 0,
        p <= aligned_from(p, origin, a) < p + a,
        (p - origin) % a == 0 ==> aligned_from(p, origin, a) == p,
        aligned_from(aligned_from(p, origin, a), origin, a) == aligned_from(p, origin, a),
{
    lemma_realign_idempotent(p - origin, a);
}

/// Relies on byteorder's `LittleEndian::read_u16`: the first two bytes, least significant first.
#[verifier::external_body]
fn le_u16(b: &[u8]) -> (r: u16)
    requires
        b@.len() >= 2,
    ensures
        r == le16(b@, 0),
{
    LittleEndian::read_u16(b)
}

/// Relies on byteorder's `LittleEndian::read_u32`: the first four bytes, least significant first.
#[verifier::external_body]
fn le_u32(b: &[u8]) -> (r: u32)
    requires
        b@.len() >= 4,
    ensures
        r == le32(b@, 0),
{
    LittleEndian::read_u32(b)
}

/// Relies on byteorder's `LittleEndian::read_i32`: the first four bytes, least significant
/// first, taken as two's complement.
#[verifier::external_body]
fn le_i32(b: &[u8]) -> (r: i32)
    requires
        b@.len() >= 4,
    ensures
        r == le32(b@, 0) as i32,
{
    LittleEndian::read_i32(b)
}

/// The bytes of a file and a read position, which may stand past the end.
pub struct ByteSource {
    data: Vec<u8>,
    pos: usize,
}

impl ByteSource {
    /// The bytes.
    pub closed spec fn bytes(&self) -> Seq<u8> {
        self.data@
    }

    /// The read position.
    pub closed spec fn pos(&self) -> int {
        self.pos as int
    }

    pub fn new(data: Vec<u8>) -> (s: ByteSource)
        ensures
            s.bytes() == data@,
            s.pos() == 0,
    {
        ByteSource { data, pos: 0 }
    }

    pub fn position(&self) -> (r: usize)
        ensures
            r == self.pos(),
    {
        self.pos
    }

    /// Reads one byte; past the end it reads zero and stays where it is.
    pub fn read_byte(&mut self) -> (b: u8)
        ensures
            b == byte_or_zero(old(self).bytes(), old(self).pos()),
            final(self).bytes() == old(self).bytes(),
            final(self).pos() == if old(self).pos() < old(self).bytes().len() {
                old(self).pos() + 1
            } else {
                old(self).pos()
            },
    {
        if self.pos < self.data.len() {
            let b = self.data[self.pos];
            self.pos = self.pos + 1;
            b
        } else {
            0
        }
    }

    /// Reads one byte; at the end it fails and stays.
    pub fn read_u8(&mut self) -> (r: Result<u8, StreamError>)
        ensures
            final(self).bytes() == old(self).bytes(),
            has_bytes(old(self).bytes(), old(self).pos(), 1) ==> r == Ok::<u8, StreamError>(
                old(self).bytes()[old(self).pos()],
            ) && final(self).pos() == old(self).pos() + 1,
            !has_bytes(old(self).bytes(), old(self).pos(), 1) ==> r == Err::<u8, StreamError>(
                StreamError::UnexpectedEof,
            ) && final(self).pos() == old(self).pos(),
    {
        if self.pos < self.data.len() {
            let b = self.data[self.pos];
            self.pos = self.pos + 1;
            Ok(b)
        } else {
            Err(StreamError::UnexpectedEof)
        }
    }

    /// Reads a 16-bit little-endian value; with fewer than two bytes left it fails and stays.
    pub fn read_u16_le(&mut self) -> (r: Result<u16, StreamError>)
        ensures
            final(self).bytes() == old(self).bytes(),
            has_bytes(old(self).bytes(), old(self).pos(), 2) ==> r == Ok::<u16, StreamError>(
                le16(old(self).bytes(), old(self).pos()),
            ) && final(self).pos() == old(self).pos() + 2,
            !has_bytes(old(self).bytes(), old(self).pos(), 2) ==> r == Err::<u16, StreamError>(
                StreamError::UnexpectedEof,
            ) && final(self).pos() == old(self).pos(),
    {
        if self.pos <= self.data.len() && self.data.len() - self.pos >= 2 {
            let b = slice_subrange(self.data.as_slice(), self.pos, self.pos + 2);
            let v = le_u16(b);
            self.pos = self.pos + 2;
            Ok(v)
        } else {
            Err(StreamError::UnexpectedEof)
        }
    }

    /// Reads a 32-bit little-endian value; with fewer than four bytes left it fails and stays.
    pub fn read_u32_le(&mut self) -> (r: Result<u32, StreamError>)
        ensures
            final(self).bytes() == old(self).bytes(),
            has_bytes(old(self).bytes(), old(self).pos(), 4) ==> r == Ok::<u32, StreamError>(
                le32(old(self).bytes(), old(self).pos()),
            ) && final(self).pos() == old(self).pos() + 4,
            !has_bytes(old(self).bytes(), old(self).pos(), 4) ==> r == Err::<u32, StreamError>(
                StreamError::UnexpectedEof,
            ) && final(self).pos() == old(self).pos(),
    {
        if self.pos <= self.data.len() && self.data.len() - self.pos >= 4 {
            let b = slice_subrange(self.data.as_slice(), self.pos, self.pos + 4);
            let v = le_u32(b);
            self.pos = self.pos + 4;
            Ok(v)
        } else {
            Err(StreamError::UnexpectedEof)
        }
    }

    /// Reads a 32-bit little-endian two's complement value, as `read_u32_le` does.
    pub fn read_i32_le(&mut self) -> (r: Result<i32, StreamError>)
        ensures
            final(self).bytes() == old(self).bytes(),
            has_bytes(old(self).bytes(), old(self).pos(), 4) ==> r == Ok::<i32, StreamError>(
                le32(old(self).bytes(), old(self).pos()) as i32,
            ) && final(self).pos() == old(self).pos() + 4,
            !has_bytes(old(self).bytes(), old(self).pos(), 4) ==> r == Err::<i32, StreamError>(
                StreamError::UnexpectedEof,
            ) && final(self).pos() == old(self).pos(),
    {
        if self.pos <= self.data.len() && self.data.len() - self.pos >= 4 {
            let b = slice_subrange(self.data.as_slice(), self.pos, self.pos + 4);
            let v = le_i32(b);
            self.pos = self.pos + 4;
            Ok(v)
        } else {
            Err(StreamError::UnexpectedEof)
        }
    }

    /// Moves the position `n` bytes forward.
    pub fn skip(&mut self, n: usize)
        requires
            old(self).pos() + n <= usize::MAX,
        ensures
            final(self).bytes() == old(self).bytes(),
            final(self).pos() == old(self).pos() + n,
    {
        self.pos = self.pos + n;
    }

    /// Moves the position to `p`.
    pub fn seek_to(&mut self, p: usize)
        ensures
            final(self).bytes() == old(self).bytes(),
            final(self).pos() == p,
    {
        self.pos = p;
    }

    /// Advances the position until its distance from `origin` is a multiple of `align`, or stays
    /// where it already is.
    pub fn seek_to_boundary_from(&mut self, origin: usize, align: usize) -> (r: Result<(), StreamError>)
        requires
            align > 0,
            origin <= old(self).pos(),
        ensures
            final(self).bytes() == old(self).bytes(),
            aligned_from(old(self).pos(), origin as int, align as int) <= usize::MAX ==> r
                == Ok::<(), StreamError>(()) && final(self).pos() == aligned_from(
                old(self).pos(),
                origin as int,
                align as int,
            ),
            aligned_from(old(self).pos(), origin as int, align as int) > usize::MAX ==> r
                == Err::<(), StreamError>(StreamError::InvalidSeek)
                && final(self).pos() == old(self).pos(),
            (old(self).pos() - origin) % (align as int) == 0 ==> r == Ok::<(), StreamError>(())
                && final(self).pos() == old(self).pos(),
    {
        let rem = (self.pos - origin) % align;
        if rem != 0 {
            let step = align - rem;
            if self.pos > usize::MAX - step {
                return Err(StreamError::InvalidSeek);
            }
            self.pos = self.pos + step;
        }
        Ok(())
    }

    /// Advances the position to the next multiple of `align`, or stays where it already is one.
    pub fn seek_to_byte_boundary(&mut self, align: usize) -> (r: Result<(), StreamError>)
        requires
            align > 0,
        ensures
            final(self).bytes() == old(self).bytes(),
            aligned_up(old(self).pos(), align as int) <= usize::MAX ==> r == Ok::<(), StreamError>(
                (),
            ) && final(self).pos() == aligned_up(old(self).pos(), align as int),
            aligned_up(old(self).pos(), align as int) > usize::MAX ==> r == Err::<(), StreamError>(
                StreamError::InvalidSeek,
            ) && final(self).pos() == old(self).pos(),
            old(self).pos() % (align as int) == 0 ==> r == Ok::<(), StreamError>(())
                && final(self).pos() == old(self).pos(),
    {
        self.seek_to_boundary_from(0, align)
    }
}

/// A position always fits in a `usize`.
pub proof fn lemma_pos_fits(s: ByteSource)
    ensures
        0 <= s.pos() <= usize::MAX,
{
}

} // verus!
