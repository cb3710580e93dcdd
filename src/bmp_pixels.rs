//! Pixel values: channel extraction from packed values, widening of channels to 32 bits, and
//! the per-format pixel stream.
use crate::bitreader::{lemma_next_chunk_in_range, BitReader};
use crate::bmp_header::{BMPError, BMPVersion};
use crate::source::{aligned_from, aligned_up, byte_or_zero, fill_end, has_bytes, le16, le32, ByteSource, StreamError};
use crate::bmp_header::{header_at, BMPHeader as Header};
use vstd::arithmetic::power2::{lemma2_to64, lemma_pow2_adds, lemma_pow2_pos, pow2};
use vstd::bits::{lemma_u32_pow2_no_overflow, lemma_u32_shl_is_mul, lemma_u32_shr_is_div};
use vstd::prelude::*;
use vstd::std_specs::bits::u32_trailing_zeros;

verus! {

/// A pixel with each channel widened to 32 bits.
#[derive(Debug, Clone, Copy, PartialEq, Eq, Structural)]
pub struct Pixel {
    pub red: u32,
    pub green: u32,
    pub blue: u32,
    pub alpha: u32,
}

/// `n` copies of the `b`-bit value `v`, laid side by side.
pub open spec fn repeat_bits(v: int, b: int, n: nat) -> int
    decreases n,
{
    if n == 0 {
        0
    } else {
        repeat_bits(v, b, (n - 1) as nat) * pow2(b as nat) + v
    }
}

/// The `b`-bit value `v` repeated from the top of a 32-bit word down; where `b` does not divide
/// 32, the lowest bits hold the top bits of `v`.
pub open spec fn upscaled(v: int, b: int) -> int {
    repeat_bits(v, b, (32int / b) as nat) * pow2((32int % b) as nat) + v / (pow2((b - 32int % b) as nat) as int)
}

proof fn lemma_or_low(x: u32, y: u32, b: u32)
    requires
        b < 32,
        y < (1u32 << b),
    ensures
        ((x << b) | y) == ((x << b) + y) as u32,
        (x << b) + y <= u32::MAX,
{
    assert(((x << b) | y) == ((x << b) + y) as u32 && (x << b) + y <= u32::MAX) by (bit_vector)
        requires
            b < 32,
            y < (1u32 << b),
    ;
}

/// Widens a `bits`-bit channel value to 32 bits by repeating it.
pub fn upscale(from: u32, bits: u8) -> (to: u32)
    requires
        1 <= bits <= 32,
        from < pow2(bits as nat),
    ensures
        to == upscaled(from as int, bits as int),
{
    let b = bits as u32;
    let n = 32 / b;
    let r = 32 % b;
    proof {
        lemma2_to64();
        vstd::arithmetic::div_mod::lemma_fundamental_div_mod(32, b as int);
        assert(n * b + r == 32) by (nonlinear_arith)
            requires
                n == 32int / (b as int),
                r == 32int % (b as int),
                32 == (b as int) * (32int / (b as int)) + 32int % (b as int),
        ;
        assert(n >= 1) by (nonlinear_arith)
            requires
                n == 32u32 / b,
                1 <= b <= 32,
        ;
    }
    let mut to = from;
    let mut i: u32 = 1;
    proof {
        reveal_with_fuel(repeat_bits, 2);
    }
    while i < n
        invariant
            1 <= i <= n,
            n * b + r == 32,
            n == 32u32 / b,
            r == 32u32 % b,
            1 <= b <= 32,
            from < pow2(b as nat),
            to == repeat_bits(from as int, b as int, i as nat),
            to < pow2((i * b) as nat),
        decreases n - i,
    {
        proof {
            reveal_with_fuel(repeat_bits, 2);
            lemma2_to64();
            assert(i * b + b <= 32) by (nonlinear_arith)
                requires
                    i < n,
                    n * b + r == 32,
                    r >= 0,
            ;
            assert((i + 1) * b == i * b + b) by (nonlinear_arith);
            assert(b < 32);
            lemma_pow2_adds((i * b) as nat, b as nat);
            lemma_pow2_pos(b as nat);
            lemma_pow2_pos((i * b) as nat);
            if i * b + b < 32 {
                vstd::arithmetic::power2::lemma_pow2_strictly_increases((i * b + b) as nat, 32);
            }
            let e1: nat = (i * b) as nat;
            let e2: nat = b as nat;
            assert(pow2(e1 + e2) == pow2(e1) * pow2(e2));
            assert(pow2(e1 + e2) <= pow2(32));
            assert(to * pow2(e2) < pow2(e1) * pow2(e2)) by (nonlinear_arith)
                requires
                    to < pow2(e1),
                    pow2(e2) > 0,
            ;
            lemma_u32_shl_is_mul(to, b);
            lemma_u32_pow2_no_overflow(b as nat);
            lemma_u32_shl_is_mul(1, b);
            lemma_or_low(to, from, b);
            assert(repeat_bits(from as int, b as int, (i + 1) as nat) == repeat_bits(
                from as int,
                b as int,
                i as nat,
            ) * pow2(b as nat) + from);
            assert(to * pow2(b as nat) + from < pow2((i * b + b) as nat)) by (nonlinear_arith)
                requires
                    to < pow2((i * b) as nat),
                    from < pow2(b as nat),
                    pow2((i * b + b) as nat) == pow2((i * b) as nat) * pow2(b as nat),
            ;
        }
        to = (to << b) | from;
        i = i + 1;
    }
    if r != 0 {
        proof {
            assert(b - r < 32);
            assert(r < 32);
            lemma_u32_shr_is_div(from, (b - r) as u32);
            lemma_pow2_adds((b - r) as nat, r as nat);
            lemma_pow2_pos((b - r) as nat);
            lemma_pow2_pos(r as nat);
            assert(pow2(b as nat) == pow2(r as nat) * pow2((b - r) as nat)) by (nonlinear_arith)
                requires
                    pow2(((b - r) + r) as nat) == pow2((b - r) as nat) * pow2(r as nat),
                    (b - r) + r == b,
            ;
            vstd::arithmetic::div_mod::lemma_div_by_multiple_is_strongly_ordered(
                from as int,
                pow2(b as nat) as int,
                pow2(r as nat) as int,
                pow2((b - r) as nat) as int,
            );
            vstd::arithmetic::div_mod::lemma_div_by_multiple(
                pow2(r as nat) as int,
                pow2((b - r) as nat) as int,
            );
            lemma_u32_pow2_no_overflow(r as nat);
            lemma_u32_shl_is_mul(1, r);
            lemma_pow2_adds((i * b) as nat, r as nat);
            assert(to * pow2(r as nat) < pow2(32)) by (nonlinear_arith)
                requires
                    to < pow2((i * b) as nat),
                    pow2(r as nat) > 0,
                    pow2((i * b + r) as nat) == pow2((i * b) as nat) * pow2(r as nat),
                    i * b + r == 32,
            ;
            lemma_u32_shl_is_mul(to, r);
            lemma_or_low(to, from >> (b - r), r);
            assert(to == repeat_bits(from as int, b as int, (32int / b as int) as nat));
        }
        let top = from >> (b - r);
        let low = to << r;
        to = low | top;
        assert(to == low + top);
        assert(low == repeat_bits(from as int, b as int, (32int / b as int) as nat) * pow2(
            (32int % b as int) as nat,
        ));
        assert(top == from as int / (pow2((b - 32int % b as int) as nat) as int));
        assert(to == upscaled(from as int, b as int));
    } else {
        proof {
            assert(to == repeat_bits(from as int, b as int, (32int / b as int) as nat));
            assert(pow2(0) == 1);
            assert(from as int / pow2(b as nat) as int == 0) by (nonlinear_arith)
                requires
                    from < pow2(b as nat),
                    from >= 0,
            ;
            assert(32int % (b as int) == 0);
            assert(pow2((32int % b as int) as nat) == 1);
            assert((b - 32int % b as int) as nat == b as nat);
            let rep = repeat_bits(from as int, b as int, (32int / b as int) as nat);
            let unit_pow = pow2((32int % b as int) as nat);
            assert(rep * unit_pow == rep) by (nonlinear_arith)
                requires
                    unit_pow == 1,
            ;
            assert(from as int / (pow2((b - 32int % b as int) as nat) as int) == 0);
            assert(to == upscaled(from as int, b as int));
        }
    }
    to
}

/// Where the lowest run of set bits of `m` starts.
pub open spec fn run_shift(m: u32) -> u32 {
    u32_trailing_zeros(m)
}

/// How long the lowest run of set bits of `m` is.
pub open spec fn run_width(m: u32) -> u32 {
    u32_trailing_zeros(!(m >> run_shift(m)))
}

/// The bits of `px` under the lowest run of `m`, shifted down to bit zero.
pub open spec fn channel_bits(px: u32, m: u32) -> u32 {
    (px >> run_shift(m)) & ((!0u32) >> (32 - run_width(m)) as u32)
}

/// The channel of `px` that the nonzero mask `m` selects, widened to 32 bits.
pub open spec fn masked(px: u32, m: u32) -> int {
    upscaled(channel_bits(px, m) as int, run_width(m) as int)
}

/// A colour channel: black where the mask is empty.
pub open spec fn color_channel(px: u32, m: u32) -> int {
    if m == 0 {
        0
    } else {
        masked(px, m)
    }
}

/// The alpha channel: opaque where the mask is empty.
pub open spec fn alpha_channel(px: u32, m: u32) -> int {
    if m == 0 {
        0xffff_ffff
    } else {
        masked(px, m)
    }
}

fn mask(px: u32, msk: u32) -> (r: u32)
    requires
        msk != 0,
    ensures
        r == masked(px, msk),
{
    let shift = msk.trailing_zeros();
    let run = msk >> shift;
    let width = (!run).trailing_zeros();
    proof {
        vstd::std_specs::bits::axiom_u32_trailing_zeros(msk);
        vstd::std_specs::bits::axiom_u32_trailing_zeros(!run);
        assert(run & 1 == 1 ==> (!run >> 0u32) & 1 == 0) by (bit_vector);
        lemma2_to64();
    }
    let value = (px >> shift) & ((!0u32) >> (32 - width));
    proof {
        if width < 32 {
            assert(width >= 1 && width < 32 ==> value < (1u32 << width)) by (bit_vector)
                requires
                    value == (px >> shift) & ((!0u32) >> (32 - width) as u32),
            ;
            lemma_u32_pow2_no_overflow(width as nat);
            lemma_u32_shl_is_mul(1, width);
        }
    }
    upscale(value, width as u8)
}

fn mask_or_zeros(px: u32, msk: u32) -> (r: u32)
    ensures
        r == color_channel(px, msk),
{
    if msk == 0 {
        0
    } else {
        mask(px, msk)
    }
}

fn mask_or_ones(px: u32, msk: u32) -> (r: u32)
    ensures
        r == alpha_channel(px, msk),
{
    if msk == 0 {
        assert(!0u32 == 0xffff_ffff) by (bit_vector);
        !0u32
    } else {
        mask(px, msk)
    }
}

/// A palette entry, or a 24-bit pixel: eight bits per colour.
#[derive(Debug, Clone, Copy, PartialEq, Eq, Structural)]
pub struct PalletePixel {
    pub red: u8,
    pub green: u8,
    pub blue: u8,
}

/// An opaque pixel with eight-bit channels, each byte repeated four times.
pub open spec fn palette_pixel(px: PalletePixel) -> Pixel {
    Pixel {
        red: (px.red as int * 0x0101_0101) as u32,
        green: (px.green as int * 0x0101_0101) as u32,
        blue: (px.blue as int * 0x0101_0101) as u32,
        alpha: 0xffff_ffff,
    }
}

/// A pixel unpacked from `px` by four channel masks.
pub open spec fn bitfield_pixel(px: u32, red: u32, green: u32, blue: u32, alpha: u32) -> Pixel {
    Pixel {
        red: color_channel(px, red) as u32,
        green: color_channel(px, green) as u32,
        blue: color_channel(px, blue) as u32,
        alpha: alpha_channel(px, alpha) as u32,
    }
}

proof fn lemma_upscale_byte(v: u8)
    ensures
        upscaled(v as int, 8) == v as int * 0x0101_0101,
{
    lemma2_to64();
    let x = v as int;
    assert(repeat_bits(x, 8, 0) == 0);
    assert(repeat_bits(x, 8, 1) == x);
    assert(repeat_bits(x, 8, 2) == x * 256 + x);
    assert(repeat_bits(x, 8, 3) == (x * 256 + x) * 256 + x);
    assert(repeat_bits(x, 8, 4) == ((x * 256 + x) * 256 + x) * 256 + x);
    assert(((x * 256 + x) * 256 + x) * 256 + x == x * 0x0101_0101) by (nonlinear_arith);
    assert(32int / 8 == 4);
    assert(32int % 8 == 0);
    assert(x / 256 == 0);
}

impl Pixel {
    pub fn from_pallete_pixel(px: &PalletePixel) -> (r: Pixel)
        ensures
            r == palette_pixel(*px),
    {
        proof {
            lemma2_to64();
            lemma_upscale_byte(px.red);
            lemma_upscale_byte(px.green);
            lemma_upscale_byte(px.blue);
        }
        assert(!0u32 == 0xffff_ffff) by (bit_vector);
        Pixel {
            red: upscale(px.red as u32, 8),
            green: upscale(px.green as u32, 8),
            blue: upscale(px.blue as u32, 8),
            alpha: !0u32,
        }
    }

    pub fn from_bitfields(px: u32, red: u32, green: u32, blue: u32, alpha: u32) -> (r: Pixel)
        ensures
            r == bitfield_pixel(px, red, green, blue, alpha),
    {
        Pixel {
            red: mask_or_zeros(px, red),
            green: mask_or_zeros(px, green),
            blue: mask_or_zeros(px, blue),
            alpha: mask_or_ones(px, alpha),
        }
    }
}

/// The pixel stream of one image, by pixel format: the palette and a chunk reader for indexed
/// formats below a byte, the palette and the source for bytes of indices, and the channel masks
/// and the source for packed formats.
pub enum Pixels {
    OneBPP(Vec<PalletePixel>, BitReader),
    TwoBPP(Vec<PalletePixel>, BitReader),
    FourBPP(Vec<PalletePixel>, BitReader),
    EightBPP(Vec<PalletePixel>, ByteSource),
    SixteenBPP(u16, u16, u16, u16, ByteSource),
    TwentyFourBPP(ByteSource),
    ThirtyTwoBPP(u32, u32, u32, u32, ByteSource),
}

/// The result of looking up index `c` in a palette.
pub open spec fn indexed(pal: Seq<PalletePixel>, c: int) -> Result<Pixel, StreamError> {
    if 0 <= c < pal.len() {
        Ok(palette_pixel(pal[c]))
    } else {
        Err(StreamError::PaletteIndexOutOfRange(c as u8))
    }
}

/// The pixel depths that have a decoder.
pub open spec fn supported_bpp(bpp: u16) -> bool {
    bpp == 1 || bpp == 2 || bpp == 4 || bpp == 8 || bpp == 16 || bpp == 24 || bpp == 32
}

/// `n` palette entries stored from `q` on, `stride` bytes each in blue, green, red order.
pub open spec fn palette_at(d: Seq<u8>, q: int, stride: int, n: nat) -> Seq<PalletePixel> {
    Seq::new(
        n,
        |k: int|
            PalletePixel {
                red: byte_or_zero(d, q + stride * k + 2),
                green: byte_or_zero(d, q + stride * k + 1),
                blue: byte_or_zero(d, q + stride * k),
            },
    )
}

/// The masks a packed format unpacks with: the header's, cut to 16 bits at that depth.
pub open spec fn stream_masks(h: Header) -> (u32, u32, u32, u32) {
    if h.bpp == 16 {
        (
            h.red_mask as u16 as u32,
            h.green_mask as u16 as u32,
            h.blue_mask as u16 as u32,
            h.alpha_mask as u16 as u32,
        )
    } else if h.bpp == 32 {
        (h.red_mask, h.green_mask, h.blue_mask, h.alpha_mask)
    } else {
        (0, 0, 0, 0)
    }
}

/// How opening a stream on the bitmap at `p` turns out: the header, then the palette, which must
/// end at or before the pixel array, then a decoder for the pixel depth, placed at the pixel array.
pub open spec fn opened_as(r: Result<(Pixels, u32, i32), BMPError>, d: Seq<u8>, p: int) -> bool {
    match header_at(d, p) {
        Err(e) => r == Err::<(Pixels, u32, i32), BMPError>(e),
        Ok((h, end)) => {
            let stride: int = if h.version == BMPVersion::Two {
                3
            } else {
                4
            };
            let pal_end = fill_end(d, end, stride * h.n_colors);
            if pal_end > h.pixel_offset {
                r == Err::<(Pixels, u32, i32), BMPError>(
                    BMPError::HeaderTooLarge(pal_end as u64, h.pixel_offset),
                )
            } else if !supported_bpp(h.bpp) {
                r == Err::<(Pixels, u32, i32), BMPError>(BMPError::UnsupportedBitsPerPixel(h.bpp))
            } else {
                &&& r is Ok
                &&& r->Ok_0.1 == h.width
                &&& r->Ok_0.2 == h.height
                &&& r->Ok_0.0.wf()
                &&& r->Ok_0.0.bpp() == h.bpp
                &&& r->Ok_0.0.src().bytes() == d
                &&& r->Ok_0.0.src().pos() == h.pixel_offset
                &&& h.bpp <= 8 ==> r->Ok_0.0.palette() == palette_at(d, end, stride, h.n_colors as nat)
                &&& r->Ok_0.0.masks() == stream_masks(h)
                &&& h.bpp < 8 ==> r->Ok_0.0.chunks().remaining() == 0
            }
        },
    }
}

proof fn lemma_fill_step(d: Seq<u8>, q: int, m: int)
    requires
        q >= 0,
        m >= 0,
    ensures
        byte_or_zero(d, fill_end(d, q, m)) == byte_or_zero(d, q + m),
        fill_end(d, q, m + 1) == if fill_end(d, q, m) < d.len() {
            fill_end(d, q, m) + 1
        } else {
            fill_end(d, q, m)
        },
{
}

fn lookup(pal: &Vec<PalletePixel>, c: u8) -> (r: Result<Pixel, StreamError>)
    ensures
        r == indexed(pal@, c as int),
{
    if (c as usize) < pal.len() {
        Ok(Pixel::from_pallete_pixel(&pal[c as usize]))
    } else {
        Err(StreamError::PaletteIndexOutOfRange(c))
    }
}

impl Pixels {
    /// Bits per pixel.
    pub open spec fn bpp(&self) -> u16 {
        match self {
            Pixels::OneBPP(..) => 1,
            Pixels::TwoBPP(..) => 2,
            Pixels::FourBPP(..) => 4,
            Pixels::EightBPP(..) => 8,
            Pixels::SixteenBPP(..) => 16,
            Pixels::TwentyFourBPP(..) => 24,
            Pixels::ThirtyTwoBPP(..) => 32,
        }
    }

    /// The palette; empty for formats without one.
    pub open spec fn palette(&self) -> Seq<PalletePixel> {
        match self {
            Pixels::OneBPP(p, _) => p@,
            Pixels::TwoBPP(p, _) => p@,
            Pixels::FourBPP(p, _) => p@,
            Pixels::EightBPP(p, _) => p@,
            _ => Seq::empty(),
        }
    }

    /// The red, green, blue and alpha masks of packed formats; zero for the others.
    pub open spec fn masks(&self) -> (u32, u32, u32, u32) {
        match self {
            Pixels::SixteenBPP(r, g, b, a, _) => (*r as u32, *g as u32, *b as u32, *a as u32),
            Pixels::ThirtyTwoBPP(r, g, b, a, _) => (*r, *g, *b, *a),
            _ => (0, 0, 0, 0),
        }
    }

    /// The chunk reader of formats below a byte per pixel.
    pub open spec fn chunks(&self) -> BitReader {
        match self {
            Pixels::OneBPP(_, r) => *r,
            Pixels::TwoBPP(_, r) => *r,
            Pixels::FourBPP(_, r) => *r,
            _ => arbitrary(),
        }
    }

    /// The byte source.
    pub open spec fn src(&self) -> ByteSource {
        match self {
            Pixels::OneBPP(_, r) => r.src(),
            Pixels::TwoBPP(_, r) => r.src(),
            Pixels::FourBPP(_, r) => r.src(),
            Pixels::EightBPP(_, s) => *s,
            Pixels::SixteenBPP(_, _, _, _, s) => *s,
            Pixels::TwentyFourBPP(s) => *s,
            Pixels::ThirtyTwoBPP(_, _, _, _, s) => *s,
        }
    }

    /// The format packs several pixels into a byte.
    pub open spec fn is_indexed_below_byte(&self) -> bool {
        self.bpp() < 8
    }

    /// A chunk reader is well formed and reads as many bits as a pixel has.
    pub open spec fn wf(&self) -> bool {
        self.is_indexed_below_byte() ==> self.chunks().wf() && self.chunks().width()
            == self.bpp()
    }

    /// `next` decodes the same image in the same format.
    pub open spec fn same_format(&self, next: Pixels) -> bool {
        &&& next.bpp() == self.bpp()
        &&& next.palette() == self.palette()
        &&& next.masks() == self.masks()
        &&& next.src().bytes() == self.src().bytes()
    }

    /// `next` is this stream after one pixel was taken from it, and `r` is that pixel.
    pub open spec fn pixel_step(&self, next: Pixels, r: Result<Pixel, StreamError>) -> bool {
        let d = self.src().bytes();
        let p = self.src().pos();
        let (rm, gm, bm, am) = self.masks();
        if self.is_indexed_below_byte() {
            self.chunks().read_step(next.chunks()) && r == indexed(
                self.palette(),
                self.chunks().next_chunk(),
            )
        } else if self.bpp() == 8 {
            if has_bytes(d, p, 1) {
                next.src().pos() == p + 1 && r == indexed(self.palette(), d[p] as int)
            } else {
                next.src().pos() == p && r == Err::<Pixel, StreamError>(StreamError::UnexpectedEof)
            }
        } else if self.bpp() == 16 {
            if has_bytes(d, p, 2) {
                next.src().pos() == p + 2 && r == Ok::<Pixel, StreamError>(
                    bitfield_pixel(le16(d, p) as u32, rm, gm, bm, am),
                )
            } else {
                next.src().pos() == p && r == Err::<Pixel, StreamError>(StreamError::UnexpectedEof)
            }
        } else if self.bpp() == 24 {
            next.src().pos() == fill_end(d, p, 3) && r == Ok::<Pixel, StreamError>(
                palette_pixel(
                    PalletePixel {
                        red: byte_or_zero(d, p + 2),
                        green: byte_or_zero(d, p + 1),
                        blue: byte_or_zero(d, p),
                    },
                ),
            )
        } else {
            if has_bytes(d, p, 4) {
                next.src().pos() == p + 4 && r == Ok::<Pixel, StreamError>(
                    bitfield_pixel(le32(d, p), rm, gm, bm, am),
                )
            } else {
                next.src().pos() == p && r == Err::<Pixel, StreamError>(StreamError::UnexpectedEof)
            }
        }
    }

    /// Picks the decoder for the header's pixel depth.
    pub fn from_header(header: &Header, pallete: Vec<PalletePixel>, source: ByteSource) -> (r:
        Result<Pixels, BMPError>)
        ensures
            !supported_bpp(header.bpp) ==> r == Err::<Pixels, BMPError>(
                BMPError::UnsupportedBitsPerPixel(header.bpp),
            ),
            supported_bpp(header.bpp) ==> r is Ok && ({
                let px = r->Ok_0;
                &&& px.wf()
                &&& px.bpp() == header.bpp
                &&& px.src() == source
                &&& header.bpp <= 8 ==> px.palette() == pallete@
                &&& px.masks() == stream_masks(*header)
                &&& header.bpp < 8 ==> px.chunks().remaining() == 0
            }),
    {
        match header.bpp {
            1 => Ok(Pixels::OneBPP(pallete, BitReader::new(source, 1))),
            2 => Ok(Pixels::TwoBPP(pallete, BitReader::new(source, 2))),
            4 => Ok(Pixels::FourBPP(pallete, BitReader::new(source, 4))),
            8 => Ok(Pixels::EightBPP(pallete, source)),
            16 => Ok(
                Pixels::SixteenBPP(
                    header.red_mask as u16,
                    header.green_mask as u16,
                    header.blue_mask as u16,
                    header.alpha_mask as u16,
                    source,
                ),
            ),
            24 => Ok(Pixels::TwentyFourBPP(source)),
            32 => Ok(
                Pixels::ThirtyTwoBPP(
                    header.red_mask,
                    header.green_mask,
                    header.blue_mask,
                    header.alpha_mask,
                    source,
                ),
            ),
            _ => Err(BMPError::UnsupportedBitsPerPixel(header.bpp)),
        }
    }

    /// The read position.
    pub fn position(&self) -> (r: usize)
        ensures
            r == self.src().pos(),
    {
        match self {
            Pixels::OneBPP(_, reader) => reader.source_position(),
            Pixels::TwoBPP(_, reader) => reader.source_position(),
            Pixels::FourBPP(_, reader) => reader.source_position(),
            Pixels::EightBPP(_, source) => source.position(),
            Pixels::SixteenBPP(_, _, _, _, source) => source.position(),
            Pixels::TwentyFourBPP(source) => source.position(),
            Pixels::ThirtyTwoBPP(_, _, _, _, source) => source.position(),
        }
    }

    /// Moves the source until its distance from `origin` is a multiple of `align`, dropping any
    /// buffered bits.
    pub fn seek_to_boundary_from(&mut self, origin: usize, align: usize) -> (r: Result<(), StreamError>)
        requires
            old(self).wf(),
            align > 0,
            origin <= old(self).src().pos(),
        ensures
            final(self).wf(),
            old(self).same_format(*final(self)),
            old(self).is_indexed_below_byte() ==> final(self).chunks().remaining() == 0,
            aligned_from(old(self).src().pos(), origin as int, align as int) <= usize::MAX ==> r
                is Ok && final(self).src().pos() == aligned_from(
                old(self).src().pos(),
                origin as int,
                align as int,
            ),
            aligned_from(old(self).src().pos(), origin as int, align as int) > usize::MAX ==> r
                == Err::<(), StreamError>(StreamError::InvalidSeek)
                && final(self).src().pos() == old(self).src().pos(),
            (old(self).src().pos() - origin) % (align as int) == 0 ==> r is Ok
                && final(self).src().pos() == old(self).src().pos(),
    {
        match self {
            Pixels::OneBPP(_, reader) => reader.seek_to_boundary_from(origin, align),
            Pixels::TwoBPP(_, reader) => reader.seek_to_boundary_from(origin, align),
            Pixels::FourBPP(_, reader) => reader.seek_to_boundary_from(origin, align),
            Pixels::EightBPP(_, source) => source.seek_to_boundary_from(origin, align),
            Pixels::SixteenBPP(_, _, _, _, source) => source.seek_to_boundary_from(origin, align),
            Pixels::TwentyFourBPP(source) => source.seek_to_boundary_from(origin, align),
            Pixels::ThirtyTwoBPP(_, _, _, _, source) => source.seek_to_boundary_from(origin, align),
        }
    }

    /// Moves the source to the next multiple of `align`, dropping any buffered bits.
    pub fn seek_to_byte_boundary(&mut self, align: usize) -> (r: Result<(), StreamError>)
        requires
            old(self).wf(),
            align > 0,
        ensures
            final(self).wf(),
            old(self).same_format(*final(self)),
            old(self).is_indexed_below_byte() ==> final(self).chunks().remaining() == 0,
            aligned_up(old(self).src().pos(), align as int) <= usize::MAX ==> r is Ok
                && final(self).src().pos() == aligned_up(old(self).src().pos(), align as int),
            aligned_up(old(self).src().pos(), align as int) > usize::MAX ==> r
                == Err::<(), StreamError>(StreamError::InvalidSeek)
                && final(self).src().pos() == old(self).src().pos(),
            old(self).src().pos() % (align as int) == 0 ==> r is Ok
                && final(self).src().pos() == old(self).src().pos(),
    {
        proof {
            crate::source::lemma_pos_fits(self.src());
        }
        self.seek_to_boundary_from(0, align)
    }

    /// Decodes the next pixel, consuming the bits or bytes that its format takes.
    pub fn next_pixel(&mut self) -> (r: Result<Pixel, StreamError>)
        requires
            old(self).wf(),
        ensures
            final(self).wf(),
            old(self).same_format(*final(self)),
            old(self).pixel_step(*final(self), r),
            final(self).src().pos() >= old(self).src().pos(),
    {
        match self {
            Pixels::OneBPP(pal, reader) => {
                proof {
                    lemma_next_chunk_in_range(*reader);
                }
                match reader.read_bits() {
                    Ok(c) => lookup(pal, c),
                    Err(e) => Err(e),
                }
            },
            Pixels::TwoBPP(pal, reader) => {
                proof {
                    lemma_next_chunk_in_range(*reader);
                }
                match reader.read_bits() {
                    Ok(c) => lookup(pal, c),
                    Err(e) => Err(e),
                }
            },
            Pixels::FourBPP(pal, reader) => {
                proof {
                    lemma_next_chunk_in_range(*reader);
                }
                match reader.read_bits() {
                    Ok(c) => lookup(pal, c),
                    Err(e) => Err(e),
                }
            },
            Pixels::EightBPP(pal, source) => match source.read_u8() {
                Ok(c) => lookup(pal, c),
                Err(e) => Err(e),
            },
            Pixels::SixteenBPP(red, green, blue, alpha, source) => match source.read_u16_le() {
                Ok(v) => Ok(
                    Pixel::from_bitfields(
                        v as u32,
                        *red as u32,
                        *green as u32,
                        *blue as u32,
                        *alpha as u32,
                    ),
                ),
                Err(e) => Err(e),
            },
            Pixels::TwentyFourBPP(source) => {
                let blue = source.read_byte();
                let green = source.read_byte();
                let red = source.read_byte();
                Ok(Pixel::from_pallete_pixel(&PalletePixel { red, green, blue }))
            },
            Pixels::ThirtyTwoBPP(red, green, blue, alpha, source) => match source.read_u32_le() {
                Ok(v) => Ok(Pixel::from_bitfields(v, *red, *green, *blue, *alpha)),
                Err(e) => Err(e),
            },
        }
    }

    /// Reads the header and the palette from the source's position and places the source at the
    /// pixel array. Returns the stream with the image's width and signed height.
    pub fn new(source: ByteSource) -> (r: Result<(Pixels, u32, i32), BMPError>)
        requires
            source.pos() + 256 <= usize::MAX,
        ensures
            opened_as(r, source.bytes(), source.pos()),
    {
        let mut source = source;
        let header = match Header::from_buffer(&mut source) {
            Ok(h) => h,
            Err(e) => return Err(e),
        };
        let ghost d = source.bytes();
        let ghost q = source.pos();
        let stride: usize = if header.version == BMPVersion::Two {
            3
        } else {
            4
        };
        let mut pallete: Vec<PalletePixel> = Vec::new();
        let mut k: u32 = 0;
        while k < header.n_colors
            invariant
                source.bytes() == d,
                q >= 0,
                stride == 3 || stride == 4,
                k <= header.n_colors,
                pallete@ == palette_at(d, q, stride as int, k as nat),
                source.pos() == fill_end(d, q, stride * k),
            decreases header.n_colors - k,
        {
            let ghost m = stride * k;
            proof {
                assert(m >= 0) by (nonlinear_arith)
                    requires
                        m == stride * k,
                ;
                lemma_fill_step(d, q, m);
                lemma_fill_step(d, q, m + 1);
                lemma_fill_step(d, q, m + 2);
                lemma_fill_step(d, q, m + 3);
            }
            let blue = source.read_byte();
            let green = source.read_byte();
            let red = source.read_byte();
            if stride == 4 {
                source.read_byte();
            }
            proof {
                assert(stride * (k + 1) == m + stride) by (nonlinear_arith)
                    requires
                        m == stride * k,
                ;
            }
            pallete.push(PalletePixel { red, green, blue });
            k = k + 1;
            proof {
                assert(pallete@ =~= palette_at(d, q, stride as int, k as nat));
            }
        }
        let current_offset = source.position() as u64;
        if current_offset > header.pixel_offset {
            return Err(BMPError::HeaderTooLarge(current_offset, header.pixel_offset));
        }
        source.seek_to(header.pixel_offset as usize);
        match Pixels::from_header(&header, pallete, source) {
            Ok(px) => Ok((px, header.width, header.height)),
            Err(e) => Err(e),
        }
    }
}

} // verus!
