//! The file header and the DIB header of a bitmap: signature, layout version, dimensions,
//! pixel format, palette size and channel masks.
use crate::source::{byte_or_zero, fill_end, has_bytes, le16, le32, ByteSource, StreamError};
use vstd::arithmetic::power2::pow2;
use vstd::prelude::*;

verus! {

pub const BMP_BITFIELD32_RED: u32 = 0x00ff0000;

pub const BMP_BITFIELD32_GREEN: u32 = 0x0000ff00;

pub const BMP_BITFIELD32_BLUE: u32 = 0x000000ff;

pub const BMP_BITFIELD16_RED: u32 = 0x7c00;

pub const BMP_BITFIELD16_GREEN: u32 = 0x03e0;

pub const BMP_BITFIELD16_BLUE: u32 = 0x001f;

/// Why a bitmap could not be opened.
#[derive(Debug, Clone, Copy, PartialEq, Eq, Structural)]
pub enum BMPError {
    WrongMagicNumbers(u8, u8),
    UnsupportedHeaderSize(u32),
    UnsupportedNumberOfPlanes(u16),
    UnsupportedCompressionType(u32),
    UnsupportedBitsPerPixel(u16),
    BitfieldsNotSupportedForPixelDepth(u16),
    BitfieldsNotContiguous(u32, u32, u32, u32),
    BitfieldsOverlap(u32, u32, u32, u32),
    InvalidWidth(i32),
    InvalidHeight(i32),
    HeaderTooLarge(u64, u64),
    IOError(StreamError),
}

/// How the pixel values are laid out.
#[derive(Debug, Clone, Copy, PartialEq, Eq, Structural)]
pub enum CompressionType {
    RGB,
    Bitfields,
    AlphaBitfields,
}

pub open spec fn compression_for(val: u32) -> Result<CompressionType, BMPError> {
    if val == 0 {
        Ok(CompressionType::RGB)
    } else if val == 3 {
        Ok(CompressionType::Bitfields)
    } else if val == 6 {
        Ok(CompressionType::AlphaBitfields)
    } else {
        Err(BMPError::UnsupportedCompressionType(val))
    }
}

impl CompressionType {
    pub fn from_u32(val: u32) -> (r: Result<CompressionType, BMPError>)
        ensures
            r == compression_for(val),
    {
        match val {
            0 => Ok(CompressionType::RGB),
            3 => Ok(CompressionType::Bitfields),
            6 => Ok(CompressionType::AlphaBitfields),
            _ => Err(BMPError::UnsupportedCompressionType(val)),
        }
    }
}

/// The DIB header variant, told apart by the header's size.
#[derive(Debug, Clone, Copy, PartialEq, Eq, Structural)]
pub enum BMPVersion {
    Two,
    Three,
    Four,
    Five,
}

pub open spec fn version_for(size: u32) -> Result<BMPVersion, BMPError> {
    if size == 12 {
        Ok(BMPVersion::Two)
    } else if size == 40 {
        Ok(BMPVersion::Three)
    } else if size == 108 {
        Ok(BMPVersion::Four)
    } else if size == 124 {
        Ok(BMPVersion::Five)
    } else {
        Err(BMPError::UnsupportedHeaderSize(size))
    }
}

impl BMPVersion {
    pub fn from_dib_header_size(val: u32) -> (r: Result<BMPVersion, BMPError>)
        ensures
            r == version_for(val),
    {
        match val {
            12 => Ok(BMPVersion::Two),
            40 => Ok(BMPVersion::Three),
            108 => Ok(BMPVersion::Four),
            124 => Ok(BMPVersion::Five),
            _ => Err(BMPError::UnsupportedHeaderSize(val)),
        }
    }
}

/// A validated header.
#[derive(Debug, Clone, Copy, PartialEq, Eq, Structural)]
pub struct BMPHeader {
    pub version: BMPVersion,
    pub width: u32,
    pub height: i32,
    pub bpp: u16,
    pub n_colors: u32,
    pub red_mask: u32,
    pub green_mask: u32,
    pub blue_mask: u32,
    pub alpha_mask: u32,
    pub pixel_offset: u64,
}

/// Bit `i` of `m` is set.
pub open spec fn bit_set(m: u32, i: u32) -> bool {
    (m >> i) & 1 == 1
}

/// The set bits of `m` form one run, with no clear bit between two set ones.
pub open spec fn contiguous(m: u32) -> bool {
    forall|i: u32, j: u32, k: u32|
        i < j < k < 32 && #[trigger] bit_set(m, i) && #[trigger] bit_set(m, k) ==> #[trigger] bit_set(
            m,
            j,
        )
}

pub fn mask_is_contiguous(mask: u32) -> (r: bool)
    ensures
        r == contiguous(mask),
{
    // 0: no set bit seen yet; 1: inside the run; 2: past the run.
    let mut state: u8 = 0;
    let ghost mut set_bit: u32 = 0;
    let ghost mut gap: u32 = 0;
    let mut i: u32 = 0;
    while i < 32
        invariant
            i <= 32,
            state <= 2,
            forall|a: u32, b: u32, c: u32|
                a < b < c < i && #[trigger] bit_set(mask, a) && #[trigger] bit_set(mask, c)
                    ==> #[trigger] bit_set(mask, b),
            state == 1 ==> i > 0 && bit_set(mask, (i - 1) as u32),
            state == 2 ==> set_bit < gap < i && bit_set(mask, set_bit) && !bit_set(mask, gap),
            state == 2 ==> forall|c: u32| gap <= c < i ==> !#[trigger] bit_set(mask, c),
            state == 0 ==> forall|c: u32| c < i ==> !#[trigger] bit_set(mask, c),
        decreases 32 - i,
    {
        let set = (mask >> i) & 1 == 1;
        if set {
            if state == 2 {
                assert(set_bit < gap < i && bit_set(mask, set_bit) && bit_set(mask, i) && !bit_set(
                    mask,
                    gap,
                ));
                return false;
            }
            state = 1;
        } else if state == 1 {
            proof {
                set_bit = (i - 1) as u32;
                gap = i;
            }
            state = 2;
        }
        i = i + 1;
    }
    true
}

/// The palette size that a declared colour count stands for at a given depth.
pub open spec fn reconciled_colors(bpp: u16, n_colors: u32) -> u32 {
    if bpp < 16 && (n_colors == 0 || n_colors > pow2(bpp as nat)) {
        pow2(bpp as nat) as u32
    } else {
        n_colors
    }
}

/// The channel masks of a depth that has no explicit bitfields: red, green, blue.
pub open spec fn default_masks(bpp: u16) -> (u32, u32, u32) {
    if bpp == 16 {
        (BMP_BITFIELD16_RED, BMP_BITFIELD16_GREEN, BMP_BITFIELD16_BLUE)
    } else if bpp == 32 {
        (BMP_BITFIELD32_RED, BMP_BITFIELD32_GREEN, BMP_BITFIELD32_BLUE)
    } else {
        (0, 0, 0)
    }
}

/// The header built from raw fields, or the first field that is out of range.
pub open spec fn header_of(
    version: BMPVersion,
    width: i32,
    height: i32,
    planes: u16,
    bpp: u16,
    n_colors: u32,
    pixel_offset: u64,
) -> Result<BMPHeader, BMPError> {
    if width <= 0 {
        Err(BMPError::InvalidWidth(width))
    } else if height == 0 {
        Err(BMPError::InvalidHeight(height))
    } else if planes != 1 {
        Err(BMPError::UnsupportedNumberOfPlanes(planes))
    } else {
        Ok(
            BMPHeader {
                version,
                width: width as u32,
                height,
                bpp,
                n_colors: reconciled_colors(bpp, n_colors),
                red_mask: default_masks(bpp).0,
                green_mask: default_masks(bpp).1,
                blue_mask: default_masks(bpp).2,
                alpha_mask: 0,
                pixel_offset,
            },
        )
    }
}

/// No two of the four masks share a set bit.
pub open spec fn disjoint_masks(r: u32, g: u32, b: u32, a: u32) -> bool {
    &&& r & g == 0
    &&& r & b == 0
    &&& r & a == 0
    &&& g & b == 0
    &&& g & a == 0
    &&& b & a == 0
}

/// `h` with explicit channel masks, or why they cannot be used.
pub open spec fn with_masks(h: BMPHeader, r: u32, g: u32, b: u32, a: u32) -> Result<
    BMPHeader,
    BMPError,
> {
    if h.bpp != 16 && h.bpp != 32 {
        Err(BMPError::BitfieldsNotSupportedForPixelDepth(h.bpp))
    } else if !(contiguous(r) && contiguous(g) && contiguous(b) && contiguous(a)) {
        Err(BMPError::BitfieldsNotContiguous(r, g, b, a))
    } else if !disjoint_masks(r, g, b, a) {
        Err(BMPError::BitfieldsOverlap(r, g, b, a))
    } else {
        Ok(BMPHeader { red_mask: r, green_mask: g, blue_mask: b, alpha_mask: a, ..h })
    }
}

/// A header result paired with the position where its parsing stopped.
pub open spec fn ending_at(r: Result<BMPHeader, BMPError>, end: int) -> Result<
    (BMPHeader, int),
    BMPError,
> {
    match r {
        Ok(h) => Ok((h, end)),
        Err(e) => Err(e),
    }
}

pub open spec fn eof<T>() -> Result<T, BMPError> {
    Err(BMPError::IOError(StreamError::UnexpectedEof))
}

/// Bytes of a version four or five header that follow the colour-count fields and are not read
/// when the pixels are plain RGB.
pub open spec fn rgb_tail(v: BMPVersion) -> int {
    match v {
        BMPVersion::Four => 72,
        BMPVersion::Five => 84,
        _ => 0,
    }
}

/// Bytes of a version four or five header that follow its four masks and are not read.
pub open spec fn bitfields_tail(v: BMPVersion) -> int {
    match v {
        BMPVersion::Four => 56,
        _ => 68,
    }
}

/// A version two header whose fields start at `q`.
pub open spec fn v2_header_at(d: Seq<u8>, q: int, pixel_offset: u64) -> Result<
    (BMPHeader, int),
    BMPError,
> {
    if !has_bytes(d, q, 8) {
        eof()
    } else {
        ending_at(
            header_of(
                BMPVersion::Two,
                le16(d, q) as i32,
                le16(d, q + 2) as i32,
                le16(d, q + 4),
                le16(d, q + 6),
                0,
                pixel_offset,
            ),
            q + 8,
        )
    }
}

/// A version three, four or five header whose fields start at `q`.
pub open spec fn v3_header_at(d: Seq<u8>, q: int, v: BMPVersion, pixel_offset: u64) -> Result<
    (BMPHeader, int),
    BMPError,
> {
    if !has_bytes(d, q, 16) {
        eof()
    } else {
        match compression_for(le32(d, q + 12)) {
            Err(e) => Err(e),
            Ok(c) => if !has_bytes(d, q + 28, 4) {
                eof()
            } else {
                match header_of(
                    v,
                    le32(d, q) as i32,
                    le32(d, q + 4) as i32,
                    le16(d, q + 8),
                    le16(d, q + 10),
                    le32(d, q + 28),
                    pixel_offset,
                ) {
                    Err(e) => Err(e),
                    Ok(h) => if c == CompressionType::RGB {
                        Ok((h, q + 36 + rgb_tail(v)))
                    } else if v == BMPVersion::Three {
                        if !has_bytes(d, q + 36, 12) {
                            eof()
                        } else {
                            ending_at(
                                with_masks(h, le32(d, q + 36), le32(d, q + 40), le32(d, q + 44), 0),
                                q + 48,
                            )
                        }
                    } else {
                        if !has_bytes(d, q + 36, 16) {
                            eof()
                        } else {
                            ending_at(
                                with_masks(
                                    h,
                                    le32(d, q + 36),
                                    le32(d, q + 40),
                                    le32(d, q + 44),
                                    le32(d, q + 48),
                                ),
                                q + 52 + bitfields_tail(v),
                            )
                        }
                    },
                }
            },
        }
    }
}

/// The header of the bitmap whose file starts at `p`, and where it ends: the "BM" signature,
/// eight bytes of file size and reserved space, the low 16 bits of the pixel array offset (its
/// high 16 bits are skipped), the DIB header size and the fields of that header version.
pub open spec fn header_at(d: Seq<u8>, p: int) -> Result<(BMPHeader, int), BMPError> {
    let b0 = byte_or_zero(d, p);
    let b1 = byte_or_zero(d, p + 1);
    if b0 != 0x42 || b1 != 0x4d {
        Err(BMPError::WrongMagicNumbers(b0, b1))
    } else if !has_bytes(d, p + 10, 2) || !has_bytes(d, p + 14, 4) {
        eof()
    } else {
        match version_for(le32(d, p + 14)) {
            Err(e) => Err(e),
            Ok(v) => if v == BMPVersion::Two {
                v2_header_at(d, p + 18, le16(d, p + 10) as u64)
            } else {
                v3_header_at(d, p + 18, v, le16(d, p + 10) as u64)
            },
        }
    }
}

/// How the parse of a header at the source's position turned out: the header and the source
/// left just past it, or the error.
pub open spec fn parsed_as(
    r: Result<BMPHeader, BMPError>,
    expected: Result<(BMPHeader, int), BMPError>,
    after: ByteSource,
) -> bool {
    match expected {
        Ok((h, end)) => r == Ok::<BMPHeader, BMPError>(h) && after.pos() == end,
        Err(e) => r == Err::<BMPHeader, BMPError>(e),
    }
}

impl BMPHeader {
    pub fn new(
        version: BMPVersion,
        width: i32,
        height: i32,
        planes: u16,
        bpp: u16,
        n_colors: u32,
        pixel_offset: u64,
    ) -> (r: Result<BMPHeader, BMPError>)
        ensures
            r == header_of(version, width, height, planes, bpp, n_colors, pixel_offset),
    {
        if width <= 0 {
            return Err(BMPError::InvalidWidth(width));
        }
        if height == 0 {
            return Err(BMPError::InvalidHeight(height));
        }
        if planes != 1 {
            return Err(BMPError::UnsupportedNumberOfPlanes(planes));
        }
        let colors = if bpp < 16 {
            let full: u32 = 1u32 << bpp;
            proof {
                vstd::bits::lemma_u32_pow2_no_overflow(bpp as nat);
                vstd::bits::lemma_u32_shl_is_mul(1, bpp as u32);
            }
            if n_colors == 0 || n_colors > full {
                full
            } else {
                n_colors
            }
        } else {
            n_colors
        };
        let (red_mask, green_mask, blue_mask) = if bpp == 16 {
            (BMP_BITFIELD16_RED, BMP_BITFIELD16_GREEN, BMP_BITFIELD16_BLUE)
        } else if bpp == 32 {
            (BMP_BITFIELD32_RED, BMP_BITFIELD32_GREEN, BMP_BITFIELD32_BLUE)
        } else {
            (0, 0, 0)
        };
        Ok(
            BMPHeader {
                version,
                width: width as u32,
                height,
                bpp,
                n_colors: colors,
                red_mask,
                green_mask,
                blue_mask,
                alpha_mask: 0,
                pixel_offset,
            },
        )
    }

    pub fn set_masks(&mut self, red_mask: u32, green_mask: u32, blue_mask: u32, alpha_mask: u32) -> (r:
        Result<(), BMPError>)
        ensures
            match with_masks(*old(self), red_mask, green_mask, blue_mask, alpha_mask) {
                Ok(h) => r == Ok::<(), BMPError>(()) && *final(self) == h,
                Err(e) => r == Err::<(), BMPError>(e) && *final(self) == *old(self),
            },
    {
        if self.bpp != 16 && self.bpp != 32 {
            return Err(BMPError::BitfieldsNotSupportedForPixelDepth(self.bpp));
        }
        if !mask_is_contiguous(red_mask) || !mask_is_contiguous(green_mask) || !mask_is_contiguous(
            blue_mask,
        ) || !mask_is_contiguous(alpha_mask) {
            return Err(BMPError::BitfieldsNotContiguous(red_mask, green_mask, blue_mask, alpha_mask));
        }
        if red_mask & green_mask != 0 || red_mask & blue_mask != 0 || red_mask & alpha_mask != 0
            || green_mask & blue_mask != 0 || green_mask & alpha_mask != 0 || blue_mask & alpha_mask
            != 0 {
            return Err(BMPError::BitfieldsOverlap(red_mask, green_mask, blue_mask, alpha_mask));
        }
        self.red_mask = red_mask;
        self.green_mask = green_mask;
        self.blue_mask = blue_mask;
        self.alpha_mask = alpha_mask;
        Ok(())
    }

    fn from_v2_buffer(source: &mut ByteSource, pixel_offset: u64) -> (r: Result<BMPHeader, BMPError>)
        ensures
            final(source).bytes() == old(source).bytes(),
            parsed_as(r, v2_header_at(old(source).bytes(), old(source).pos(), pixel_offset), *final(source)),
    {
        let width = match source.read_u16_le() {
            Ok(v) => v as i32,
            Err(e) => return Err(BMPError::IOError(e)),
        };
        let height = match source.read_u16_le() {
            Ok(v) => v as i32,
            Err(e) => return Err(BMPError::IOError(e)),
        };
        let planes = match source.read_u16_le() {
            Ok(v) => v,
            Err(e) => return Err(BMPError::IOError(e)),
        };
        let bpp = match source.read_u16_le() {
            Ok(v) => v,
            Err(e) => return Err(BMPError::IOError(e)),
        };
        BMPHeader::new(BMPVersion::Two, width, height, planes, bpp, 0, pixel_offset)
    }

    fn from_v3_buffer(source: &mut ByteSource, version: BMPVersion, pixel_offset: u64) -> (r: Result<
        BMPHeader,
        BMPError,
    >)
        requires
            old(source).pos() + 200 <= usize::MAX,
            version != BMPVersion::Two,
        ensures
            final(source).bytes() == old(source).bytes(),
            parsed_as(
                r,
                v3_header_at(old(source).bytes(), old(source).pos(), version, pixel_offset),
                *final(source),
            ),
    {
        let width = match source.read_i32_le() {
            Ok(v) => v,
            Err(e) => return Err(BMPError::IOError(e)),
        };
        let height = match source.read_i32_le() {
            Ok(v) => v,
            Err(e) => return Err(BMPError::IOError(e)),
        };
        let planes = match source.read_u16_le() {
            Ok(v) => v,
            Err(e) => return Err(BMPError::IOError(e)),
        };
        let bpp = match source.read_u16_le() {
            Ok(v) => v,
            Err(e) => return Err(BMPError::IOError(e)),
        };
        let compression = match source.read_u32_le() {
            Ok(v) => match CompressionType::from_u32(v) {
                Ok(c) => c,
                Err(e) => return Err(e),
            },
            Err(e) => return Err(BMPError::IOError(e)),
        };
        // Image size and the two resolutions.
        source.skip(12);
        let n_colors = match source.read_u32_le() {
            Ok(v) => v,
            Err(e) => return Err(BMPError::IOError(e)),
        };
        // Number of important colours.
        source.skip(4);
        let mut header = match BMPHeader::new(version, width, height, planes, bpp, n_colors, pixel_offset) {
            Ok(h) => h,
            Err(e) => return Err(e),
        };
        if compression == CompressionType::RGB {
            match version {
                BMPVersion::Four => source.skip(72),
                BMPVersion::Five => source.skip(84),
                _ => {},
            }
            return Ok(header);
        }
        let red = match source.read_u32_le() {
            Ok(v) => v,
            Err(e) => return Err(BMPError::IOError(e)),
        };
        let green = match source.read_u32_le() {
            Ok(v) => v,
            Err(e) => return Err(BMPError::IOError(e)),
        };
        let blue = match source.read_u32_le() {
            Ok(v) => v,
            Err(e) => return Err(BMPError::IOError(e)),
        };
        let alpha = if version == BMPVersion::Three {
            0
        } else {
            match source.read_u32_le() {
                Ok(v) => v,
                Err(e) => return Err(BMPError::IOError(e)),
            }
        };
        match header.set_masks(red, green, blue, alpha) {
            Ok(()) => {},
            Err(e) => return Err(e),
        }
        match version {
            BMPVersion::Four => source.skip(56),
            BMPVersion::Five => source.skip(68),
            _ => {},
        }
        Ok(header)
    }

    /// Parses the file header and the DIB header from the source's position.
    pub fn from_buffer(source: &mut ByteSource) -> (r: Result<BMPHeader, BMPError>)
        requires
            old(source).pos() + 256 <= usize::MAX,
        ensures
            final(source).bytes() == old(source).bytes(),
            parsed_as(r, header_at(old(source).bytes(), old(source).pos()), *final(source)),
            r is Err && r->Err_0 is WrongMagicNumbers ==> final(source).pos() == fill_end(
                old(source).bytes(),
                old(source).pos(),
                2,
            ),
    {
        let b0 = source.read_byte();
        let b1 = source.read_byte();
        if b0 != 0x42 || b1 != 0x4d {
            return Err(BMPError::WrongMagicNumbers(b0, b1));
        }
        // File size and reserved fields.
        source.skip(8);
        let pixel_offset = match source.read_u16_le() {
            Ok(v) => v as u64,
            Err(e) => return Err(BMPError::IOError(e)),
        };
        // The high half of the pixel array offset.
        source.skip(2);
        let version = match source.read_u32_le() {
            Ok(v) => match BMPVersion::from_dib_header_size(v) {
                Ok(ver) => ver,
                Err(e) => return Err(e),
            },
            Err(e) => return Err(BMPError::IOError(e)),
        };
        match version {
            BMPVersion::Two => BMPHeader::from_v2_buffer(source, pixel_offset),
            _ => BMPHeader::from_v3_buffer(source, version, pixel_offset),
        }
    }
}

/// A parsed header has a positive width and a nonzero height.
pub proof fn lemma_header_dimensions(d: Seq<u8>, p: int)
    ensures
        header_at(d, p) is Ok ==> header_at(d, p)->Ok_0.0.width >= 1 && header_at(d, p)->Ok_0.0.height
            != 0,
{
}

/// Masks that share a set bit are never accepted: with the depth allowed, such masks fail as
/// not contiguous or as overlapping, and the header keeps its masks.
pub proof fn lemma_shared_bit_rejected(h: BMPHeader, r: u32, g: u32, b: u32, a: u32)
    requires
        h.bpp == 16 || h.bpp == 32,
        !disjoint_masks(r, g, b, a),
    ensures
        with_masks(h, r, g, b, a) == Err::<BMPHeader, BMPError>(
            BMPError::BitfieldsNotContiguous(r, g, b, a),
        ) || with_masks(h, r, g, b, a) == Err::<BMPHeader, BMPError>(
            BMPError::BitfieldsOverlap(r, g, b, a),
        ),
{
}

} // verus!
