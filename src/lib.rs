//! Decoding of Windows bitmap (BMP) images held in memory into RGBA pixels.
use vstd::prelude::*;

pub mod bitreader;
pub mod bmp_header;
pub mod bmp_pixels;
pub mod source;

use crate::bmp_header::BMPError;
use crate::bmp_pixels::{opened_as, Pixel, Pixels};
use crate::source::{aligned_from, ByteSource, StreamError};

verus! {

/// Walks the pixels of a bitmap row by row in the order they are stored, with each pixel's
/// column and row; row zero is the bottom row.
pub struct BMPReader {
    pixels: Pixels,
    bottom_up: bool,
    width: usize,
    height: usize,
    x: usize,
    y: usize,
    start: usize,
}

/// `mid` is `p` moved to the start of the next row, whose distance from the pixel array's start
/// is a multiple of four, with nothing buffered.
pub open spec fn realigned(p: Pixels, mid: Pixels, start: int) -> bool {
    &&& mid.wf()
    &&& p.same_format(mid)
    &&& mid.src().pos() == aligned_from(p.src().pos(), start, 4)
    &&& p.is_indexed_below_byte() ==> mid.chunks().remaining() == 0
}

impl BMPReader {
    pub closed spec fn stream(&self) -> Pixels {
        self.pixels
    }

    pub closed spec fn width_spec(&self) -> int {
        self.width as int
    }

    pub closed spec fn height_spec(&self) -> int {
        self.height as int
    }

    pub closed spec fn is_bottom_up(&self) -> bool {
        self.bottom_up
    }

    /// Where the pixel array starts; rows are padded to multiples of four bytes from here.
    pub closed spec fn pixel_start(&self) -> int {
        self.start as int
    }

    /// The column of the next pixel; the width once a row is finished.
    pub closed spec fn col(&self) -> int {
        self.x as int
    }

    /// The stored row being read, counted from the first one stored; the height once done.
    pub closed spec fn row(&self) -> int {
        self.y as int
    }

    /// The stream is well formed and the cursor lies within the image.
    pub closed spec fn wf(&self) -> bool {
        &&& self.pixels.wf()
        &&& 1 <= self.width
        &&& 1 <= self.height
        &&& self.x <= self.width
        &&& self.y <= self.height
        &&& self.start <= self.pixels.src().pos()
    }

    /// The row reported for stored row `raw`: stored rows run upward in a bottom-up image and
    /// downward in a top-down one.
    pub open spec fn image_row(&self, raw: int) -> int {
        if self.is_bottom_up() {
            raw
        } else {
            self.height_spec() - 1 - raw
        }
    }

    /// Opens a bitmap held in `data`.
    pub fn new(data: Vec<u8>) -> (r: Result<BMPReader, BMPError>)
        ensures
            match r {
                Err(e) => opened_as(Err(e), data@, 0),
                Ok(rd) => exists|px: Pixels, w: u32, h: i32|
                    {
                        &&& opened_as(Ok((px, w, h)), data@, 0)
                        &&& rd.wf()
                        &&& rd.stream() == px
                        &&& rd.width_spec() == w
                        &&& rd.height_spec() == if h < 0 {
                            -h
                        } else {
                            h as int
                        }
                        &&& rd.is_bottom_up() == (h > 0)
                        &&& rd.col() == 0
                        &&& rd.row() == 0
                        &&& rd.pixel_start() == px.src().pos()
                    },
            },
    {
        let source = ByteSource::new(data);
        let (pixels, width, height) = match Pixels::new(source) {
            Ok(t) => t,
            Err(e) => return Err(e),
        };
        proof {
            assert(width >= 1 && height != 0) by {
                crate::bmp_header::lemma_header_dimensions(data@, 0);
            }
        }
        let start = pixels.position();
        let abs_height: usize = if height < 0 {
            (-(height as i64)) as usize
        } else {
            height as usize
        };
        Ok(
            BMPReader {
                pixels,
                width: width as usize,
                height: abs_height,
                bottom_up: height > 0,
                x: 0,
                y: 0,
                start,
            },
        )
    }

    pub fn get_width(&self) -> (r: usize)
        ensures
            r == self.width_spec(),
    {
        self.width
    }

    pub fn get_height(&self) -> (r: usize)
        ensures
            r == self.height_spec(),
    {
        self.height
    }

    fn get_y(&self) -> (r: usize)
        requires
            self.wf(),
            self.row() < self.height_spec(),
        ensures
            r == self.image_row(self.row()),
    {
        if self.bottom_up {
            self.y
        } else {
            self.height - 1 - self.y
        }
    }

    /// The next pixel with its column and row, or `None` once every row has been read. An error
    /// while moving to a row's start or decoding a pixel comes as that item's pixel.
    pub fn next(&mut self) -> (r: Option<(usize, usize, Result<Pixel, StreamError>)>)
        requires
            old(self).wf(),
        ensures
            final(self).wf(),
            final(self).width_spec() == old(self).width_spec(),
            final(self).height_spec() == old(self).height_spec(),
            final(self).is_bottom_up() == old(self).is_bottom_up(),
            final(self).pixel_start() == old(self).pixel_start(),
            old(self).row() >= old(self).height_spec() ==> r is None && *final(self) == *old(self),
            old(self).row() < old(self).height_spec() && old(self).col() < old(self).width_spec()
                ==> {
                &&& final(self).row() == old(self).row()
                &&& final(self).col() == old(self).col() + 1
                &&& r is Some
                &&& r->Some_0.0 == old(self).col()
                &&& r->Some_0.1 == old(self).image_row(old(self).row())
                &&& old(self).stream().pixel_step(final(self).stream(), r->Some_0.2)
                &&& old(self).stream().same_format(final(self).stream())
            },
            old(self).row() < old(self).height_spec() && old(self).col() >= old(self).width_spec()
                && old(self).row() + 1 >= old(self).height_spec() ==> {
                &&& r is None
                &&& final(self).row() == old(self).height_spec()
            },
            old(self).row() + 1 < old(self).height_spec() && old(self).col()
                >= old(self).width_spec() ==> {
                &&& final(self).row() == old(self).row() + 1
                &&& r is Some
                &&& r->Some_0.1 == old(self).image_row(old(self).row() + 1)
                &&& aligned_from(old(self).stream().src().pos(), old(self).pixel_start(), 4) > usize::MAX ==> r->Some_0.0 == 0
                    && r->Some_0.2 == Err::<Pixel, StreamError>(StreamError::InvalidSeek)
                    && final(self).col() == 0
                &&& aligned_from(old(self).stream().src().pos(), old(self).pixel_start(), 4) <= usize::MAX ==> {
                    &&& r->Some_0.0 == 0
                    &&& final(self).col() == 1
                    &&& exists|mid: Pixels|
                        realigned(old(self).stream(), mid, old(self).pixel_start()) && mid.pixel_step(
                            final(self).stream(),
                            r->Some_0.2,
                        ) && mid.same_format(final(self).stream())
                }
            },
    {
        if self.y >= self.height {
            return None;
        }
        if self.x >= self.width {
            if self.y + 1 >= self.height {
                self.y = self.height;
                return None;
            }
            self.x = 0;
            self.y = self.y + 1;
            match self.pixels.seek_to_boundary_from(self.start, 4) {
                Ok(()) => {},
                Err(e) => {
                    let row = self.get_y();
                    return Some((0, row, Err(e)));
                },
            }
        }
        let ghost mid = self.pixels;
        let px = self.pixels.next_pixel();
        let row = self.get_y();
        let item = (self.x, row, px);
        self.x = self.x + 1;
        Some(item)
    }
}

} // verus!
