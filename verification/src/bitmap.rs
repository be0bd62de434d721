//! The in-memory image: width, height and row-major RGBA bytes.

use vstd::prelude::*;

verus! {

/// The mathematical content of a bitmap: its dimensions in pixels and its
/// bytes, four per pixel (red, green, blue, alpha), top row first.
pub struct Raster {
    pub width: u32,
    pub height: u32,
    pub data: Seq<u8>,
}

impl Raster {
    /// Bytes in one row.
    pub open spec fn row_len(self) -> int {
        4 * self.width
    }

    /// The data holds exactly `width * height` pixels, and no more bytes
    /// than can be addressed.
    pub open spec fn wf(self) -> bool {
        &&& self.data.len() == self.width * self.height * 4
        &&& self.data.len() <= usize::MAX
    }

    /// The bytes of row `y`.
    pub open spec fn row(self, y: int) -> Seq<u8> {
        self.data.subrange(y * self.row_len(), (y + 1) * self.row_len())
    }

    /// The bytes of the row above row `y`; the top row has none above it.
    pub open spec fn above(self, y: int) -> Seq<u8> {
        if y <= 0 {
            Seq::empty()
        } else {
            self.row(y - 1)
        }
    }
}

/// Row `y` of a `width` by `height` image lies within its data.
pub proof fn lemma_row_bounds(width: u32, height: u32, y: int)
    requires
        0 <= y < height,
    ensures
        0 <= y * (4 * width) <= (y + 1) * (4 * width) <= width * height * 4,
        (y + 1) * (4 * width) == y * (4 * width) + 4 * width,
{
    assert(0 <= y * (4 * width) <= (y + 1) * (4 * width) <= width * height * 4 && (y + 1) * (4
        * width) == y * (4 * width) + 4 * width) by (nonlinear_arith)
        requires
            0 <= y < height,
            0 <= width,
    ;
}

/// The number of bytes that a `width` by `height` image takes, if that many
/// can be addressed.
pub fn pixel_bytes(width: u32, height: u32) -> (n: Option<usize>)
    ensures
        match n {
            Some(n) => n == width * height * 4,
            None => width * height * 4 > usize::MAX,
        },
{
    assert(width * height <= 0xffff_ffff * 0xffff_ffff) by (nonlinear_arith)
        requires
            width <= 0xffff_ffff,
            height <= 0xffff_ffff,
    ;
    let bytes: u128 = (width as u128) * (height as u128) * 4;
    if bytes > usize::MAX as u128 {
        None
    } else {
        Some(bytes as usize)
    }
}

/// An RGBA image with 8 bits per channel.
#[derive(Debug, PartialEq, Eq)]
pub struct Bitmap {
    width: u32,
    height: u32,
    data: Vec<u8>,
}

impl View for Bitmap {
    type V = Raster;

    /// The dimensions and bytes of the image.
    closed spec fn view(&self) -> Raster {
        Raster { width: self.width, height: self.height, data: self.data@ }
    }
}

impl Clone for Bitmap {
    /// A second image with the same content.
    fn clone(&self) -> (r: Self)
        ensures
            r@ == self@,
    {
        proof {
            use_type_invariant(self);
        }
        Bitmap { width: self.width, height: self.height, data: self.data.clone() }
    }
}

impl Bitmap {
    /// Every bitmap holds exactly the pixels of its width and height.
    #[verifier::type_invariant]
    pub open spec fn inv(&self) -> bool {
        self@.wf()
    }

    /// Wraps `data` as an image of `width` by `height` pixels, if it holds
    /// exactly that many pixels.
    pub fn new(width: u32, height: u32, data: Vec<u8>) -> (r: Option<Bitmap>)
        ensures
            match r {
                Some(b) => b@ == (Raster { width, height, data: data@ }) && b@.wf(),
                None => !(Raster { width, height, data: data@ }).wf(),
            },
    {
        match pixel_bytes(width, height) {
            Some(expected) => if data.len() == expected {
                Some(Bitmap { width, height, data })
            } else {
                None
            },
            None => None,
        }
    }

    /// Wraps `data`, known to hold exactly `width * height` pixels.
    pub(crate) fn from_parts(width: u32, height: u32, data: Vec<u8>) -> (b: Bitmap)
        requires
            (Raster { width, height, data: data@ }).wf(),
        ensures
            b@ == (Raster { width, height, data: data@ }),
    {
        Bitmap { width, height, data }
    }

    /// Width in pixels.
    pub fn width(&self) -> (w: u32)
        ensures
            w == self@.width,
    {
        self.width
    }

    /// Height in pixels.
    pub fn height(&self) -> (h: u32)
        ensures
            h == self@.height,
    {
        self.height
    }

    /// The pixel bytes, row-major, four per pixel.
    pub fn data(&self) -> (d: &[u8])
        ensures
            d@ == self@.data,
            self@.wf(),
    {
        proof {
            use_type_invariant(self);
        }
        self.data.as_slice()
    }

    /// The bytes of row `y`, left to right.
    pub fn row(&self, y: u32) -> (r: &[u8])
        requires
            y < self@.height,
        ensures
            r@ == self@.row(y as int),
            r@.len() == self@.row_len(),
    {
        proof {
            use_type_invariant(self);
            lemma_row_bounds(self.width, self.height, y as int);
        }
        let row_len: usize = self.width as usize * 4;
        let start: usize = y as usize * row_len;
        vstd::slice::slice_subrange(self.data.as_slice(), start, start + row_len)
    }

    /// The pixel in column `x` of row `y`: red, green, blue, alpha.
    pub fn get_pixel(&self, x: u32, y: u32) -> (px: [u8; 4])
        requires
            x < self@.width,
            y < self@.height,
        ensures
            px@ == self@.row(y as int).subrange(4 * x, 4 * x + 4),
    {
        let row = self.row(y);
        proof {
            use_type_invariant(self);
            lemma_row_bounds(self.width, self.height, 0);
        }
        let at: usize = x as usize * 4;
        [row[at], row[at + 1], row[at + 2], row[at + 3]]
    }

    /// Gives up the image for its pixel bytes.
    pub fn into_raw(self) -> (d: Vec<u8>)
        ensures
            d@ == self@.data,
            self@.wf(),
    {
        proof {
            use_type_invariant(&self);
        }
        self.data
    }
}

} // verus!
