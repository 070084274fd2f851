use vstd::prelude::*;

verus! {

/// What a grayscale raster holds, as mathematical values.
pub struct Raster {
    pub width: nat,
    pub height: nat,
    pub luma: Seq<u8>,
}

impl Raster {
    /// The luminance of pixel `(x, y)`.
    pub open spec fn pixel(self, x: int, y: int) -> u8 {
        self.luma[y * self.width + x]
    }
}

/// A decoded page image reduced to one luminance byte per pixel, stored
/// row by row (`luma[y * width + x]`).
pub struct GrayImage {
    width: usize,
    height: usize,
    luma: Vec<u8>,
}

impl View for GrayImage {
    type V = Raster;

    closed spec fn view(&self) -> Raster {
        Raster { width: self.width as nat, height: self.height as nat, luma: self.luma@ }
    }
}

impl GrayImage {
    #[verifier::type_invariant]
    spec fn inv(&self) -> bool {
        self.luma.len() == self.width * self.height
    }

    /// Builds an image from its dimensions and row-major luminance bytes;
    /// `None` when the buffer does not hold exactly `width * height` bytes.
    pub fn new(width: usize, height: usize, luma: Vec<u8>) -> (r: Option<GrayImage>)
        ensures
            r is Some <==> luma@.len() == width * height,
            r matches Some(img) ==> img@ == (Raster {
                width: width as nat,
                height: height as nat,
                luma: luma@,
            }),
    {
        let n = luma.len();
        if width == 0 {
            assert(width * height == 0) by (nonlinear_arith)
                requires
                    width == 0,
            ;
            if n == 0 {
                return Some(GrayImage { width, height, luma });
            }
            return None;
        }
        if n % width == 0 && n / width == height {
            assert(n == width * height) by (nonlinear_arith)
                requires
                    width > 0,
                    n % width == 0,
                    n / width == height,
            ;
            Some(GrayImage { width, height, luma })
        } else {
            assert(n != width * height) by (nonlinear_arith)
                requires
                    width > 0,
                    !(n % width == 0 && n / width == height),
            ;
            None
        }
    }

    pub fn width(&self) -> (r: usize)
        ensures
            r == self@.width,
    {
        self.width
    }

    pub fn height(&self) -> (r: usize)
        ensures
            r == self@.height,
    {
        self.height
    }

    /// The luminance of pixel `(x, y)`.
    pub fn luma_at(&self, x: usize, y: usize) -> (r: u8)
        requires
            x < self@.width,
            y < self@.height,
        ensures
            r == self@.pixel(x as int, y as int),
    {
        proof {
            use_type_invariant(self);
            lemma_pixel_in_bounds(x as int, y as int, self.width as int, self.height as int);
        }
        self.luma[y * self.width + x]
    }
}

/// The row-major offset of an in-bounds pixel lies inside the buffer.
pub proof fn lemma_pixel_in_bounds(x: int, y: int, width: int, height: int)
    requires
        0 <= x < width,
        0 <= y < height,
    ensures
        0 <= y * width + x < width * height,
{
    assert(0 <= y * width + x < width * height) by (nonlinear_arith)
        requires
            0 <= x < width,
            0 <= y < height,
    ;
}

} // verus!
