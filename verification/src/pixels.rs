//! Decoded images as plain pixel buffers, and their reduction to grayscale.

use vstd::prelude::*;

verus! {

/// The luminance of a colour by the Rec. 601 weights, rounded to the nearest
/// integer: `0.299 R + 0.587 G + 0.114 B`.
pub open spec fn luma(r: u8, g: u8, b: u8) -> u8 {
    ((299 * r + 587 * g + 114 * b + 500) / 1000) as u8
}

/// The luminance of each pixel of a buffer of red, green, blue and alpha
/// samples.
pub open spec fn gray_of(rgba: Seq<u8>) -> Seq<u8> {
    Seq::new(rgba.len() / 4, |i: int| luma(rgba[4 * i], rgba[4 * i + 1], rgba[4 * i + 2]))
}

/// The luminance of one colour.
pub fn luminance(r: u8, g: u8, b: u8) -> (y: u8)
    ensures
        y == luma(r, g, b),
{
    let sum: u32 = 299 * (r as u32) + 587 * (g as u32) + 114 * (b as u32) + 500;
    (sum / 1000) as u8
}

/// A decoded image: rows of pixels from the top, each pixel four samples
/// (red, green, blue, alpha).
#[derive(Debug)]
pub struct RgbaImage {
    width: u32,
    height: u32,
    pixels: Vec<u8>,
}

impl View for RgbaImage {
    type V = Seq<u8>;

    closed spec fn view(&self) -> Seq<u8> {
        self.pixels@
    }
}

impl RgbaImage {
    pub closed spec fn spec_width(&self) -> nat {
        self.width as nat
    }

    pub closed spec fn spec_height(&self) -> nat {
        self.height as nat
    }

    #[verifier::type_invariant]
    pub closed spec fn wf(&self) -> bool {
        self.pixels@.len() == 4 * self.width * self.height
    }

    /// An image of `width` by `height` pixels over `pixels`, which must hold
    /// four samples for each pixel.
    pub fn new(width: u32, height: u32, pixels: Vec<u8>) -> (made: Option<RgbaImage>)
        ensures
            made is Some <==> pixels@.len() == 4 * width * height,
            made is Some ==> made->0@ == pixels@ && made->0.spec_width() == width
                && made->0.spec_height() == height,
    {
        proof {
            assert((width as u128) * (height as u128) <= 0xffff_ffff * 0xffff_ffff)
                by (nonlinear_arith)
                requires
                    width <= 0xffff_ffff,
                    height <= 0xffff_ffff,
            ;
            assert(4 * (width * height) == 4 * width * height) by (nonlinear_arith);
        }
        let need: u128 = 4 * ((width as u128) * (height as u128));
        if pixels.len() as u128 != need {
            return None;
        }
        Some(RgbaImage { width, height, pixels })
    }

    pub fn width(&self) -> (w: u32)
        ensures
            w == self.spec_width(),
    {
        self.width
    }

    pub fn height(&self) -> (h: u32)
        ensures
            h == self.spec_height(),
    {
        self.height
    }

    /// The samples, four for each pixel.
    pub fn pixels(&self) -> (pixels: &Vec<u8>)
        ensures
            pixels@ == self@,
            pixels@.len() == 4 * self.spec_width() * self.spec_height(),
    {
        proof {
            use_type_invariant(self);
        }
        &self.pixels
    }

    /// The image in grayscale, at its own size.
    pub fn to_gray(&self) -> (gray: GrayImage)
        ensures
            gray@ == gray_of(self@),
            gray.spec_width() == self.spec_width(),
            gray.spec_height() == self.spec_height(),
    {
        proof {
            use_type_invariant(self);
        }
        let count: usize = self.pixels.len() / 4;
        let mut out: Vec<u8> = Vec::new();
        let mut i: usize = 0;
        while i < count
            invariant
                i <= count,
                4 * count <= usize::MAX,
                count == self.pixels@.len() / 4,
                self.pixels@.len() == 4 * self.width * self.height,
                out@.len() == i,
                forall|j: int|
                    0 <= j < i ==> out@[j] == luma(
                        self.pixels@[4 * j],
                        self.pixels@[4 * j + 1],
                        self.pixels@[4 * j + 2],
                    ),
            decreases count - i,
        {
            let y: u8 = luminance(self.pixels[4 * i], self.pixels[4 * i + 1], self.pixels[4 * i + 2]);
            out.push(y);
            i = i + 1;
        }
        proof {
            assert(out@ =~= gray_of(self.pixels@));
            assert(4 * (self.width * self.height) == 4 * self.width * self.height)
                by (nonlinear_arith);
        }
        GrayImage { width: self.width as usize, height: self.height as usize, pixels: out }
    }
}

/// A grayscale image: rows of pixels from the top, one sample each.
#[derive(Debug)]
pub struct GrayImage {
    width: usize,
    height: usize,
    pixels: Vec<u8>,
}

impl View for GrayImage {
    type V = Seq<u8>;

    closed spec fn view(&self) -> Seq<u8> {
        self.pixels@
    }
}

impl GrayImage {
    pub closed spec fn spec_width(&self) -> nat {
        self.width as nat
    }

    pub closed spec fn spec_height(&self) -> nat {
        self.height as nat
    }

    #[verifier::type_invariant]
    pub closed spec fn wf(&self) -> bool {
        self.pixels@.len() == self.width * self.height
    }

    /// An image of `width` by `height` pixels over `pixels`, which must hold
    /// one sample for each pixel.
    pub fn new(width: usize, height: usize, pixels: Vec<u8>) -> (made: Option<GrayImage>)
        ensures
            made is Some <==> pixels@.len() == width * height,
            made is Some ==> made->0@ == pixels@ && made->0.spec_width() == width
                && made->0.spec_height() == height,
    {
        proof {
            assert((width as u128) * (height as u128) <= 0xffff_ffff_ffff_ffff
                * 0xffff_ffff_ffff_ffff) by (nonlinear_arith)
                requires
                    width <= 0xffff_ffff_ffff_ffff,
                    height <= 0xffff_ffff_ffff_ffff,
            ;
        }
        let need: u128 = (width as u128) * (height as u128);
        if pixels.len() as u128 != need {
            return None;
        }
        Some(GrayImage { width, height, pixels })
    }

    pub fn width(&self) -> (w: usize)
        ensures
            w == self.spec_width(),
    {
        self.width
    }

    pub fn height(&self) -> (h: usize)
        ensures
            h == self.spec_height(),
    {
        self.height
    }

    /// The samples, one for each pixel.
    pub fn pixels(&self) -> (pixels: &Vec<u8>)
        ensures
            pixels@ == self@,
            pixels@.len() == self.spec_width() * self.spec_height(),
    {
        proof {
            use_type_invariant(self);
        }
        &self.pixels
    }
}

} // verus!
