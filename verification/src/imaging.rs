//! What the `image` and `img_hash` crates do for this library: telling the
//! format of encoded bytes, resizing a decoded image, and the
//! cosine-transform hash. Each call stands in one function here whose
//! contract is taken on trust from the crate's source.

use vstd::prelude::*;
use crate::bithash::canonical;
use crate::pixels::{gray_of, GrayImage, RgbaImage};

verus! {

/// The encodings that can be decoded.
#[derive(Debug, Clone, Copy, PartialEq, Eq, Structural)]
pub enum ImageFormat {
    Png,
    Jpeg,
    Gif,
}

/// How a resized pixel is made of the pixels it covers.
#[derive(Debug, Clone, Copy, PartialEq, Eq, Structural)]
pub enum ResizeFilter {
    /// The one nearest pixel.
    Nearest,
    /// A linear blend of the pixels around.
    Triangle,
}

/// `bytes` begins with `signature`.
pub open spec fn starts_with(bytes: Seq<u8>, signature: Seq<u8>) -> bool {
    signature.len() <= bytes.len() && bytes.take(signature.len() as int) == signature
}

pub open spec fn png_signature() -> Seq<u8> {
    seq![0x89u8, 0x50u8, 0x4eu8, 0x47u8, 0x0du8, 0x0au8, 0x1au8, 0x0au8]
}

pub open spec fn jpeg_signature() -> Seq<u8> {
    seq![0xffu8, 0xd8u8, 0xffu8]
}

pub open spec fn gif89_signature() -> Seq<u8> {
    seq![0x47u8, 0x49u8, 0x46u8, 0x38u8, 0x39u8, 0x61u8]
}

pub open spec fn gif87_signature() -> Seq<u8> {
    seq![0x47u8, 0x49u8, 0x46u8, 0x38u8, 0x37u8, 0x61u8]
}

/// The format that the first bytes announce, whatever a file's name says.
pub open spec fn announced_format(bytes: Seq<u8>) -> Option<ImageFormat> {
    if starts_with(bytes, png_signature()) {
        Some(ImageFormat::Png)
    } else if starts_with(bytes, jpeg_signature()) {
        Some(ImageFormat::Jpeg)
    } else if starts_with(bytes, gif89_signature()) || starts_with(bytes, gif87_signature()) {
        Some(ImageFormat::Gif)
    } else {
        None
    }
}

/// Tells the format of `bytes` from the signature they begin with. This is
/// `image::guess_format`, which goes through a table of signatures in
/// order; the table begins with those of PNG, JPEG and GIF, and bytes that
/// announce another format, or none, give `None` here.
#[verifier::external_body]
pub(crate) fn sniff_format(bytes: &Vec<u8>) -> (format: Option<ImageFormat>)
    ensures
        format == announced_format(bytes@),
{
    match image::guess_format(bytes) {
        Ok(image::ImageFormat::Png) => Some(ImageFormat::Png),
        Ok(image::ImageFormat::Jpeg) => Some(ImageFormat::Jpeg),
        Ok(image::ImageFormat::Gif) => Some(ImageFormat::Gif),
        _ => None,
    }
}

/// What a decoder makes of encoded bytes: the size in pixels, the pixels as
/// red, green, blue and alpha samples, and the number of bytes that the
/// decoded pixels take in their own layout. Decoding itself is left to the
/// caller, who can contain a decoder that aborts; what is made of its
/// output is decided here.
#[derive(Debug)]
pub struct Decoded {
    pub width: u32,
    pub height: u32,
    pub rgba: Vec<u8>,
    pub raw_len: usize,
}

/// The samples of an image of `width` by `height` pixels resized to `side`
/// by `side` pixels with `filter`.
pub uninterp spec fn resized(
    rgba: Seq<u8>,
    width: nat,
    height: nat,
    side: nat,
    filter: ResizeFilter,
) -> Seq<u8>;

/// The sizes between which an image can be resized: no side is zero, and
/// the buffers on the way have lengths that fit.
pub open spec fn resizable(width: nat, height: nat, side: nat) -> bool {
    &&& width > 0
    &&& height > 0
    &&& side > 0
    &&& 4 * side * side <= usize::MAX
    &&& 4 * width * side <= usize::MAX
    &&& 4 * width * height <= usize::MAX
}

/// Resizes an RGBA image to `side` by `side` pixels. This is
/// `image::imageops::resize`, which samples first down the columns and then
/// along the rows and returns a buffer of exactly `side * side` pixels. The
/// result is the one named `resized`.
#[verifier::external_body]
pub(crate) fn resize_rgba(rgba: &Vec<u8>, width: u32, height: u32, side: u32, filter: ResizeFilter) -> (out:
    Vec<u8>)
    requires
        rgba@.len() == 4 * width * height,
        resizable(width as nat, height as nat, side as nat),
    ensures
        out@ == resized(rgba@, width as nat, height as nat, side as nat, filter),
        out@.len() == 4 * side * side,
{
    let filter = match filter {
        ResizeFilter::Nearest => image::imageops::FilterType::Nearest,
        ResizeFilter::Triangle => image::imageops::FilterType::Triangle,
    };
    let source = image::RgbaImage::from_raw(width, height, rgba.clone()).unwrap();
    image::imageops::resize(&source, side, side, filter).into_raw()
}

/// `img_hash::Hasher`, which holds the cosine table of one hash size.
#[verifier::external_type_specification]
#[verifier::external_body]
#[verifier::reject_recursive_types(B)]
pub struct ExHasher<B>(img_hash::Hasher<B>);

/// The hash size that a hasher was made for.
pub uninterp spec fn hasher_size(hasher: img_hash::Hasher<Box<[u8]>>) -> nat;

/// A hasher for cosine-transform hashes of `hash_size` by `hash_size` bits.
/// This is an `img_hash::HasherConfig` with that size, the mean algorithm
/// and cosine preprocessing, made into a hasher, which computes the cosine
/// table for the size once.
#[verifier::external_body]
pub(crate) fn cosine_hasher(hash_size: u32) -> (hasher: img_hash::Hasher<Box<[u8]>>)
    requires
        0 < hash_size <= 0xffff,
    ensures
        hasher_size(hasher) == hash_size,
{
    img_hash::HasherConfig::new()
        .hash_size(hash_size, hash_size)
        .hash_alg(img_hash::HashAlg::Mean)
        .preproc_dct()
        .to_hasher()
}

/// The bytes of the cosine-transform hash of a square grayscale image. This
/// is `img_hash::Hasher::hash_image`: it transforms the image, keeps the
/// coefficients of lowest frequency, as many each way as the hasher's size,
/// and sets a bit for each that is at least their mean. Bits are packed
/// from the least significant bit of each byte, and the bits of the last
/// byte that no coefficient takes stay zero. Which bits are set rests on
/// floating-point cosines and is not stated.
#[verifier::external_body]
pub(crate) fn cosine_hash_bytes(hasher: &img_hash::Hasher<Box<[u8]>>, gray: &Vec<u8>, side: u32) -> (bytes:
    Vec<u8>)
    requires
        gray@.len() == side * side,
        side > 0,
    ensures
        canonical(bytes@, hasher_size(*hasher) * hasher_size(*hasher)),
{
    let image = image::GrayImage::from_raw(side, side, gray.clone()).unwrap();
    hasher.hash_image(&image).as_bytes().to_vec()
}

/// The number of logical processors. This is `num_cpus::get`; what it
/// returns depends on the machine, and nothing is claimed of it.
#[verifier::external_body]
pub(crate) fn logical_cpus() -> (count: usize) {
    num_cpus::get()
}

/// The grayscale image that a kernel works on: `image` resized to `side` by
/// `side` pixels with `filter`, then reduced to luminance. `None` where the
/// image or the side is empty or the sizes do not fit.
pub fn normalise(image: &RgbaImage, side: u32, filter: ResizeFilter) -> (gray: Option<GrayImage>)
    ensures
        gray is Some <==> resizable(image.spec_width(), image.spec_height(), side as nat),
        gray is Some ==> gray->0@ == gray_of(
            resized(image@, image.spec_width(), image.spec_height(), side as nat, filter),
        ) && gray->0.spec_width() == side && gray->0.spec_height() == side,
{
    let w: u32 = image.width();
    let h: u32 = image.height();
    if w == 0 || h == 0 || side == 0 {
        return None;
    }
    let px: &Vec<u8> = image.pixels();
    let len: usize = px.len();
    proof {
        assert(len == 4 * w * h);
        assert((side as u128) * (side as u128) <= 0xffff_ffff * 0xffff_ffff) by (nonlinear_arith)
            requires
                side <= 0xffff_ffff,
        ;
        assert((w as u128) * (side as u128) <= 0xffff_ffff * 0xffff_ffff) by (nonlinear_arith)
            requires
                side <= 0xffff_ffff,
                w <= 0xffff_ffff,
        ;
        assert(4 * (side * side) == 4 * side * side) by (nonlinear_arith);
        assert(4 * (w * side) == 4 * w * side) by (nonlinear_arith);
    }
    let square: u128 = 4 * ((side as u128) * (side as u128));
    let strip: u128 = 4 * ((w as u128) * (side as u128));
    if square > usize::MAX as u128 || strip > usize::MAX as u128 {
        return None;
    }
    let out: Vec<u8> = resize_rgba(px, w, h, side, filter);
    let resized_image = RgbaImage::new(side, side, out);
    match resized_image {
        Some(small) => Some(small.to_gray()),
        None => None,
    }
}

} // verus!
