//! From a decoded image and the settings to its hash.

use vstd::prelude::*;
use crate::bithash::BitHash;
use crate::error::ErrorKind;
use crate::hash::{HashSettings, HashType};
use crate::imaging::{
    cosine_hash_bytes, cosine_hasher, hasher_size, normalise, resizable, resized, ResizeFilter,
};
use crate::kernels::{
    block_bits, block_spec, double_gradient_bits, double_gradient_spec, gradient_bits,
    gradient_spec, mean_bits, mean_spec,
};
use crate::pixels::{gray_of, GrayImage, RgbaImage};

verus! {

/// Whether an image of `w` by `h` pixels can be hashed with `settings`: the
/// hash size is positive, the image is not empty, and it is large enough
/// for the blocks or can be resized to the side the kernel wants.
pub open spec fn hashable(settings: HashSettings, w: nat, h: nat) -> bool {
    &&& settings.hash_size > 0
    &&& match settings.hash_type {
        HashType::Mean | HashType::Gradient | HashType::DoubleGradient => resizable(
            w,
            h,
            settings.hash_size as nat,
        ),
        HashType::DCT => settings.hash_size <= 0xffff && resizable(
            w,
            h,
            4 * settings.hash_size as nat,
        ),
        HashType::Block => settings.hash_size <= w && settings.hash_size <= h,
    }
}

/// The bits of the hash of an image with `settings`, for every kind but
/// `DCT`: the kernel's bits of the grayscale image at the side the kernel
/// wants, resized by the nearest pixel; for `Block`, of the grayscale image
/// at its own size.
pub open spec fn hash_bits(settings: HashSettings, rgba: Seq<u8>, w: nat, h: nat) -> Seq<bool> {
    let n = settings.hash_size as nat;
    let small = gray_of(resized(rgba, w, h, n, ResizeFilter::Nearest));
    match settings.hash_type {
        HashType::Mean => mean_spec(small),
        HashType::Gradient => gradient_spec(small, n, n),
        HashType::DoubleGradient => double_gradient_spec(small, n, n),
        HashType::Block => block_spec(gray_of(rgba), w, h, n),
        HashType::DCT => Seq::empty(),
    }
}

/// The grayscale image that the cosine transform starts from: the image
/// resized to four times the hash size each way by linear blending, then
/// reduced to luminance.
pub open spec fn cosine_input_spec(rgba: Seq<u8>, w: nat, h: nat, hash_size: nat) -> Seq<u8> {
    gray_of(resized(rgba, w, h, 4 * hash_size, ResizeFilter::Triangle))
}

/// Makes the grayscale image that the cosine transform of `image` for the
/// hash size `hash_size` starts from. `None` where the image or the hash
/// size is empty or the sizes do not fit.
pub fn cosine_input(image: &RgbaImage, hash_size: u32) -> (gray: Option<GrayImage>)
    ensures
        gray is Some <==> 4 * hash_size <= u32::MAX && resizable(
            image.spec_width(),
            image.spec_height(),
            4 * hash_size as nat,
        ),
        gray is Some ==> gray->0@ == cosine_input_spec(
            image@,
            image.spec_width(),
            image.spec_height(),
            hash_size as nat,
        ) && gray->0.spec_width() == 4 * hash_size && gray->0.spec_height() == 4 * hash_size,
{
    if hash_size > u32::MAX / 4 {
        return None;
    }
    normalise(image, 4 * hash_size, ResizeFilter::Triangle)
}

/// Settings made ready for hashing: for `DCT` with the cosine table of the
/// hash size, which is computed once here and used for every image.
pub struct ImageHasher {
    settings: HashSettings,
    plan: Option<img_hash::Hasher<Box<[u8]>>>,
}

impl ImageHasher {
    /// The settings that were made ready.
    pub closed spec fn spec_settings(&self) -> HashSettings {
        self.settings
    }

    /// Whether the cosine table was made.
    pub closed spec fn has_table(&self) -> bool {
        self.plan is Some
    }

    #[verifier::type_invariant]
    pub closed spec fn wf(&self) -> bool {
        &&& self.plan is Some <==> self.settings.hash_type == HashType::DCT && 0
            < self.settings.hash_size <= 0xffff
        &&& self.plan is Some ==> hasher_size(self.plan->0) == self.settings.hash_size
    }

    /// Whether the cosine table was made: it is made for `DCT` with a hash
    /// size that the transform can take, and for nothing else.
    pub fn table_ready(&self) -> (ready: bool)
        ensures
            ready == self.has_table(),
            ready == (self.spec_settings().hash_type == HashType::DCT && 0
                < self.spec_settings().hash_size <= 0xffff),
    {
        proof {
            use_type_invariant(self);
        }
        self.plan.is_some()
    }

    /// The settings that were made ready.
    pub fn settings(&self) -> (settings: HashSettings)
        ensures
            settings == self.spec_settings(),
    {
        self.settings
    }

    /// The hash of `image`. An image that cannot be hashed with the
    /// settings is reported as undecodable. Every hash has the bit length
    /// that the settings give; for every kind but `DCT` the bits are stated
    /// exactly. For `DCT` the grayscale image of four times the hash size,
    /// resized by linear blending, goes to the hasher, which reduces it to
    /// twice the hash size before it transforms it.
    pub fn hash(&self, image: &RgbaImage) -> (r: Result<BitHash, ErrorKind>)
        ensures
            r is Ok <==> hashable(self.spec_settings(), image.spec_width(), image.spec_height()),
            r is Ok ==> r->Ok_0@.len() == self.spec_settings().spec_bit_length(),
            r is Ok && self.spec_settings().hash_type != HashType::DCT ==> r->Ok_0@ == hash_bits(
                self.spec_settings(),
                image@,
                image.spec_width(),
                image.spec_height(),
            ),
            r is Err ==> r->Err_0 == ErrorKind::Decode,
    {
        proof {
            use_type_invariant(self);
        }
        let n: u32 = self.settings.hash_size;
        if n == 0 {
            return Err(ErrorKind::Decode);
        }
        match self.settings.hash_type {
            HashType::Mean => {
                match normalise(image, n, ResizeFilter::Nearest) {
                    Some(gray) => {
                        let bits = mean_bits(&gray);
                        Ok(BitHash::from_bools(&bits))
                    },
                    None => Err(ErrorKind::Decode),
                }
            },
            HashType::Gradient => {
                match normalise(image, n, ResizeFilter::Nearest) {
                    Some(gray) => {
                        let bits = gradient_bits(&gray);
                        Ok(BitHash::from_bools(&bits))
                    },
                    None => Err(ErrorKind::Decode),
                }
            },
            HashType::DoubleGradient => {
                match normalise(image, n, ResizeFilter::Nearest) {
                    Some(gray) => {
                        let bits = double_gradient_bits(&gray);
                        Ok(BitHash::from_bools(&bits))
                    },
                    None => Err(ErrorKind::Decode),
                }
            },
            HashType::DCT => {
                if n > 0xffff {
                    return Err(ErrorKind::Decode);
                }
                let side: u32 = 4 * n;
                match (&self.plan, cosine_input(image, n)) {
                    (Some(plan), Some(gray)) => {
                        proof {
                            assert(n * n <= 0xffff * 0xffff) by (nonlinear_arith)
                                requires
                                    n <= 0xffff,
                            ;
                        }
                        let bytes = cosine_hash_bytes(plan, gray.pixels(), side);
                        let size: usize = (n * n) as usize;
                        match BitHash::new(size, bytes) {
                            Some(hash) => Ok(hash),
                            None => Err(ErrorKind::Decode),
                        }
                    },
                    _ => Err(ErrorKind::Decode),
                }
            },
            HashType::Block => {
                let gray = image.to_gray();
                match block_bits(&gray, n as usize) {
                    Some(bits) => Ok(BitHash::from_bools(&bits)),
                    None => Err(ErrorKind::Decode),
                }
            },
        }
    }
}

impl HashSettings {
    /// Makes the settings ready for hashing. For `DCT` this computes the
    /// cosine table of the hash size; a worker does it once, before its
    /// first task. For every other kind, and for a hash size that the
    /// transform cannot take, no table is made.
    pub fn prepare(&self) -> (ready: ImageHasher)
        ensures
            ready.spec_settings() == *self,
            ready.has_table() <==> self.hash_type == HashType::DCT && 0 < self.hash_size
                <= 0xffff,
    {
        let plan = match self.hash_type {
            HashType::DCT => {
                if 0 < self.hash_size && self.hash_size <= 0xffff {
                    Some(cosine_hasher(self.hash_size))
                } else {
                    None
                }
            },
            _ => None,
        };
        ImageHasher { settings: *self, plan }
    }

    /// The hash of `image` with these settings.
    pub fn hash(&self, image: &RgbaImage) -> (r: Result<BitHash, ErrorKind>)
        ensures
            r is Ok <==> hashable(*self, image.spec_width(), image.spec_height()),
            r is Ok ==> r->Ok_0@.len() == self.spec_bit_length(),
            r is Ok && self.hash_type != HashType::DCT ==> r->Ok_0@ == hash_bits(
                *self,
                image@,
                image.spec_width(),
                image.spec_height(),
            ),
            r is Err ==> r->Err_0 == ErrorKind::Decode,
    {
        self.prepare().hash(image)
    }
}

/// The hash of `image` with `settings`. An image that cannot be hashed with
/// them is reported as undecodable. Every hash has the bit length that the
/// settings give; for every kind but `DCT` the bits are stated exactly.
pub fn hash_image(settings: &HashSettings, image: &RgbaImage) -> (r: Result<BitHash, ErrorKind>)
    ensures
        r is Ok <==> hashable(*settings, image.spec_width(), image.spec_height()),
        r is Ok ==> r->Ok_0@.len() == settings.spec_bit_length(),
        r is Ok && settings.hash_type != HashType::DCT ==> r->Ok_0@ == hash_bits(
            *settings,
            image@,
            image.spec_width(),
            image.spec_height(),
        ),
        r is Err ==> r->Err_0 == ErrorKind::Decode,
{
    settings.hash(image)
}

} // verus!
