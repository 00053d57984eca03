//! From the bytes of a file to a decoded image and what is known of it, and
//! from there to its hash. Reading the file and running the decoder are the
//! caller's; which format the bytes are in, what is kept of the decoder's
//! output and what a file that did not decode comes to are decided here.

use vstd::prelude::*;
use crate::clock::{elapsed_millis, now};
use crate::error::{Error, ErrorKind};
use crate::hash::{HashSettings, HashType};
use crate::hasher::{hash_bits, hashable, ImageHasher};
use crate::imaging::{announced_format, sniff_format, Decoded, ImageFormat};
use crate::model::{HashedImage, Image};
use crate::pixels::RgbaImage;
use crate::text::owned;

verus! {

/// A decoded image and what is known of its file.
#[derive(Debug)]
pub struct LoadedImage {
    pub data: RgbaImage,
    pub image: Image,
}

/// The outcome of one task: a hashed image, or the failure and its file.
pub type WorkResult = Result<HashedImage, Error>;

/// The decoder's output is an image: it has four samples for each pixel.
pub open spec fn well_sized(width: nat, height: nat, samples: nat) -> bool {
    samples == 4 * width * height
}

/// The number of bytes that `len` samples of `sample_bytes` bytes each take
/// in memory, capped at the largest number that fits.
pub open spec fn spec_loaded_size(len: nat, sample_bytes: nat) -> u64 {
    if len * sample_bytes > u64::MAX {
        u64::MAX
    } else {
        (len * sample_bytes) as u64
    }
}

/// The number of bytes that a buffer of `len` samples of `sample_bytes`
/// bytes each takes in memory.
pub fn loaded_size(len: usize, sample_bytes: usize) -> (bytes: u64)
    ensures
        bytes == spec_loaded_size(len as nat, sample_bytes as nat),
{
    proof {
        assert((len as u128) * (sample_bytes as u128) <= 0xffff_ffff_ffff_ffff
            * 0xffff_ffff_ffff_ffff) by (nonlinear_arith)
            requires
                len <= 0xffff_ffff_ffff_ffff,
                sample_bytes <= 0xffff_ffff_ffff_ffff,
        ;
    }
    let wide: u128 = (len as u128) * (sample_bytes as u128);
    if wide > u64::MAX as u128 {
        u64::MAX
    } else {
        wide as u64
    }
}

/// `r` is what hashing `loaded` with `settings` gives: the image as it was
/// with its hash, where it can be hashed, and a decode error with its path
/// where it cannot. The hash has the bit length of the settings, and for
/// every kind but `DCT` its bits are those of the kernel.
pub open spec fn hashes_to(loaded: LoadedImage, settings: HashSettings, r: WorkResult) -> bool {
    &&& r is Ok <==> hashable(settings, loaded.data.spec_width(), loaded.data.spec_height())
    &&& r is Ok ==> {
        &&& r->Ok_0.image == loaded.image
        &&& r->Ok_0.hash@.len() == settings.spec_bit_length()
        &&& settings.hash_type != HashType::DCT ==> r->Ok_0.hash@ == hash_bits(
            settings,
            loaded.data@,
            loaded.data.spec_width(),
            loaded.data.spec_height(),
        )
    }
    &&& r is Err ==> r->Err_0.path == loaded.image.path && r->Err_0.kind == ErrorKind::Decode
}

/// Images with the same pixels get the same hash, whatever their files are
/// called: hashed with the same settings of a kind other than `DCT`, two
/// images of one size and with the same samples both fail or both succeed,
/// their hashes hold the same bits, and each keeps its own record.
pub proof fn law_same_pixels_same_hash(
    settings: HashSettings,
    a: LoadedImage,
    b: LoadedImage,
    ra: WorkResult,
    rb: WorkResult,
)
    requires
        a.data@ == b.data@,
        a.data.spec_width() == b.data.spec_width(),
        a.data.spec_height() == b.data.spec_height(),
        settings.hash_type != HashType::DCT,
        hashes_to(a, settings, ra),
        hashes_to(b, settings, rb),
    ensures
        ra is Ok <==> rb is Ok,
        ra is Ok ==> ra->Ok_0.hash@ == rb->Ok_0.hash@ && ra->Ok_0.image == a.image
            && rb->Ok_0.image == b.image,
{
}

impl LoadedImage {
    /// What the loader makes of a decoder's output for the file `path`,
    /// loaded in `load_time` milliseconds: the image and its record, or a
    /// decode error where the samples are not four for each pixel.
    pub fn from_decoded(path: String, d: Decoded, load_time: u64) -> (r: Result<LoadedImage, Error>)
        ensures
            r is Ok <==> well_sized(d.width as nat, d.height as nat, d.rgba@.len()),
            r is Ok ==> {
                &&& r->Ok_0.data@ == d.rgba@
                &&& r->Ok_0.data.spec_width() == d.width
                &&& r->Ok_0.data.spec_height() == d.height
                &&& r->Ok_0.image.path == path
                &&& r->Ok_0.image.dimensions == (d.width, d.height)
                &&& r->Ok_0.image.loaded_size == spec_loaded_size(d.raw_len as nat, 1)
                &&& r->Ok_0.image.load_time == load_time
            },
            r is Err ==> r->Err_0.path == path && r->Err_0.kind == ErrorKind::Decode,
    {
        let width: u32 = d.width;
        let height: u32 = d.height;
        let size: u64 = loaded_size(d.raw_len, 1);
        match RgbaImage::new(width, height, d.rgba) {
            Some(data) => Ok(
                LoadedImage {
                    data,
                    image: Image { path, dimensions: (width, height), loaded_size: size, load_time },
                },
            ),
            None => Err(Error::decode(path)),
        }
    }

    /// Hashes the image with the settings that `hasher` was made ready for,
    /// and attaches the hash and the time it took. An image that cannot be
    /// hashed with the settings is reported as undecodable, with its path.
    pub fn hash_with(self, hasher: &ImageHasher) -> (r: WorkResult)
        ensures
            hashes_to(self, hasher.spec_settings(), r),
    {
        let start = now();
        let hashed = hasher.hash(&self.data);
        let hash_time: u64 = elapsed_millis(&start);
        match hashed {
            Ok(hash) => Ok(HashedImage { image: self.image, hash, hash_time }),
            Err(_) => Err(Error::decode(self.image.path)),
        }
    }

    /// Hashes the image with `settings` and attaches the hash and the time
    /// it took. An image that cannot be hashed with the settings is
    /// reported as undecodable, with its path.
    pub fn hash(self, settings: &HashSettings) -> (r: WorkResult)
        ensures
            hashes_to(self, *settings, r),
    {
        let hasher = settings.prepare();
        self.hash_with(&hasher)
    }
}

/// Tells the format of the file `path` from the first of its bytes, not
/// from its name. Bytes that announce none of the formats that can be
/// decoded are reported as undecodable.
pub fn image_format(path: &str, bytes: &Vec<u8>) -> (r: Result<ImageFormat, Error>)
    ensures
        r is Ok <==> announced_format(bytes@) is Some,
        r is Ok ==> Some(r->Ok_0) == announced_format(bytes@),
        r is Err ==> r->Err_0.path@ == path@ && r->Err_0.kind == ErrorKind::Decode,
{
    match sniff_format(bytes) {
        Some(format) => Ok(format),
        None => Err(Error::decode(owned(path))),
    }
}

/// Whether the outcome of decoding can be loaded: the decoder gave an
/// image, with four samples for each pixel.
pub open spec fn loadable(decoded: Option<Decoded>) -> bool {
    decoded is Some && well_sized(
        decoded->0.width as nat,
        decoded->0.height as nat,
        decoded->0.rgba@.len(),
    )
}

/// Makes the loaded image of the file `path` from the outcome of decoding
/// its bytes, `None` where the decoder failed, and from the milliseconds
/// that reading and decoding took. A file that did not decode is reported
/// as undecodable.
pub fn load_image(path: String, decoded: Option<Decoded>, load_time: u64) -> (r: Result<
    LoadedImage,
    Error,
>)
    ensures
        r is Ok <==> loadable(decoded),
        r is Ok ==> {
            &&& r->Ok_0.data@ == decoded->0.rgba@
            &&& r->Ok_0.data.spec_width() == decoded->0.width
            &&& r->Ok_0.data.spec_height() == decoded->0.height
            &&& r->Ok_0.image.path == path
            &&& r->Ok_0.image.dimensions == (decoded->0.width, decoded->0.height)
            &&& r->Ok_0.image.loaded_size == spec_loaded_size(decoded->0.raw_len as nat, 1)
            &&& r->Ok_0.image.load_time == load_time
        },
        r is Err ==> r->Err_0.path == path && r->Err_0.kind == ErrorKind::Decode,
{
    match decoded {
        Some(d) => LoadedImage::from_decoded(path, d, load_time),
        None => Err(Error::decode(path)),
    }
}

/// `r` is the outcome of the task on the file `path`, whose bytes decoded
/// to `decoded` in `load_time` milliseconds, with `settings`: where the
/// file decoded and can be hashed, its record with the size, the bytes and
/// the load time, and its hash, of the bit length of the settings and, for
/// every kind but `DCT`, with the bits of the kernel; else a decode error
/// with the path.
pub open spec fn task_outcome(
    path: String,
    decoded: Option<Decoded>,
    load_time: u64,
    settings: HashSettings,
    r: WorkResult,
) -> bool {
    &&& r is Ok <==> loadable(decoded) && hashable(
        settings,
        decoded->0.width as nat,
        decoded->0.height as nat,
    )
    &&& r is Ok ==> {
        &&& r->Ok_0.image.path == path
        &&& r->Ok_0.image.dimensions == (decoded->0.width, decoded->0.height)
        &&& r->Ok_0.image.loaded_size == spec_loaded_size(decoded->0.raw_len as nat, 1)
        &&& r->Ok_0.image.load_time == load_time
        &&& r->Ok_0.hash@.len() == settings.spec_bit_length()
        &&& settings.hash_type != HashType::DCT ==> r->Ok_0.hash@ == hash_bits(
            settings,
            decoded->0.rgba@,
            decoded->0.width as nat,
            decoded->0.height as nat,
        )
    }
    &&& r is Err ==> r->Err_0.path == path && r->Err_0.kind == ErrorKind::Decode
}

/// A file gets the hash it gets alone: the outcome of a task rests on the
/// decoded pixels and the settings, not on the path, the load time or what
/// else is in the run. Two tasks on the same decoded image with the same
/// settings of a kind other than `DCT` both fail or both give hashes that
/// hold the same bits.
pub proof fn law_task_hash_is_its_own(
    settings: HashSettings,
    decoded: Option<Decoded>,
    path_a: String,
    time_a: u64,
    ra: WorkResult,
    path_b: String,
    time_b: u64,
    rb: WorkResult,
)
    requires
        settings.hash_type != HashType::DCT,
        task_outcome(path_a, decoded, time_a, settings, ra),
        task_outcome(path_b, decoded, time_b, settings, rb),
    ensures
        ra is Ok <==> rb is Ok,
        ra is Ok ==> ra->Ok_0.hash@ == rb->Ok_0.hash@,
{
}

/// The whole of one task after the decoder has run: makes the loaded image
/// of the file `path` from the outcome of decoding, and hashes it with the
/// settings that `hasher` was made ready for.
pub fn load_and_hash_with(
    path: String,
    decoded: Option<Decoded>,
    load_time: u64,
    hasher: &ImageHasher,
) -> (r: WorkResult)
    ensures
        task_outcome(path, decoded, load_time, hasher.spec_settings(), r),
{
    match load_image(path, decoded, load_time) {
        Ok(loaded) => loaded.hash_with(hasher),
        Err(e) => Err(e),
    }
}

/// The whole of one task after the decoder has run: makes the loaded image
/// of the file `path` from the outcome of decoding, and hashes it with
/// `settings`.
pub fn load_and_hash(
    path: String,
    decoded: Option<Decoded>,
    load_time: u64,
    settings: &HashSettings,
) -> (r: WorkResult)
    ensures
        task_outcome(path, decoded, load_time, *settings, r),
{
    let hasher = settings.prepare();
    load_and_hash_with(path, decoded, load_time, &hasher)
}

} // verus!
