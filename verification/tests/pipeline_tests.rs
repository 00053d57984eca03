use img_dup::collate::{collate, collate_images};
use img_dup::error::{Error, ErrorKind};
use img_dup::hash::{CompareMode, HashSettings, HashType};
use img_dup::hasher::{cosine_input, hash_image};
use img_dup::imaging::{normalise, Decoded, ImageFormat, ResizeFilter};
use img_dup::loader::{
    image_format, load_and_hash, load_and_hash_with, load_image, loaded_size, LoadedImage, WorkResult,
};
use img_dup::pixels::RgbaImage;
use img_dup::status::WorkStatus;
use img_dup::vptree::Neighbor;

fn pattern(width: u32, height: u32) -> Vec<u8> {
    let mut px = Vec::new();
    for y in 0..height {
        for x in 0..width {
            let v = if x < width / 2 { 20 + (y % 7) as u8 } else { 200 + (x % 11) as u8 };
            px.push(v);
            px.push(v / 2);
            px.push(255 - v);
            px.push(255);
        }
    }
    px
}

fn png_bytes(width: u32, height: u32, rgba: Vec<u8>) -> Vec<u8> {
    let img = image::RgbaImage::from_raw(width, height, rgba).unwrap();
    let mut out = Vec::new();
    image::DynamicImage::ImageRgba8(img).write_to(&mut out, image::ImageOutputFormat::Png).unwrap();
    out
}

fn jpeg_bytes(width: u32, height: u32, rgba: Vec<u8>) -> Vec<u8> {
    let img = image::RgbaImage::from_raw(width, height, rgba).unwrap();
    let rgb = image::DynamicImage::ImageRgba8(img).to_rgb8();
    let mut out = Vec::new();
    image::DynamicImage::ImageRgb8(rgb)
        .write_to(&mut out, image::ImageOutputFormat::Jpeg(90))
        .unwrap();
    out
}

fn gif_bytes(width: u32, height: u32, rgba: Vec<u8>) -> Vec<u8> {
    let img = image::RgbaImage::from_raw(width, height, rgba).unwrap();
    let mut out = Vec::new();
    image::DynamicImage::ImageRgba8(img).write_to(&mut out, image::ImageOutputFormat::Gif).unwrap();
    out
}

fn noise(count: usize, seed: u64) -> Vec<u8> {
    let mut state = seed;
    let mut out = Vec::new();
    for _ in 0..count {
        state = state.wrapping_mul(6364136223846793005).wrapping_add(1442695040888963407);
        out.push((state >> 33) as u8);
    }
    out
}

fn decode(bytes: &[u8], format: ImageFormat) -> Option<Decoded> {
    let format = match format {
        ImageFormat::Png => image::ImageFormat::Png,
        ImageFormat::Jpeg => image::ImageFormat::Jpeg,
        ImageFormat::Gif => image::ImageFormat::Gif,
    };
    match image::load_from_memory_with_format(bytes, format) {
        Ok(img) => {
            let raw_len = img.as_bytes().len();
            let rgba = img.into_rgba8();
            Some(Decoded { width: rgba.width(), height: rgba.height(), rgba: rgba.into_raw(), raw_len })
        }
        Err(_) => None,
    }
}

fn load(path: &str, bytes: &Vec<u8>, load_time: u64) -> Result<LoadedImage, Error> {
    let format = image_format(path, bytes)?;
    load_image(path.to_string(), decode(bytes, format), load_time)
}

fn task(path: &str, bytes: &Vec<u8>, settings: &HashSettings) -> WorkResult {
    let format = image_format(path, bytes)?;
    load_and_hash(path.to_string(), decode(bytes, format), 0, settings)
}

fn gray_rgba(values: &[u8]) -> Vec<u8> {
    let mut px = Vec::new();
    for v in values {
        px.extend_from_slice(&[*v, *v, *v, 255]);
    }
    px
}

#[test]
fn identical_files() {
    let bytes = png_bytes(32, 24, pattern(32, 24));
    let settings = HashSettings::new(8, HashType::Mean).unwrap();
    let mut images = Vec::new();
    for name in ["a.png", "b.png", "c.png"] {
        images.push(task(name, &bytes, &settings).unwrap());
    }
    let collated = collate_images(images).unwrap();
    let similars = collate(&collated.tree, CompareMode::KNearest(2));
    assert_eq!(similars[0], vec![Neighbor { index: 1, dist: 0 }, Neighbor { index: 2, dist: 0 }]);
    assert_eq!(similars[1], vec![Neighbor { index: 0, dist: 0 }, Neighbor { index: 2, dist: 0 }]);
    assert_eq!(similars[2], vec![Neighbor { index: 0, dist: 0 }, Neighbor { index: 1, dist: 0 }]);
}

#[test]
fn rotated_copy() {
    let upright = image::RgbaImage::from_raw(32, 32, pattern(32, 32)).unwrap();
    let turned = image::imageops::rotate90(&upright);
    let a = RgbaImage::new(32, 32, upright.into_raw()).unwrap();
    let b = RgbaImage::new(32, 32, turned.into_raw()).unwrap();
    for kind in [HashType::Mean, HashType::DCT] {
        let settings = HashSettings::new(8, kind).unwrap();
        let ha = hash_image(&settings, &a).unwrap();
        let hb = hash_image(&settings, &b).unwrap();
        assert!(ha.distance(&hb).unwrap() > 0);
    }
}

#[test]
fn format_is_told_from_the_bytes_not_the_name() {
    let bytes = jpeg_bytes(16, 12, pattern(16, 12));
    let loaded = load("photo.png", &bytes, 0).unwrap();
    assert_eq!(loaded.image.path, "photo.png");
    assert_eq!(loaded.image.dimensions, (16, 12));
    assert_eq!(loaded.data.width(), 16);
    assert_eq!(loaded.data.height(), 12);
    let settings = HashSettings::default();
    let hashed = task("photo.png", &bytes, &settings).unwrap();
    assert_eq!(hashed.hash.size(), 56);
    let mut status = WorkStatus::default();
    status.record(&Ok(hashed));
    assert_eq!(status.errors, 0);
    assert_eq!(status.count, 1);
}

#[test]
fn corrupt_file() {
    let bytes = noise(128, 42);
    let settings = HashSettings::default();
    let result = task("bad.png", &bytes, &settings);
    let error = result.unwrap_err();
    assert_eq!(error.path, "bad.png");
    assert_eq!(error.kind, ErrorKind::Decode);
    assert_eq!(error.kind.name(), "decode");
    assert!(!error.kind.is_fatal());
    let mut status = WorkStatus::default();
    status.record(&Err(error));
    assert_eq!(status.errors, 1);
    assert_eq!(status.count, 0);
}

#[test]
fn a_signature_alone_is_no_image() {
    let mut bytes = vec![0x89, 0x50, 0x4e, 0x47, 0x0d, 0x0a, 0x1a, 0x0a];
    bytes.extend_from_slice(&noise(64, 7));
    let error = load("cut.png", &bytes, 0).unwrap_err();
    assert_eq!(error.kind, ErrorKind::Decode);
    let error = load("empty.png", &vec![], 0).unwrap_err();
    assert_eq!(error.kind, ErrorKind::Decode);
    let truncated: Vec<u8> = png_bytes(8, 8, pattern(8, 8)).into_iter().take(40).collect();
    let error = load("short.png", &truncated, 0).unwrap_err();
    assert_eq!(error.kind, ErrorKind::Decode);
}

#[test]
fn loading_records_size_and_time() {
    let bytes = png_bytes(5, 3, pattern(5, 3));
    let loaded = load("x", &bytes, 1000).unwrap();
    assert_eq!(loaded.image.dimensions, (5, 3));
    assert_eq!(loaded.image.loaded_size, 5 * 3 * 4);
    assert_eq!(loaded.image.load_time, 1000);
    assert_eq!(loaded.data.pixels(), &pattern(5, 3));
    let bytes = jpeg_bytes(8, 8, pattern(8, 8));
    let loaded = load("y", &bytes, 0).unwrap();
    assert_eq!(loaded.image.loaded_size, 8 * 8 * 3);
    assert_eq!(loaded.data.pixels().len(), 8 * 8 * 4);
    let bytes = gif_bytes(4, 4, pattern(4, 4));
    let loaded = load("z", &bytes, 0).unwrap();
    assert_eq!(loaded.image.dimensions, (4, 4));
    assert_eq!(loaded_size(10, 4), 40);
    assert_eq!(loaded_size(usize::MAX, usize::MAX), u64::MAX);
}

#[test]
fn decoder_output_must_fit_its_size() {
    let good = Decoded { width: 2, height: 1, rgba: vec![0; 8], raw_len: 6 };
    let loaded = LoadedImage::from_decoded("p".to_string(), good, 12).unwrap();
    assert_eq!(loaded.image.loaded_size, 6);
    assert_eq!(loaded.image.load_time, 12);
    assert_eq!(loaded.image.dimensions, (2, 1));
    let bad = Decoded { width: 2, height: 1, rgba: vec![0; 7], raw_len: 7 };
    let error = LoadedImage::from_decoded("p".to_string(), bad, 0).unwrap_err();
    assert_eq!(error.kind, ErrorKind::Decode);
    assert_eq!(error.path, "p");
}

#[test]
fn every_kind_gives_its_bit_length() {
    let image = RgbaImage::new(40, 30, pattern(40, 30)).unwrap();
    for (kind, bits) in [
        (HashType::Mean, 64usize),
        (HashType::Gradient, 56),
        (HashType::DoubleGradient, 112),
        (HashType::DCT, 64),
        (HashType::Block, 64),
    ] {
        let settings = HashSettings::new(8, kind).unwrap();
        let hash = hash_image(&settings, &image).unwrap();
        assert_eq!(hash.size(), bits);
        assert_eq!(Some(hash.size()), settings.bit_length());
    }
    for size in [1u32, 2, 3, 5, 16] {
        for kind in [HashType::Mean, HashType::Gradient, HashType::DoubleGradient, HashType::DCT, HashType::Block] {
            let settings = HashSettings::new(size, kind).unwrap();
            let hash = hash_image(&settings, &image).unwrap();
            assert_eq!(Some(hash.size()), settings.bit_length());
        }
    }
}

#[test]
fn mean_hash_of_a_small_image() {
    let image = RgbaImage::new(2, 2, gray_rgba(&[10, 20, 30, 40])).unwrap();
    let settings = HashSettings::new(2, HashType::Mean).unwrap();
    let hash = hash_image(&settings, &image).unwrap();
    assert_eq!(hash.as_bytes(), &vec![0b1100u8]);
}

#[test]
fn hashes_after_shrinking() {
    let values = [
        10, 10, 20, 20, //
        10, 10, 20, 20, //
        30, 30, 40, 40, //
        30, 30, 40, 40,
    ];
    let image = RgbaImage::new(4, 4, gray_rgba(&values)).unwrap();
    let gray = normalise(&image, 2, ResizeFilter::Nearest).unwrap();
    assert_eq!(gray.width(), 2);
    assert_eq!(gray.height(), 2);
    assert_eq!(gray.pixels(), &vec![10u8, 20, 30, 40]);
    let mean = hash_image(&HashSettings::new(2, HashType::Mean).unwrap(), &image).unwrap();
    assert_eq!(mean.as_bytes(), &vec![0b1100u8]);
    let grad = hash_image(&HashSettings::new(2, HashType::Gradient).unwrap(), &image).unwrap();
    assert_eq!(grad.as_bytes(), &vec![0b11u8]);
    let dbl = hash_image(&HashSettings::new(2, HashType::DoubleGradient).unwrap(), &image).unwrap();
    assert_eq!(dbl.as_bytes(), &vec![0b1111u8]);
    let block = hash_image(&HashSettings::new(2, HashType::Block).unwrap(), &image).unwrap();
    assert_eq!(block.as_bytes(), &vec![0b1100u8]);
}

#[test]
fn what_cannot_be_hashed_is_reported_as_undecodable() {
    let image = RgbaImage::new(4, 4, pattern(4, 4)).unwrap();
    let zero = HashSettings { hash_size: 0, hash_type: HashType::Mean };
    assert_eq!(hash_image(&zero, &image).unwrap_err(), ErrorKind::Decode);
    let blocks = HashSettings::new(5, HashType::Block).unwrap();
    assert_eq!(hash_image(&blocks, &image).unwrap_err(), ErrorKind::Decode);
    let huge = HashSettings::new(70_000, HashType::DCT).unwrap();
    assert_eq!(hash_image(&huge, &image).unwrap_err(), ErrorKind::Decode);
    let empty = RgbaImage::new(0, 0, vec![]).unwrap();
    for kind in [HashType::Mean, HashType::Gradient, HashType::DoubleGradient, HashType::DCT, HashType::Block] {
        let settings = HashSettings::new(8, kind).unwrap();
        assert_eq!(hash_image(&settings, &empty).unwrap_err(), ErrorKind::Decode);
    }
    assert!(normalise(&empty, 8, ResizeFilter::Nearest).is_none());
    assert!(normalise(&image, 0, ResizeFilter::Triangle).is_none());
}

#[test]
fn hashing_keeps_the_record_of_the_image() {
    let bytes = png_bytes(16, 16, pattern(16, 16));
    let loaded = load("keep.png", &bytes, 3).unwrap();
    let hashed = loaded.hash(&HashSettings::new(4, HashType::Block).unwrap()).unwrap();
    assert_eq!(hashed.image.path, "keep.png");
    assert_eq!(hashed.image.dimensions, (16, 16));
    assert_eq!(hashed.hash.size(), 16);
    let loaded = load("small.png", &png_bytes(2, 2, pattern(2, 2)), 0).unwrap();
    let error = loaded.hash(&HashSettings::new(4, HashType::Block).unwrap()).unwrap_err();
    assert_eq!(error.path, "small.png");
    assert_eq!(error.kind, ErrorKind::Decode);
}

#[test]
fn the_same_image_hashes_the_same() {
    let image = RgbaImage::new(40, 30, pattern(40, 30)).unwrap();
    for kind in [HashType::Mean, HashType::Gradient, HashType::DoubleGradient, HashType::DCT, HashType::Block] {
        let settings = HashSettings::new(8, kind).unwrap();
        let a = hash_image(&settings, &image).unwrap();
        let b = hash_image(&settings, &image).unwrap();
        assert_eq!(a.distance(&b), Ok(0));
    }
}

#[test]
fn formats_are_known_by_their_first_bytes() {
    assert_eq!(image_format("a", &png_bytes(2, 2, pattern(2, 2))), Ok(ImageFormat::Png));
    assert_eq!(image_format("a", &jpeg_bytes(8, 8, pattern(8, 8))), Ok(ImageFormat::Jpeg));
    assert_eq!(image_format("a", &gif_bytes(2, 2, pattern(2, 2))), Ok(ImageFormat::Gif));
    assert_eq!(image_format("a", &b"GIF87a".to_vec()), Ok(ImageFormat::Gif));
    assert_eq!(image_format("a", &vec![0xff, 0xd8, 0xff]), Ok(ImageFormat::Jpeg));
    for other in [&b"BM1234"[..], &b"RIFF"[..], &b"GIF88a"[..], &[0xff, 0xd8][..], &b""[..], &[0x89, 0x50][..]] {
        let error = image_format("odd.png", &other.to_vec()).unwrap_err();
        assert_eq!(error.path, "odd.png");
        assert_eq!(error.kind, ErrorKind::Decode);
    }
}

#[test]
fn a_file_that_did_not_decode_is_undecodable() {
    let error = load_image("gone.png".to_string(), None, 5).unwrap_err();
    assert_eq!(error, Error::decode("gone.png".to_string()));
    let settings = HashSettings::default();
    let error = load_and_hash("gone.png".to_string(), None, 5, &settings).unwrap_err();
    assert_eq!(error, Error::decode("gone.png".to_string()));
}

#[test]
fn a_task_keeps_what_is_known_of_the_file() {
    let values = [
        10, 10, 20, 20, //
        10, 10, 20, 20, //
        30, 30, 40, 40, //
        30, 30, 40, 40,
    ];
    let decoded = Decoded { width: 4, height: 4, rgba: gray_rgba(&values), raw_len: 48 };
    let settings = HashSettings::new(2, HashType::Mean).unwrap();
    let hashed = load_and_hash("k.png".to_string(), Some(decoded), 77, &settings).unwrap();
    assert_eq!(hashed.image.path, "k.png");
    assert_eq!(hashed.image.dimensions, (4, 4));
    assert_eq!(hashed.image.loaded_size, 48);
    assert_eq!(hashed.image.load_time, 77);
    assert_eq!(hashed.hash.as_bytes(), &vec![0b1100u8]);
    let hasher = HashSettings::new(2, HashType::Block).unwrap().prepare();
    let decoded = Decoded { width: 4, height: 4, rgba: gray_rgba(&values), raw_len: 64 };
    let hashed = load_and_hash_with("k.png".to_string(), Some(decoded), 1, &hasher).unwrap();
    assert_eq!(hashed.image.loaded_size, 64);
    assert_eq!(hashed.hash.as_bytes(), &vec![0b1100u8]);
    let short = Decoded { width: 4, height: 4, rgba: vec![0; 63], raw_len: 63 };
    let error = load_and_hash_with("s.png".to_string(), Some(short), 1, &hasher).unwrap_err();
    assert_eq!(error, Error::decode("s.png".to_string()));
}

#[test]
fn a_good_file_beside_a_corrupt_one_gets_the_hash_it_gets_alone() {
    let good = png_bytes(32, 24, pattern(32, 24));
    let bad = noise(128, 42);
    for kind in [HashType::Mean, HashType::Gradient, HashType::DoubleGradient, HashType::DCT, HashType::Block] {
        let settings = HashSettings::new(8, kind).unwrap();
        let alone = task("good.png", &good, &settings).unwrap();
        let run: Vec<WorkResult> = vec![
            task("first.png", &good, &settings),
            task("bad.png", &bad, &settings),
            task("last.png", &good, &settings),
        ];
        assert_eq!(run[1].as_ref().unwrap_err().path, "bad.png");
        assert_eq!(run[1].as_ref().unwrap_err().kind, ErrorKind::Decode);
        assert_eq!(run[0].as_ref().unwrap().hash, alone.hash);
        assert_eq!(run[2].as_ref().unwrap().hash, alone.hash);
        assert_eq!(run[2].as_ref().unwrap().image.path, "last.png");
    }
}

#[test]
fn the_cosine_table_is_made_for_the_cosine_hash_alone() {
    for kind in [HashType::Mean, HashType::Gradient, HashType::DoubleGradient, HashType::Block] {
        assert!(!HashSettings::new(8, kind).unwrap().prepare().table_ready());
    }
    assert!(HashSettings::new(8, HashType::DCT).unwrap().prepare().table_ready());
    assert!(HashSettings::new(0xffff, HashType::DCT).unwrap().prepare().table_ready());
    assert!(!HashSettings::new(0x10000, HashType::DCT).unwrap().prepare().table_ready());
    assert!(!HashSettings { hash_size: 0, hash_type: HashType::DCT }.prepare().table_ready());
    // making ready again gives the same
    let settings = HashSettings::new(4, HashType::DCT).unwrap();
    assert_eq!(settings.prepare().settings(), settings.prepare().settings());
}

#[test]
fn the_cosine_transform_starts_from_four_times_the_hash_size() {
    let image = RgbaImage::new(40, 30, pattern(40, 30)).unwrap();
    let gray = cosine_input(&image, 3).unwrap();
    assert_eq!(gray.width(), 12);
    assert_eq!(gray.height(), 12);
    let blended = normalise(&image, 12, ResizeFilter::Triangle).unwrap();
    let nearest = normalise(&image, 12, ResizeFilter::Nearest).unwrap();
    assert_eq!(gray.pixels(), blended.pixels());
    assert_ne!(gray.pixels(), nearest.pixels());
    assert!(cosine_input(&image, 0).is_none());
    assert!(cosine_input(&image, u32::MAX / 4 + 1).is_none());
    assert!(cosine_input(&RgbaImage::new(0, 0, vec![]).unwrap(), 3).is_none());
}
