use img_dup::hash::{HashSettings, HashType};
use img_dup::kernels::{block_bits, double_gradient_bits, gradient_bits, mean_bits};
use img_dup::pixels::{luminance, GrayImage, RgbaImage};

#[test]
fn luminance_of_primaries() {
    assert_eq!(luminance(255, 255, 255), 255);
    assert_eq!(luminance(0, 0, 0), 0);
    assert_eq!(luminance(255, 0, 0), 76);
    assert_eq!(luminance(0, 255, 0), 150);
    assert_eq!(luminance(0, 0, 255), 29);
    // 0.299 * 10 + 0.587 * 20 + 0.114 * 30 = 18.15
    assert_eq!(luminance(10, 20, 30), 18);
    // 0.299 * 1 + 0.587 * 1 + 0.114 * 3 = 1.228, and 2 * 0.299 + 0.587 = 1.185
    assert_eq!(luminance(2, 1, 0), 1);
    // 0.299 * 5 = 1.495 rounds down, 0.299 * 6 = 1.794 rounds up
    assert_eq!(luminance(5, 0, 0), 1);
    assert_eq!(luminance(6, 0, 0), 2);
}

#[test]
fn gray_of_an_rgba_image() {
    let img = RgbaImage::new(2, 1, vec![255, 0, 0, 255, 0, 0, 255, 7]).unwrap();
    let gray = img.to_gray();
    assert_eq!(gray.width(), 2);
    assert_eq!(gray.height(), 1);
    assert_eq!(gray.pixels(), &vec![76u8, 29u8]);
}

#[test]
fn images_must_have_all_their_samples() {
    assert!(RgbaImage::new(2, 2, vec![0; 16]).is_some());
    assert!(RgbaImage::new(2, 2, vec![0; 15]).is_none());
    assert!(RgbaImage::new(0, 5, vec![]).is_some());
    assert!(GrayImage::new(3, 2, vec![0; 6]).is_some());
    assert!(GrayImage::new(3, 2, vec![0; 7]).is_none());
}

#[test]
fn mean_hash_compares_with_the_exact_mean() {
    let gray = GrayImage::new(2, 2, vec![10, 20, 30, 40]).unwrap();
    assert_eq!(mean_bits(&gray), vec![false, false, true, true]);
    // the mean of 1, 2, 2 is 5/3: only the 2s reach it
    let gray = GrayImage::new(3, 1, vec![1, 2, 2]).unwrap();
    assert_eq!(mean_bits(&gray), vec![false, true, true]);
    // the mean of 0, 0, 1 is 1/3: zero is below it, though not below its whole part
    let gray = GrayImage::new(3, 1, vec![0, 0, 1]).unwrap();
    assert_eq!(mean_bits(&gray), vec![false, false, true]);
}

#[test]
fn mean_hash_of_equal_pixels_is_all_ones() {
    let gray = GrayImage::new(2, 2, vec![5, 5, 5, 5]).unwrap();
    assert_eq!(mean_bits(&gray), vec![true, true, true, true]);
}

#[test]
fn gradient_hash_goes_row_by_row() {
    let gray = GrayImage::new(3, 2, vec![1, 2, 2, 9, 3, 4]).unwrap();
    assert_eq!(gradient_bits(&gray), vec![true, false, false, true]);
}

#[test]
fn double_gradient_appends_the_columns() {
    let gray = GrayImage::new(3, 2, vec![1, 2, 2, 9, 3, 4]).unwrap();
    assert_eq!(
        double_gradient_bits(&gray),
        vec![true, false, false, true, true, true, true]
    );
    let gray = GrayImage::new(2, 3, vec![5, 6, 7, 1, 7, 9]).unwrap();
    // rows: 5<6, 7<1, 7<9; columns: 5<7, 7<7, then 6<1, 1<9
    assert_eq!(
        double_gradient_bits(&gray),
        vec![true, false, true, true, false, false, true]
    );
}

#[test]
fn gradient_of_narrow_images_is_empty() {
    let gray = GrayImage::new(1, 4, vec![1, 2, 3, 4]).unwrap();
    assert_eq!(gradient_bits(&gray), Vec::<bool>::new());
    assert_eq!(double_gradient_bits(&gray), vec![true, true, true]);
    let gray = GrayImage::new(0, 0, vec![]).unwrap();
    assert_eq!(gradient_bits(&gray), Vec::<bool>::new());
    assert_eq!(double_gradient_bits(&gray), Vec::<bool>::new());
    assert_eq!(mean_bits(&gray), Vec::<bool>::new());
}

#[test]
fn block_hash_compares_block_means() {
    let px = vec![
        10, 10, 20, 20, //
        10, 10, 20, 20, //
        30, 30, 40, 40, //
        30, 30, 40, 40,
    ];
    let gray = GrayImage::new(4, 4, px).unwrap();
    assert_eq!(block_bits(&gray, 2), Some(vec![false, false, true, true]));
    assert_eq!(block_bits(&gray, 1), Some(vec![true]));
}

#[test]
fn block_hash_ignores_what_is_left_over() {
    let px = vec![
        10, 10, 20, 20, 255, //
        10, 10, 20, 20, 255, //
        30, 30, 40, 40, 255, //
        30, 30, 40, 40, 255, //
        255, 255, 255, 255, 255,
    ];
    let gray = GrayImage::new(5, 5, px).unwrap();
    assert_eq!(block_bits(&gray, 2), Some(vec![false, false, true, true]));
}

#[test]
fn block_hash_needs_a_pixel_for_each_block() {
    let gray = GrayImage::new(3, 3, vec![1; 9]).unwrap();
    assert_eq!(block_bits(&gray, 0), None);
    assert_eq!(block_bits(&gray, 4), None);
    assert_eq!(block_bits(&gray, 3), Some(vec![true; 9]));
    let gray = GrayImage::new(4, 2, vec![1; 8]).unwrap();
    assert_eq!(block_bits(&gray, 3), None);
}

#[test]
fn bit_lengths_follow_the_table() {
    let kinds = [
        (HashType::Mean, 64usize),
        (HashType::Gradient, 56),
        (HashType::DoubleGradient, 112),
        (HashType::DCT, 64),
        (HashType::Block, 64),
    ];
    for (kind, bits) in kinds.iter() {
        let settings = HashSettings::new(8, *kind).unwrap();
        assert_eq!(settings.bit_length(), Some(*bits));
    }
    let one = HashSettings::new(1, HashType::Gradient).unwrap();
    assert_eq!(one.bit_length(), Some(0));
    let big = HashSettings::new(3, HashType::DoubleGradient).unwrap();
    assert_eq!(big.bit_length(), Some(12));
    assert!(HashSettings::new(0, HashType::Mean).is_none());
}

#[test]
fn kernel_lengths_on_a_square() {
    let n = 5usize;
    let gray = GrayImage::new(n, n, (0..25u8).collect()).unwrap();
    assert_eq!(mean_bits(&gray).len(), n * n);
    assert_eq!(gradient_bits(&gray).len(), n * (n - 1));
    assert_eq!(double_gradient_bits(&gray).len(), 2 * n * (n - 1));
    assert_eq!(block_bits(&gray, n).unwrap().len(), n * n);
}

#[test]
fn target_sides() {
    assert_eq!(HashType::Mean.hash_size(8), Some(8));
    assert_eq!(HashType::Gradient.hash_size(8), Some(8));
    assert_eq!(HashType::DoubleGradient.hash_size(8), Some(8));
    assert_eq!(HashType::DCT.hash_size(8), Some(32));
    assert_eq!(HashType::Block.hash_size(8), Some(0));
    assert_eq!(HashType::DCT.hash_size(u32::MAX), None);
    assert_eq!(HashType::DCT.hash_size(u32::MAX / 4), Some(u32::MAX / 4 * 4));
}
