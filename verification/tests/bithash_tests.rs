use img_dup::base64::{decode, encode};
use img_dup::bithash::BitHash;
use img_dup::error::ErrorKind;

fn bits_of(text: &str) -> Vec<bool> {
    text.chars().filter(|c| *c == '0' || *c == '1').map(|c| c == '1').collect()
}

#[test]
fn distance_counts_differing_bits() {
    let a = BitHash::from_bools(&bits_of("101100101"));
    let b = BitHash::from_bools(&bits_of("111000100"));
    assert_eq!(a.distance(&b), Ok(3));
    assert_eq!(b.distance(&a), Ok(3));
    assert_eq!(a.distance(&a), Ok(0));
}

#[test]
fn distance_is_bounded_by_size() {
    let zeros = BitHash::from_bools(&vec![false; 13]);
    let ones = BitHash::from_bools(&vec![true; 13]);
    assert_eq!(zeros.distance(&ones), Ok(13));
    assert_eq!(ones.size(), 13);
}

#[test]
fn distance_of_unequal_sizes_is_a_mismatch() {
    let a = BitHash::from_bools(&bits_of("101"));
    let b = BitHash::from_bools(&bits_of("1010"));
    assert_eq!(a.distance(&b), Err(ErrorKind::DimensionMismatch));
    assert!(a.distance(&b).unwrap_err().is_fatal());
}

#[test]
fn distance_of_empty_hashes_is_zero() {
    let a = BitHash::from_bools(&vec![]);
    let b = BitHash::from_bools(&vec![]);
    assert_eq!(a.distance(&b), Ok(0));
    assert_eq!(a.size(), 0);
}

#[test]
fn triangle_inequality_on_samples() {
    let a = BitHash::from_bools(&bits_of("0000 1111 0101"));
    let b = BitHash::from_bools(&bits_of("1100 1010 0111"));
    let c = BitHash::from_bools(&bits_of("1111 0000 1111"));
    let ab = a.distance(&b).unwrap();
    let bc = b.distance(&c).unwrap();
    let ac = a.distance(&c).unwrap();
    assert_eq!(ab, 5);
    assert_eq!(bc, 5);
    assert_eq!(ac, 10);
    assert!(ac <= ab + bc);
}

#[test]
fn bits_are_packed_from_the_low_end() {
    let h = BitHash::from_bools(&bits_of("10000000 1"));
    assert_eq!(h.as_bytes(), &vec![0x01u8, 0x01u8]);
    assert_eq!(h.get(0), Some(true));
    assert_eq!(h.get(1), Some(false));
    assert_eq!(h.get(8), Some(true));
    assert_eq!(h.get(9), None);
}

#[test]
fn new_takes_canonical_bytes_only() {
    assert!(BitHash::new(12, vec![0xff, 0x0f]).is_some());
    assert!(BitHash::new(12, vec![0xff, 0x1f]).is_none());
    assert!(BitHash::new(12, vec![0xff]).is_none());
    assert!(BitHash::new(12, vec![0xff, 0x0f, 0x00]).is_none());
    assert!(BitHash::new(0, vec![]).is_some());
    assert!(BitHash::new(16, vec![0xff, 0xff]).is_some());
}

#[test]
fn padding_does_not_count_towards_distance() {
    let a = BitHash::new(4, vec![0x0f]).unwrap();
    let b = BitHash::new(4, vec![0x00]).unwrap();
    assert_eq!(a.distance(&b), Ok(4));
}

#[test]
fn base64_of_known_bytes() {
    assert_eq!(encode(&vec![]), "");
    assert_eq!(encode(&vec![0x4d]), "TQ==");
    assert_eq!(encode(&vec![0x4d, 0x61]), "TWE=");
    assert_eq!(encode(&vec![0x4d, 0x61, 0x6e]), "TWFu");
    assert_eq!(encode(&vec![0xfb, 0xff, 0xfe]), "+//+");
    assert_eq!(decode("TWFu"), Some(vec![0x4d, 0x61, 0x6e]));
    assert_eq!(decode("TWE="), Some(vec![0x4d, 0x61]));
    assert_eq!(decode("TQ=="), Some(vec![0x4d]));
    assert_eq!(decode(""), Some(vec![]));
}

#[test]
fn base64_rejects_what_is_no_encoding() {
    assert_eq!(decode("TWF"), None);
    assert_eq!(decode("TW!u"), None);
    assert_eq!(decode("TQ=a"), None);
    assert_eq!(decode("=QQQ"), None);
    assert_eq!(decode("TQ==TWFu"), None);
    // bits that no byte takes must be zero
    assert_eq!(decode("TR=="), None);
    assert_eq!(decode("TWF="), None);
}

#[test]
fn base64_round_trip_of_every_length() {
    let mut bytes: Vec<u8> = Vec::new();
    for n in 0..40u32 {
        let text = encode(&bytes);
        assert_eq!(text.len(), 4 * ((bytes.len() + 2) / 3));
        assert_eq!(decode(&text), Some(bytes.clone()));
        bytes.push((n * 37 + 11) as u8);
    }
}

#[test]
fn hash_round_trip_through_base64() {
    let h = BitHash::from_bools(&bits_of("1011 0010 0111 0101 001"));
    let text = h.to_base64();
    let back = BitHash::from_base64(&text, h.size()).unwrap();
    assert_eq!(back, h);
    assert!(back.same_bits(&h));
}

#[test]
fn hash_from_base64_checks_the_size() {
    let h = BitHash::from_bools(&vec![true; 16]);
    let text = h.to_base64();
    assert_eq!(text, "//8=");
    assert!(BitHash::from_base64(&text, 16).is_ok());
    assert_eq!(BitHash::from_base64(&text, 24).unwrap_err(), ErrorKind::Decode);
    assert_eq!(BitHash::from_base64(&text, 8).unwrap_err(), ErrorKind::Decode);
    // sixteen set bits do not fit a hash of twelve
    assert_eq!(BitHash::from_base64(&text, 12).unwrap_err(), ErrorKind::Decode);
    assert_eq!(BitHash::from_base64("??", 16).unwrap_err(), ErrorKind::Decode);
}

#[test]
fn same_bits_tells_hashes_apart() {
    let a = BitHash::from_bools(&bits_of("1010"));
    let b = BitHash::from_bools(&bits_of("1010"));
    let c = BitHash::from_bools(&bits_of("1011"));
    let d = BitHash::from_bools(&bits_of("10100"));
    assert!(a.same_bits(&b));
    assert!(!a.same_bits(&c));
    assert!(!a.same_bits(&d));
    assert!(a.clone().same_bits(&a));
}
