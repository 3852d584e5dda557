use rand::SeedableRng;
use wuerfeln::common::ToByteArray;
use wuerfeln::entropy::{face_from_byte, roll_native, roll_with_fallback};

fn rng(seed: u64) -> rand::rngs::StdRng {
    rand::rngs::StdRng::seed_from_u64(seed)
}

#[test]
fn byte_array_is_little_endian() {
    let bytes = 0x0102030405060708u64.to_byte_array();
    assert_eq!(bytes, [0x08, 0x07, 0x06, 0x05, 0x04, 0x03, 0x02, 0x01]);
}

#[test]
fn face_from_byte_wraps_and_shifts() {
    assert_eq!(face_from_byte(0, 6), 1);
    assert_eq!(face_from_byte(5, 6), 6);
    assert_eq!(face_from_byte(6, 6), 1);
    assert_eq!(face_from_byte(255, 6), 4);
    assert_eq!(face_from_byte(200, 1), 1);
}

#[test]
fn native_roll_uses_word_bytes() {
    let words: Vec<u64> = vec![0x0807060504030201];
    let res = roll_native(8, 6, &words).expect("one word covers eight faces");
    let data = res.data.expect("the native path is itemized");
    // bytes 1..=8, least significant first, reduced by (byte % 6) + 1
    assert_eq!(data, vec![2, 3, 4, 5, 6, 1, 2, 3]);
    assert_eq!(res.count, 8);
    assert_eq!(res.sides, 6);
}

#[test]
fn native_roll_truncates_to_request() {
    let words: Vec<u64> = vec![0, 0];
    let res = roll_native(11, 10, &words).expect("two words cover eleven faces");
    let data = res.data.unwrap();
    assert_eq!(data.len(), 11);
    for &face in &data {
        assert_eq!(face, 1);
    }
}

/// Hardware fallback: without entropy words the native path signals
/// fallback, and the fallback still returns valid face values.
#[test]
fn fallback_when_hardware_gives_nothing() {
    let words: Vec<u64> = Vec::new();
    assert!(roll_native(10, 6, &words).is_none());

    let mut g = rng(3);
    let res = roll_with_fallback(10, 6, true, &words, &mut g);
    let data = res.data.expect("the fallback keeps the requested mode");
    assert_eq!(data.len(), 10);
    for &face in &data {
        assert!(1 <= face && face <= 6);
    }
}

#[test]
fn no_fallback_when_words_cover_request() {
    let words: Vec<u64> = vec![0x123456789ABCDEF0, 0xFEDCBA9876543210];
    let mut g = rng(4);
    let native = roll_native(16, 20, &words).unwrap();
    let combined = roll_with_fallback(16, 20, false, &words, &mut g);
    // with enough words the fallback path returns exactly the native roll
    assert_eq!(native.data, combined.data);
    for &face in combined.data.as_ref().unwrap() {
        assert!(1 <= face && face <= 20);
    }
}
