use tracing_ohos::cbytes::{contains_nul, CBytes};
use tracing_ohos::tag::{CappedTag, LOGGING_TAG_MAX_LEN, TAG_KEPT_LEN};
use tracing_ohos::{layer, EncodingError};

#[test]
fn short_tag_is_kept_as_it_is() {
    let tag = CappedTag::new(b"mytagname").unwrap();
    assert_eq!(tag.as_bytes(), b"mytagname");
    assert_eq!(tag.len(), 9);
}

#[test]
fn empty_tag_is_accepted() {
    let tag = CappedTag::new(b"").unwrap();
    assert_eq!(tag.as_bytes(), b"");
    assert_eq!(tag.len(), 0);
    assert_eq!(tag.as_bytes_with_nul(), b"\0");
}

#[test]
fn tag_of_exactly_the_limit_is_kept_as_it_is() {
    let input = b"abcdefghijklmnopqrstuvw";
    assert_eq!(input.len(), LOGGING_TAG_MAX_LEN);
    let tag = CappedTag::new(input).unwrap();
    assert_eq!(tag.as_bytes(), input);
    assert_eq!(tag.len(), 23);
}

#[test]
fn tag_one_over_the_limit_is_shortened() {
    let input = b"abcdefghijklmnopqrstuvwx";
    assert_eq!(input.len(), 24);
    let tag = CappedTag::new(input).unwrap();
    assert_eq!(tag.as_bytes(), b"abcdefghijklmnopqrstu..");
    assert_eq!(tag.len(), 23);
}

#[test]
fn long_tag_keeps_21_bytes_and_ends_in_two_dots() {
    let input = b"abcdefghijklmnopqrstuvwxyz0123";
    assert_eq!(input.len(), 30);
    let tag = CappedTag::new(input).unwrap();
    assert_eq!(tag.len(), 23);
    assert_eq!(&tag.as_bytes()[..TAG_KEPT_LEN], &input[..21]);
    assert_eq!(&tag.as_bytes()[21..], b"..");
    assert_eq!(tag.as_bytes(), b"abcdefghijklmnopqrstu..");
}

#[test]
fn tag_is_nul_terminated() {
    let tag = CappedTag::new(b"mytagname").unwrap();
    assert_eq!(tag.as_bytes_with_nul(), b"mytagname\0");
    let long = CappedTag::new(b"abcdefghijklmnopqrstuvwxyz0123").unwrap();
    assert_eq!(long.as_bytes_with_nul(), b"abcdefghijklmnopqrstu..\0");
}

#[test]
fn short_tag_with_a_zero_byte_is_refused() {
    assert!(matches!(CappedTag::new(b"my\0tag"), Err(EncodingError)));
    assert!(matches!(CappedTag::new(b"\0"), Err(EncodingError)));
    assert!(matches!(CappedTag::new(b"mytag\0"), Err(EncodingError)));
}

#[test]
fn long_tag_with_a_zero_byte_in_what_is_kept_is_refused() {
    let mut input = b"abcdefghijklmnopqrstuvwxyz0123".to_vec();
    input[20] = 0;
    assert!(matches!(CappedTag::new(&input), Err(EncodingError)));
    input[20] = b'u';
    input[0] = 0;
    assert!(matches!(CappedTag::new(&input), Err(EncodingError)));
}

#[test]
fn long_tag_with_a_zero_byte_in_what_is_cut_is_accepted() {
    let mut input = b"abcdefghijklmnopqrstuvwxyz0123".to_vec();
    input[21] = 0;
    input[29] = 0;
    let tag = CappedTag::new(&input).unwrap();
    assert_eq!(tag.as_bytes(), b"abcdefghijklmnopqrstu..");
}

#[test]
fn every_short_tag_without_a_zero_byte_is_kept() {
    for len in 0..=23usize {
        let input: Vec<u8> = (0..len).map(|i| 1 + (i * 11 % 255) as u8).collect();
        let tag = CappedTag::new(&input).unwrap();
        assert_eq!(tag.as_bytes(), &input[..]);
    }
}

#[test]
fn every_long_tag_has_23_bytes() {
    for len in [24usize, 25, 40, 100, 4000, 5000] {
        let input: Vec<u8> = (0..len).map(|i| 1 + (i % 255) as u8).collect();
        let tag = CappedTag::new(&input).unwrap();
        assert_eq!(tag.len(), 23);
        assert_eq!(&tag.as_bytes()[..21], &input[..21]);
        assert_eq!(&tag.as_bytes()[21..], b"..");
    }
}

#[test]
fn zero_bytes_are_found() {
    assert!(!contains_nul(b""));
    assert!(!contains_nul(b"abc"));
    assert!(contains_nul(b"\0"));
    assert!(contains_nul(b"ab\0"));
    assert!(contains_nul(b"\0ab"));
}

#[test]
fn bytes_are_terminated() {
    let text = CBytes::new(b"hello".to_vec()).unwrap();
    assert_eq!(text.len(), 5);
    assert_eq!(text.as_bytes(), b"hello");
    assert_eq!(text.as_bytes_with_nul(), b"hello\0");
    let empty = CBytes::new(Vec::new()).unwrap();
    assert_eq!(empty.len(), 0);
    assert_eq!(empty.as_bytes_with_nul(), b"\0");
}

#[test]
fn bytes_with_a_zero_byte_are_not_terminated() {
    assert!(matches!(CBytes::new(b"he\0llo".to_vec()), Err(EncodingError)));
    assert!(matches!(CBytes::new(b"hello\0".to_vec()), Err(EncodingError)));
}

#[test]
fn layer_caps_its_tag() {
    let l = layer(0x0000, "homogrape").unwrap();
    assert_eq!(l.domain(), 0);
    assert_eq!(l.tag().as_bytes(), b"homogrape");
    let l = layer(0xbeef, "abcdefghijklmnopqrstuvwxyz0123").unwrap();
    assert_eq!(l.domain(), 0xbeef);
    assert_eq!(l.tag().as_bytes(), b"abcdefghijklmnopqrstu..");
}

#[test]
fn layer_caps_bytes_not_characters() {
    // 12 characters of two bytes each: 24 bytes, so the tag is cut after the
    // 21st byte, in the middle of a character.
    let name = "éééééééééééé";
    assert_eq!(name.len(), 24);
    let l = layer(1, name).unwrap();
    let mut expected = name.as_bytes()[..21].to_vec();
    expected.extend_from_slice(b"..");
    assert_eq!(l.tag().as_bytes(), &expected[..]);
}

#[test]
fn layer_refuses_a_zero_byte() {
    assert!(matches!(layer(0, "homo\0grape"), Err(EncodingError)));
    assert!(layer(0, "abcdefghijklmnopqrstuvwxyz\0").is_ok());
}
