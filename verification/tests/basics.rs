use lscopy::dib::{extract_masked, rgba_from_dib, dib_from_bitmap};
use lscopy::hashing::{hash_bytes, hash_column};
use lscopy::imaging::{decode_image, encode_png, transcode_png};
use lscopy::numbers::{decimal, decimal_i64, hexadecimal, read_i64, read_u16};
use lscopy::strmap::{StrMap, StrSet};
use std::collections::hash_map::DefaultHasher;
use std::hash::{Hash, Hasher};
use lscopy::text::{in_order, lower, text_of_bytes, trimmed};

#[test]
fn numbers_are_written_and_read() {
    assert_eq!(decimal(0), "0");
    assert_eq!(decimal(u64::MAX), "18446744073709551615");
    assert_eq!(decimal_i64(i64::MIN), "-9223372036854775808");
    assert_eq!(hexadecimal(0xBEEF, 8), "0000beef");
    assert_eq!(read_u16("65535"), Some(65535));
    assert_eq!(read_u16("+80"), Some(80));
    assert_eq!(read_u16("65536"), None);
    assert_eq!(read_u16(""), None);
    assert_eq!(read_i64("-9223372036854775808"), Some(i64::MIN));
    assert_eq!(read_i64("-"), None);
    assert_eq!(read_i64("+7"), Some(7));
}

#[test]
fn written_numbers_read_back() {
    for n in [0i64, -1, 42, i64::MAX, i64::MIN] {
        assert_eq!(read_i64(&decimal_i64(n)), Some(n));
    }
    for n in [0u64, 7, 65535] {
        assert_eq!(read_u16(&decimal(n)), Some(n as u16));
    }
}

#[test]
fn texts_are_changed() {
    assert_eq!(lower("ABC xyz"), "abc xyz");
    assert_eq!(lower("ÄÖ"), "äö");
    assert_eq!(trimmed(" \t a b\u{3000}\n"), "a b");
    assert_eq!(text_of_bytes("héllo".as_bytes()), "héllo");
    assert_eq!(text_of_bytes(&[0x61, 0xFF, 0x62]), "a\u{FFFD}b");
}

#[test]
fn texts_are_ordered() {
    assert!(in_order("", "a"));
    assert!(in_order("a", "a"));
    assert!(in_order("Z", "a"));
    assert!(!in_order("b", "a"));
    assert!(in_order("ab", "abc"));
    assert!(in_order("z", "设"));
}

#[test]
fn tables_keep_one_value_for_each_key() {
    let mut m: StrMap<u64> = StrMap::new();
    m.insert("a".to_string(), 1);
    m.insert("b".to_string(), 2);
    m.insert("a".to_string(), 3);
    assert_eq!(m.get("a"), Some(&3));
    assert_eq!(m.keys().len(), 2);
    assert_eq!(m.remove("a"), Some(3));
    assert_eq!(m.remove("a"), None);
    assert!(!m.contains_key("a"));
    let mut s = StrSet::new();
    s.insert("x".to_string());
    s.insert("x".to_string());
    assert!(s.contains("x"));
    assert_eq!(s.items().len(), 1);
    s.remove("x");
    assert!(!s.contains("x"));
}

#[test]
fn hashes_tell_content_apart() {
    let mut h = DefaultHasher::new();
    b"abc"[..].hash(&mut h);
    assert_eq!(hash_bytes(b"abc"), h.finish());
    assert_ne!(hash_bytes(b"abc"), hash_bytes(b"abd"));
    assert_ne!(hash_bytes(b""), 0);
    assert_eq!(hash_column(5), 5);
    assert_eq!(hash_column(u64::MAX), -1);
    assert_eq!(hash_column(1 << 63), i64::MIN);
}

#[test]
fn masks_are_spread_over_a_byte() {
    assert_eq!(extract_masked(0xFFFF, 0), 0);
    assert_eq!(extract_masked(0x7C00, 0x7C00), 255);
    assert_eq!(extract_masked(0x4000, 0x7C00), 132);
    assert_eq!(extract_masked(0x00FF_0000, 0x00FF_0000), 255);
    assert_eq!(extract_masked(0x0012_0000, 0x00FF_0000), 0x12);
}

fn dib(width: i32, height: i32, bits: u16, compression: u32, rest: &[u8]) -> Vec<u8> {
    let mut d = vec![0u8; 40];
    d[0..4].copy_from_slice(&40u32.to_le_bytes());
    d[4..8].copy_from_slice(&width.to_le_bytes());
    d[8..12].copy_from_slice(&height.to_le_bytes());
    d[12..14].copy_from_slice(&1u16.to_le_bytes());
    d[14..16].copy_from_slice(&bits.to_le_bytes());
    d[16..20].copy_from_slice(&compression.to_le_bytes());
    d.extend_from_slice(rest);
    d
}

#[test]
fn bitmaps_are_read() {
    // two rows of one pixel, the lower one first
    let d = dib(1, 2, 32, 0, &[1, 2, 3, 4, 5, 6, 7, 8]);
    assert_eq!(rgba_from_dib(&d), Some((vec![7, 6, 5, 8, 3, 2, 1, 4], 1, 2)));
    // the upper one first
    let d = dib(1, -2, 32, 0, &[1, 2, 3, 4, 5, 6, 7, 8]);
    assert_eq!(rgba_from_dib(&d), Some((vec![3, 2, 1, 4, 7, 6, 5, 8], 1, 2)));
    // no opacity anywhere means opaque
    let d = dib(1, 1, 32, 0, &[1, 2, 3, 0]);
    assert_eq!(rgba_from_dib(&d), Some((vec![3, 2, 1, 255], 1, 1)));
    // rows are filled up to four bytes
    let d = dib(1, 2, 24, 0, &[1, 2, 3, 0, 4, 5, 6, 0]);
    assert_eq!(rgba_from_dib(&d), Some((vec![6, 5, 4, 255, 3, 2, 1, 255], 1, 2)));
    // five bits for each colour
    let d = dib(1, 1, 16, 0, &[0xFF, 0x7F]);
    assert_eq!(rgba_from_dib(&d), Some((vec![255, 255, 255, 255], 1, 1)));
    // masks after the header
    let mut rest = Vec::new();
    rest.extend_from_slice(&0xF800u32.to_le_bytes());
    rest.extend_from_slice(&0x07E0u32.to_le_bytes());
    rest.extend_from_slice(&0x001Fu32.to_le_bytes());
    rest.extend_from_slice(&[0x00, 0xF8]);
    let d = dib(1, 1, 16, 3, &rest);
    assert_eq!(rgba_from_dib(&d), Some((vec![255, 0, 0, 255], 1, 1)));
}

#[test]
fn the_sign_of_the_height_turns_the_rows() {
    let pixels: Vec<u8> = (1..=36).collect();
    let (up, w, h) = rgba_from_dib(&dib(3, 3, 32, 0, &pixels)).unwrap();
    let (down, v, g) = rgba_from_dib(&dib(3, -3, 32, 0, &pixels)).unwrap();
    assert_eq!((w, h, v, g), (3, 3, 3, 3));
    for y in 0..3 {
        assert_eq!(down[12 * y..12 * (y + 1)], up[12 * (2 - y)..12 * (3 - y)]);
    }
}

#[test]
fn other_bitmaps_are_not_read() {
    assert_eq!(rgba_from_dib(&[0; 39]), None);
    assert_eq!(rgba_from_dib(&dib(0, 1, 32, 0, &[0; 4])), None);
    assert_eq!(rgba_from_dib(&dib(1, 0, 32, 0, &[0; 4])), None);
    assert_eq!(rgba_from_dib(&dib(1, 1, 32, 1, &[0; 4])), None);
    assert_eq!(rgba_from_dib(&dib(1, 1, 8, 0, &[0; 2000])), None);
    assert_eq!(rgba_from_dib(&dib(2, 2, 32, 0, &[0; 8])), None);
}

#[test]
fn blank_bitmaps_are_made_to_be_filled() {
    let d = dib_from_bitmap(2, -3).unwrap();
    assert_eq!(d.len(), 40 + 24);
    assert_eq!(rgba_from_dib(&d), Some((vec![0, 0, 0, 255].repeat(6), 2, 3)));
    assert_eq!(dib_from_bitmap(0, 3), None);
    assert_eq!(dib_from_bitmap(3, 0), None);
}

#[test]
fn pictures_survive_png() {
    let pixels = vec![10u8, 20, 30, 255, 40, 50, 60, 128];
    let (png, w, h) = encode_png(pixels.clone(), 2, 1).unwrap();
    assert_eq!((w, h), (2, 1));
    assert_eq!(&png[1..4], b"PNG");
    assert_eq!(decode_image(&png), Ok((pixels, 2, 1)));
    assert_eq!(transcode_png(&png).map(|p| (p.1, p.2)), Some((2, 1)));
}

#[test]
fn too_few_pixels_make_no_picture() {
    assert_eq!(encode_png(vec![0; 7], 2, 1), None);
    assert!(decode_image(b"no picture").is_err());
    assert_eq!(transcode_png(b"no picture"), None);
}
