use easy2send::task_id::{bytes_to_task_id_hex, task_id_from_words, task_id_hex_to_bytes};
use easy2send::text::{decimal_string, parse_unsigned_bytes};

#[test]
fn task_id_hex_is_lowercase_two_digits_per_byte() {
    let bytes: [u8; 16] = [
        0x00, 0x01, 0xab, 0xcd, 0xef, 0x10, 0x4f, 0x99, 0x80, 0x7a, 0xff, 0x0a, 0x3c, 0x5d, 0x6e,
        0x7f,
    ];
    assert_eq!(bytes_to_task_id_hex(&bytes), "0001abcdef104f99807aff0a3c5d6e7f");
}

#[test]
fn task_id_hex_roundtrip() {
    let bytes: [u8; 16] = [0xde, 0xad, 0xbe, 0xef, 0, 1, 2, 3, 4, 5, 6, 7, 8, 9, 10, 255];
    let hex = bytes_to_task_id_hex(&bytes);
    assert_eq!(hex.len(), 32);
    assert_eq!(task_id_hex_to_bytes(&hex), bytes);
}

#[test]
fn task_id_hex_accepts_upper_case() {
    let b = task_id_hex_to_bytes("ABCDEF00000000000000000000000001");
    assert_eq!(b[0], 0xab);
    assert_eq!(b[1], 0xcd);
    assert_eq!(b[2], 0xef);
    assert_eq!(b[15], 0x01);
}

#[test]
fn task_id_bad_hex_pair_reads_as_zero() {
    let b = task_id_hex_to_bytes("zz11+a-1100000000000000000000000");
    assert_eq!(b[0], 0);
    assert_eq!(b[1], 0x11);
    // "+a" is accepted by u8::from_str_radix, "-1" is not
    assert_eq!(b[2], 0x0a);
    assert_eq!(b[3], 0);
    assert_eq!(b[4], 0x10);
}

#[test]
fn task_id_only_first_32_bytes_count() {
    let b = task_id_hex_to_bytes("ff00000000000000000000000000000011223344");
    assert_eq!(b[0], 0xff);
    assert_eq!(b[15], 0);
}

#[test]
fn task_id_from_words_sets_version_and_variant() {
    let id = task_id_from_words(0xffff_ffff_ffff_ffff, 0xffff_ffff_ffff_ffff);
    assert_eq!(id, "ffffffffffff4fffbfffffffffffffff");
    let id2 = task_id_from_words(0, 0);
    assert_eq!(id2, "00000000000040008000000000000000");
    let id3 = task_id_from_words(0x0123_4567_89ab_cdef, 0xfedc_ba98_7654_3210);
    assert_eq!(id3, "0123456789ab4def bedcba9876543210".replace(' ', ""));
}

#[test]
fn decimal_rendering() {
    assert_eq!(decimal_string(0), "0");
    assert_eq!(decimal_string(7), "7");
    assert_eq!(decimal_string(53317), "53317");
    assert_eq!(decimal_string(u64::MAX), "18446744073709551615");
}

#[test]
fn unsigned_parse_follows_from_str() {
    assert_eq!(parse_unsigned_bytes(b"80", 65535), Some(80));
    assert_eq!(parse_unsigned_bytes(b"+80", 65535), Some(80));
    assert_eq!(parse_unsigned_bytes(b"0065535", 65535), Some(65535));
    assert_eq!(parse_unsigned_bytes(b"65536", 65535), None);
    assert_eq!(parse_unsigned_bytes(b"", 65535), None);
    assert_eq!(parse_unsigned_bytes(b"+", 65535), None);
    assert_eq!(parse_unsigned_bytes(b"-", 65535), None);
    assert_eq!(parse_unsigned_bytes(b"-1", 65535), None);
    assert_eq!(parse_unsigned_bytes(b" 1", 65535), None);
    assert_eq!(parse_unsigned_bytes(b"12a", 65535), None);
    assert_eq!(parse_unsigned_bytes(b"18446744073709551615", u64::MAX), Some(u64::MAX));
    assert_eq!(parse_unsigned_bytes(b"18446744073709551616", u64::MAX), None);
}
